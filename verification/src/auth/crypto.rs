//! Calls into the cryptographic crates.

use vstd::prelude::*;

use crate::auth::names::blake2s;
use crate::auth::names::ed25519_accepts;
use crate::auth::names::ed25519_public;
use crate::auth::names::ed25519_signature;
use crate::auth::names::has_neutral_commitment;
use crate::auth::names::x25519_public;
use crate::auth::names::x25519_shared;
use blake2::Blake2s256;
use blake2::Digest;
use ed25519_dalek::Signature;
use ed25519_dalek::Signer;
use ed25519_dalek::SigningKey;
use ed25519_dalek::VerifyingKey;
use subtle::ConstantTimeEq;
use x25519_dalek::PublicKey;
use x25519_dalek::StaticSecret;

verus! {

/// `blake2::Digest::digest` with `Blake2s256`: the digest is a function of the
/// data, 32 bytes long.
#[verifier::external_body]
pub(crate) fn digest(data: &[u8]) -> (d: [u8; 32])
    ensures
        d@ == blake2s(data@),
{
    Blake2s256::digest(data).into()
}

/// `ed25519_dalek::SigningKey::verifying_key` of the key that
/// `SigningKey::from_bytes` makes of the seed: a function of the seed.
#[verifier::external_body]
pub(crate) fn ed_public(seed: &[u8; 32]) -> (k: [u8; 32])
    ensures
        k@ == ed25519_public(seed@),
{
    SigningKey::from_bytes(seed).verifying_key().to_bytes()
}

/// `ed25519_dalek::Signer::sign` with the key that `SigningKey::from_bytes`
/// makes of the seed: a function of the seed and the message.  The seed's own
/// public key accepts the signature, except where its commitment came out as the
/// neutral point.
#[verifier::external_body]
pub(crate) fn ed_sign(seed: &[u8; 32], msg: &[u8]) -> (s: [u8; 64])
    ensures
        s@ == ed25519_signature(seed@, msg@),
        !has_neutral_commitment(s@) ==> ed25519_accepts(ed25519_public(seed@), msg@, s@),
{
    SigningKey::from_bytes(seed).sign(msg).to_bytes()
}

/// `ed25519_dalek::VerifyingKey::verify_strict` with the key that
/// `VerifyingKey::from_bytes` makes of the public key bytes, `false` where they
/// are not a key: a function of the three arguments.
#[verifier::external_body]
pub(crate) fn ed_verify(pubkey: &[u8; 32], msg: &[u8], signature: &[u8; 64]) -> (ok: bool)
    ensures
        ok == ed25519_accepts(pubkey@, msg@, signature@),
{
    match VerifyingKey::from_bytes(pubkey) {
        Ok(key) => key.verify_strict(msg, &Signature::from_bytes(signature)).is_ok(),
        Err(_) => false,
    }
}

/// `x25519_dalek::PublicKey::from` a `StaticSecret`: a function of the secret.
#[verifier::external_body]
pub(crate) fn x_public(secret: &[u8; 32]) -> (k: [u8; 32])
    ensures
        k@ == x25519_public(secret@),
{
    PublicKey::from(&StaticSecret::from(*secret)).to_bytes()
}

/// `x25519_dalek::StaticSecret::diffie_hellman`: a function of the secret and
/// the peer's public key.  Where the peer's key is the public key of some other
/// secret, that secret and this one's public key give the same result.
#[verifier::external_body]
pub(crate) fn x_shared(secret: &[u8; 32], peer: &[u8; 32]) -> (k: [u8; 32])
    ensures
        k@ == x25519_shared(secret@, peer@),
        forall|other: Seq<u8>|
            other.len() == 32 && peer@ == #[trigger] x25519_public(other) ==> k@ == x25519_shared(
                other,
                x25519_public(secret@),
            ),
{
    StaticSecret::from(*secret).diffie_hellman(&PublicKey::from(*peer)).to_bytes()
}

/// `subtle::ConstantTimeEq::ct_eq` on two tags: whether they are equal.
#[verifier::external_body]
pub(crate) fn tags_equal(a: &[u8; 16], b: &[u8; 16]) -> (same: bool)
    ensures
        same == (a@ == b@),
{
    a.ct_eq(b).into()
}

/// `getrandom::getrandom`: 32 bytes of the operating system's entropy, or `None`
/// where there is none to be had.  Nothing is claimed of which bytes come, or of
/// when they do.
#[verifier::external_body]
pub(crate) fn os_entropy() -> Option<[u8; 32]> {
    let mut seed = [0u8; 32];
    match getrandom::getrandom(&mut seed) {
        Ok(()) => Some(seed),
        Err(_) => None,
    }
}

} // verus!
