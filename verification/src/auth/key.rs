//! Node key material: an Ed25519 identity key and an X25519 key for pairwise
//! agreement, both derived from one 32-byte seed.

use vstd::prelude::*;

use crate::auth::crypto::digest;
use crate::auth::crypto::ed_public;
use crate::auth::crypto::ed_sign;
use crate::auth::crypto::ed_verify;
use crate::auth::crypto::os_entropy;
use crate::auth::crypto::x_public;
use crate::auth::crypto::x_shared;
use crate::auth::mac::derive_mac;
use crate::auth::mac::derived_octets;
use crate::auth::names::blake2s;
use crate::auth::names::ed25519_accepts;
use crate::auth::names::ed25519_public;
use crate::auth::names::ed25519_signature;
use crate::auth::names::has_neutral_commitment;
use crate::auth::names::x25519_public;
use crate::auth::names::x25519_shared;
use crate::frame::Mac;
use vstd::utf8::encode_utf8;
use vstd::utf8::is_ascii_chars_encode_utf8;

verus! {

/// A label's bytes followed by `data`: what is hashed where one digest is used
/// for several purposes.
pub open spec fn labelled(label: Seq<char>, data: Seq<u8>) -> Seq<u8> {
    encode_utf8(label) + data
}

/// The digest of a label's bytes followed by `data`.
pub(crate) fn labelled_digest(label: &str, data: &[u8]) -> (d: [u8; 32])
    ensures
        d@ == blake2s(labelled(label@, data@)),
{
    let mut bytes: Vec<u8> = Vec::new();
    bytes.extend_from_slice(label.as_bytes());
    bytes.extend_from_slice(data);
    assert(bytes@ =~= labelled(label@, data@));
    digest(bytes.as_slice())
}

/// The X25519 secret of a node seed: a digest of it, so that the agreement key
/// is independent of the signing key.
pub open spec fn agreement_secret(seed: Seq<u8>) -> Seq<u8> {
    blake2s(labelled("wayfinder-x25519-v1"@, seed))
}

/// The pairwise key of a shared secret.
pub open spec fn pairwise_key_of(shared: Seq<u8>) -> Seq<u8> {
    blake2s(labelled("wayfinder-pairwise-v1"@, shared))
}

/// A node's long-term key material.
pub struct Keypair {
    /// The Ed25519 secret seed.
    seed: [u8; 32],
    /// The X25519 secret.
    x_secret: [u8; 32],
}

impl Keypair {
    /// The seed the keys were derived from.
    pub closed spec fn seed(self) -> Seq<u8> {
        self.seed@
    }

    /// The agreement key belongs to the seed.
    pub closed spec fn wf(self) -> bool {
        self.x_secret@ == agreement_secret(self.seed@)
    }

    /// Derive the keys of a 32-byte seed.
    pub fn from_seed(seed: &[u8; 32]) -> (k: Keypair)
        ensures
            k.wf(),
            k.seed() == seed@,
    {
        let x_secret: [u8; 32] = labelled_digest("wayfinder-x25519-v1", seed);
        Keypair { seed: *seed, x_secret }
    }

    /// Derive the keys of a seed drawn from the operating system, or `None`
    /// where it has no entropy to give.  Which seed is drawn, and whether one
    /// is, rests with the operating system; [`Keypair::from_entropy`] says what
    /// becomes of each outcome.
    pub fn generate() -> (k: Option<Keypair>)
        ensures
            k matches Some(pair) ==> pair.wf() && pair.seed().len() == 32,
    {
        Keypair::from_entropy(os_entropy())
    }

    /// Derive the keys of a seed that was drawn, or `None` where none was.
    pub fn from_entropy(drawn: Option<[u8; 32]>) -> (k: Option<Keypair>)
        ensures
            match drawn {
                Some(seed) => k matches Some(pair) && pair.wf() && pair.seed() == seed@,
                None => k is None,
            },
    {
        match drawn {
            Some(seed) => Some(Keypair::from_seed(&seed)),
            None => None,
        }
    }

    /// This node's Ed25519 public key.
    pub fn ed_pubkey(&self) -> (k: [u8; 32])
        ensures
            k@ == ed25519_public(self.seed()),
    {
        ed_public(&self.seed)
    }

    /// This node's X25519 public key.
    pub fn x_pubkey(&self) -> (k: [u8; 32])
        requires
            self.wf(),
        ensures
            k@ == x25519_public(agreement_secret(self.seed())),
    {
        x_public(&self.x_secret)
    }

    /// The mesh address of this node's Ed25519 key.
    pub fn derived_mac(&self) -> (m: Mac)
        ensures
            m.0@ == derived_octets(ed25519_public(self.seed())),
    {
        derive_mac(&self.ed_pubkey())
    }

    /// Sign `msg` with the Ed25519 key.  The signature verifies under this
    /// node's public key, except where its commitment came out as the neutral
    /// point.
    pub fn sign(&self, msg: &[u8]) -> (s: [u8; 64])
        ensures
            s@ == ed25519_signature(self.seed(), msg@),
            !has_neutral_commitment(s@) ==> ed25519_accepts(
                ed25519_public(self.seed()),
                msg@,
                s@,
            ),
    {
        ed_sign(&self.seed, msg)
    }

    /// The symmetric key shared with the neighbor whose X25519 public key is
    /// `peer_x_pubkey`.  The neighbor derives the same key from its own secret
    /// and this node's public key.
    pub fn pairwise_key(&self, peer_x_pubkey: &[u8; 32]) -> (k: [u8; 32])
        requires
            self.wf(),
        ensures
            k@ == pairwise_key_of(
                x25519_shared(agreement_secret(self.seed()), peer_x_pubkey@),
            ),
            forall|peer: Keypair|
                peer.wf() && peer_x_pubkey@ == x25519_public(
                    agreement_secret(#[trigger] peer.seed()),
                ) ==> k@ == pairwise_key_of(
                    x25519_shared(
                        agreement_secret(peer.seed()),
                        x25519_public(agreement_secret(self.seed())),
                    ),
                ),
    {
        let shared: [u8; 32] = x_shared(&self.x_secret, peer_x_pubkey);
        proof {
            assert forall|peer: Keypair|
                peer.wf() && peer_x_pubkey@ == x25519_public(
                    agreement_secret(#[trigger] peer.seed()),
                ) implies shared@ == x25519_shared(
                agreement_secret(peer.seed()),
                x25519_public(agreement_secret(self.seed())),
            ) by {
                assert(peer.x_secret@.len() == 32);
                assert(peer_x_pubkey@ == x25519_public(peer.x_secret@));
            }
        }
        labelled_digest("wayfinder-pairwise-v1", &shared)
    }
}

/// Verify an Ed25519 `signature` over `msg` against `ed_pubkey`: `false` for a
/// malformed public key or a signature that does not verify.
pub fn verify_signature(ed_pubkey: &[u8; 32], msg: &[u8], signature: &[u8; 64]) -> (ok: bool)
    ensures
        ok == ed25519_accepts(ed_pubkey@, msg@, signature@),
{
    ed_verify(ed_pubkey, msg, signature)
}

/// What is hashed for the agreement secret begins with the purpose, in ASCII, and
/// ends with the seed.
pub proof fn agreement_secret_is_of_its_purpose(seed: Seq<u8>)
    ensures
        agreement_secret(seed) == blake2s(seq![
        119u8, 97, 121, 102, 105, 110, 100, 101, 114, 45, 120, 50, 53, 53,
        49, 57, 45, 118, 49,
    ] + seed),
{
    reveal_strlit("wayfinder-x25519-v1");
    is_ascii_chars_encode_utf8("wayfinder-x25519-v1"@);
    assert(labelled("wayfinder-x25519-v1"@, seed) =~= seq![
        119u8, 97, 121, 102, 105, 110, 100, 101, 114, 45, 120, 50, 53, 53,
        49, 57, 45, 118, 49,
    ] + seed);
}

/// What is hashed for a pairwise key begins with the purpose, in ASCII, and ends
/// with the shared secret.
pub proof fn pairwise_key_is_of_its_purpose(shared: Seq<u8>)
    ensures
        pairwise_key_of(shared) == blake2s(seq![
        119u8, 97, 121, 102, 105, 110, 100, 101, 114, 45, 112, 97, 105, 114,
        119, 105, 115, 101, 45, 118, 49,
    ] + shared),
{
    reveal_strlit("wayfinder-pairwise-v1");
    is_ascii_chars_encode_utf8("wayfinder-pairwise-v1"@);
    assert(labelled("wayfinder-pairwise-v1"@, shared) =~= seq![
        119u8, 97, 121, 102, 105, 110, 100, 101, 114, 45, 112, 97, 105, 114,
        119, 105, 115, 101, 45, 118, 49,
    ] + shared);
}

} // verus!
