//! Names for what the cryptographic primitives compute.

use vstd::prelude::*;

verus! {

/// The 32-byte BLAKE2s digest of `data`.
pub uninterp spec fn blake2s(data: Seq<u8>) -> Seq<u8>;

/// The Ed25519 public key of a 32-byte secret seed.
pub uninterp spec fn ed25519_public(seed: Seq<u8>) -> Seq<u8>;

/// The Ed25519 signature of `msg` under a 32-byte secret seed.
pub uninterp spec fn ed25519_signature(seed: Seq<u8>, msg: Seq<u8>) -> Seq<u8>;

/// Whether `signature` on `msg` passes strict Ed25519 verification under
/// `pubkey`; never for bytes that are not a public key.
pub uninterp spec fn ed25519_accepts(pubkey: Seq<u8>, msg: Seq<u8>, signature: Seq<u8>) -> bool;

/// The X25519 public key of a 32-byte secret.
pub uninterp spec fn x25519_public(secret: Seq<u8>) -> Seq<u8>;

/// The X25519 shared secret of a 32-byte secret and a peer's public key.
pub uninterp spec fn x25519_shared(secret: Seq<u8>, peer: Seq<u8>) -> Seq<u8>;

/// Whether a signature's first half encodes the curve's neutral point, which
/// strict verification refuses.
pub open spec fn has_neutral_commitment(signature: Seq<u8>) -> bool {
    signature.len() == 64 && signature[0] == 1 && forall|i: int|
        1 <= i < 32 ==> #[trigger] signature[i] == 0
}

} // verus!
