//! A client's credentials, and the node it is willing to talk to.

use vstd::prelude::*;
use vstd::string::StringSliceAdditionalSpecFns;

use crate::auth::key::Keypair;
use crate::auth::names::ed25519_public;
use crate::client::key::key_of;
use crate::client::key::parse_key32;
use crate::client::key::KeyError;

verus! {

/// The credentials a client presents to a node.
#[derive(Clone)]
pub struct Identity {
    /// The client's 32-byte identity seed.
    pub seed: [u8; 32],
    /// The client's membership certificate, or empty to bootstrap.
    pub cert: Vec<u8>,
}

/// What a client needs besides an address: the node's pinned public key, and its
/// own identity.
#[derive(Clone)]
pub struct EndpointKeys {
    /// The node's public key.
    pub node_key: [u8; 32],
    /// The client's identity.
    pub identity: Identity,
}

/// Why credentials were refused.
#[derive(Debug, Clone, Copy, PartialEq, Eq, Structural)]
pub enum EndpointError {
    /// The identity seed is not 32 bytes.
    SeedLength,
    /// The node key could not be read.
    NodeKey(KeyError),
}

/// An array of exactly 32 bytes.
pub fn seed_of(bytes: &[u8]) -> (r: Option<[u8; 32]>)
    ensures
        match r {
            Some(seed) => seed@ == bytes@,
            None => bytes@.len() != 32,
        },
{
    if bytes.len() != 32 {
        return None;
    }
    let mut seed: [u8; 32] = [0u8; 32];
    let mut i: usize = 0;
    while i < 32
        invariant
            i <= 32,
            bytes@.len() == 32,
            forall|j: int| 0 <= j < i ==> (#[trigger] seed@[j]) == bytes@[j],
        decreases 32 - i,
    {
        seed[i] = bytes[i];
        i = i + 1;
    }
    assert(seed@ =~= bytes@);
    Some(seed)
}

/// Assemble a client's keys from what was read and typed: the seed, the
/// certificate (empty to bootstrap), and the node's key, which is the identity's
/// own where none was given.
pub fn endpoint_keys(seed: &[u8], cert: Vec<u8>, node_key: Option<&str>) -> (r: Result<
    EndpointKeys,
    EndpointError,
>)
    ensures
        match r {
            Ok(keys) => {
                &&& keys.identity.seed@ == seed@
                &&& keys.identity.cert@ == cert@
                &&& match node_key {
                    Some(text) => key_of(text.spec_bytes()) == Ok::<Seq<u8>, KeyError>(
                        keys.node_key@,
                    ),
                    None => keys.node_key@ == ed25519_public(seed@),
                }
            },
            Err(EndpointError::SeedLength) => seed@.len() != 32,
            Err(EndpointError::NodeKey(e)) => seed@.len() == 32 && (node_key matches Some(text)
                && key_of(text.spec_bytes()) == Err::<Seq<u8>, KeyError>(e)),
        },
{
    let seed: [u8; 32] = match seed_of(seed) {
        Some(seed) => seed,
        None => {
            return Err(EndpointError::SeedLength);
        },
    };
    let node_key: [u8; 32] = match node_key {
        Some(text) => match parse_key32(text) {
            Ok(key) => key,
            Err(e) => {
                return Err(EndpointError::NodeKey(e));
            },
        },
        None => Keypair::from_seed(&seed).ed_pubkey(),
    };
    Ok(EndpointKeys { node_key, identity: Identity { seed, cert } })
}

/// What stands in front of the 32 key bytes in the DER form of an Ed25519 public
/// key: a sequence of the algorithm's identifier and a bit string.
pub open spec fn spki_front() -> Seq<u8> {
    seq![0x30u8, 0x2a, 0x30, 0x05, 0x06, 0x03, 0x2b, 0x65, 0x70, 0x03, 0x21, 0x00]
}

/// The key in the DER form of an Ed25519 public key; `None` for anything else.
pub fn ed25519_from_spki(der: &[u8]) -> (r: Option<[u8; 32]>)
    ensures
        match r {
            Some(key) => der@ == spki_front() + key@,
            None => der@.len() != 44 || der@.subrange(0, 12) != spki_front(),
        },
{
    let front: [u8; 12] = [
        0x30,
        0x2a,
        0x30,
        0x05,
        0x06,
        0x03,
        0x2b,
        0x65,
        0x70,
        0x03,
        0x21,
        0x00,
    ];
    assert(front@ =~= spki_front());
    if der.len() != 44 {
        return None;
    }
    let mut i: usize = 0;
    while i < 12
        invariant
            i <= 12,
            der@.len() == 44,
            front@ == spki_front(),
            forall|j: int| 0 <= j < i ==> (#[trigger] der@[j]) == front@[j],
        decreases 12 - i,
    {
        if der[i] != front[i] {
            assert(der@.subrange(0, 12)[i as int] != spki_front()[i as int]);
            return None;
        }
        i = i + 1;
    }
    match seed_of(&der[12..44]) {
        Some(key) => {
            assert(der@ =~= spki_front() + key@);
            Some(key)
        },
        None => None,
    }
}

/// Why a node's key was refused.
#[derive(Debug, Clone, Copy, PartialEq, Eq, Structural)]
pub enum PinError {
    /// The node presented no Ed25519 key.
    NotEd25519,
    /// The node presented another key than the one pinned.
    Mismatch,
}

/// Hold the key a node presented, where it presented one, against the pinned one.
pub fn check_pin(presented: Option<[u8; 32]>, pinned: &[u8; 32]) -> (r: Result<(), PinError>)
    ensures
        match r {
            Ok(_) => presented matches Some(key) && key@ == pinned@,
            Err(PinError::NotEd25519) => presented is None,
            Err(PinError::Mismatch) => presented matches Some(key) && key@ != pinned@,
        },
{
    let key: [u8; 32] = match presented {
        Some(key) => key,
        None => {
            return Err(PinError::NotEd25519);
        },
    };
    let mut i: usize = 0;
    while i < 32
        invariant
            i <= 32,
            forall|j: int| 0 <= j < i ==> (#[trigger] key@[j]) == pinned@[j],
            presented == Some(key),
        decreases 32 - i,
    {
        if key[i] != pinned[i] {
            assert(key@ != pinned@) by {
                assert(key@[i as int] != pinned@[i as int]);
            }
            return Err(PinError::Mismatch);
        }
        i = i + 1;
    }
    assert(key@ =~= pinned@);
    Ok(())
}

/// The front of a key's DER form says what follows: a sequence of 42 bytes, in it
/// the identifier 1.3.101.112 of Ed25519 and a bit string of 33 bytes without
/// unused bits, of which 32 are the key.
pub proof fn key_form_names_its_algorithm()
    ensures
        ({
            let f = spki_front();
            &&& f.len() == 12
            &&& f[0] == 0x30
            &&& f[1] == 44 - 2
            &&& f[2] == 0x30
            &&& f[3] == 5
            &&& f[4] == 0x06
            &&& f[5] == 3
            &&& f[6] == 40 * 1 + 3
            &&& f[7] == 101
            &&& f[8] == 112
            &&& f[9] == 0x03
            &&& f[10] == 32 + 1
            &&& f[11] == 0
        }),
{
}

} // verus!
