//! A node's mesh address, derived from its Ed25519 identity key.

use vstd::prelude::*;
use vstd::utf8::is_ascii_chars_encode_utf8;

use crate::auth::key::labelled;
use crate::auth::key::labelled_digest;
use crate::auth::names::blake2s;
use crate::frame::Mac;

verus! {

/// An octet with its locally-administered bit set and its group bit cleared.
pub open spec fn local_unicast(octet: u8) -> u8 {
    (octet & 0xFE) | 0x02
}

/// The six octets of the address of a public key: the start of a digest of it,
/// made a locally administered unicast address.
pub open spec fn derived_octets(ed_pubkey: Seq<u8>) -> Seq<u8> {
    let d = blake2s(labelled("wayfinder-mac-v1"@, ed_pubkey)).subrange(0, 6);
    d.update(0, local_unicast(d[0]))
}

/// The mesh address of an Ed25519 public key: locally administered, and never a
/// group address.
pub fn derive_mac(ed_pubkey: &[u8; 32]) -> (m: Mac)
    ensures
        m.0@ == derived_octets(ed_pubkey@),
        m.0@[0] & 0x02 == 0x02,
        !m.group_bit(),
{
    let d: [u8; 32] = labelled_digest("wayfinder-mac-v1", ed_pubkey);
    let mut bytes: [u8; 6] = [d[0], d[1], d[2], d[3], d[4], d[5]];
    assert(bytes@ =~= d@.subrange(0, 6));
    proof {
        local_unicast_bits(d@[0]);
    }
    force_locally_administered_unicast(&mut bytes);
    Mac(bytes)
}

/// Make six octets a locally administered unicast address: set the
/// locally-administered bit of the first and clear its group bit.
pub fn force_locally_administered_unicast(bytes: &mut [u8; 6])
    ensures
        final(bytes)@ == old(bytes)@.update(0, local_unicast(old(bytes)@[0])),
{
    bytes[0] = (bytes[0] & 0xFE) | 0x02;
}

/// An octet so changed has the locally-administered bit set and the group bit
/// clear.
pub proof fn local_unicast_bits(octet: u8)
    ensures
        local_unicast(octet) & 0x02 == 0x02,
        local_unicast(octet) % 2 == 0,
{
    assert(((octet & 0xFE) | 0x02) & 0x02 == 0x02) by (bit_vector);
    assert(((octet & 0xFE) | 0x02) % 2 == 0) by (bit_vector);
}

/// A derived address is the start of the digest of the purpose, in ASCII, and the
/// key, but for the two bits of its first octet that make it a locally
/// administered unicast address.
pub proof fn derived_address_is_the_digests_start(ed_pubkey: Seq<u8>, i: int)
    requires
        blake2s(seq![
        119u8, 97, 121, 102, 105, 110, 100, 101, 114, 45, 109, 97, 99, 45,
        118, 49,
    ] + ed_pubkey).len() == 32,
    ensures
        derived_octets(ed_pubkey).len() == 6,
        1 <= i < 6 ==> derived_octets(ed_pubkey)[i] == blake2s(seq![
        119u8, 97, 121, 102, 105, 110, 100, 101, 114, 45, 109, 97, 99, 45,
        118, 49,
    ] + ed_pubkey)[i],
        derived_octets(ed_pubkey)[0] & 0xFC == blake2s(seq![
        119u8, 97, 121, 102, 105, 110, 100, 101, 114, 45, 109, 97, 99, 45,
        118, 49,
    ] + ed_pubkey)[0] & 0xFC,
        derived_octets(ed_pubkey)[0] & 0x03 == 0x02,
{
    reveal_strlit("wayfinder-mac-v1");
    is_ascii_chars_encode_utf8("wayfinder-mac-v1"@);
    assert(labelled("wayfinder-mac-v1"@, ed_pubkey) =~= seq![
        119u8, 97, 121, 102, 105, 110, 100, 101, 114, 45, 109, 97, 99, 45,
        118, 49,
    ] + ed_pubkey);
    let octet = blake2s(labelled("wayfinder-mac-v1"@, ed_pubkey))[0];
    assert(((octet & 0xFE) | 0x02) & 0xFC == octet & 0xFC) by (bit_vector);
    assert(((octet & 0xFE) | 0x02) & 0x03 == 0x02) by (bit_vector);
}

} // verus!
