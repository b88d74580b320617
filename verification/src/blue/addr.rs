//! The advertiser address, as reported by the scan stack.

use vstd::prelude::*;

use crate::codec::be16_at;
use crate::codec::be16_of_bytes;
use crate::codec::be32_at;
use crate::codec::be32_of_bytes;
use crate::codec::read_u16_be;
use crate::codec::read_u32_be;

verus! {

/// A 6-byte device address, public or random: the two are never told apart, only
/// compared.
#[derive(Debug, Clone, Copy, PartialEq, Eq)]
pub struct BleAddr([u8; 6]);

impl BleAddr {
    /// The address's six bytes.
    pub closed spec fn octets(self) -> Seq<u8> {
        self.0@
    }

    /// The address's six bytes, most significant first.
    pub fn as_bytes(&self) -> (b: &[u8; 6])
        ensures
            b@ == self.octets(),
    {
        &self.0
    }

    /// The address as a number, its first byte the most significant.
    pub fn as_key(&self) -> (k: u64)
        ensures
            k == addr_key(self.octets()),
    {
        read_u16_be(&self.0, 0) as u64 * 0x1_0000_0000 + read_u32_be(&self.0, 2) as u64
    }
}

/// Six octets as a number, the first the most significant.
pub open spec fn addr_key(o: Seq<u8>) -> u64 {
    (be16_at(o, 0) * 0x1_0000_0000 + be32_at(o, 2)) as u64
}

/// Two addresses with the same number have the same octets.
pub proof fn addr_key_injective(a: Seq<u8>, b: Seq<u8>)
    requires
        a.len() == 6,
        b.len() == 6,
        addr_key(a) == addr_key(b),
    ensures
        a == b,
{
    assert(be16_at(a, 0) == be16_at(b, 0) && be32_at(a, 2) == be32_at(b, 2));
    be16_of_bytes(a, 0);
    be16_of_bytes(b, 0);
    be32_of_bytes(a, 2);
    be32_of_bytes(b, 2);
    assert(a =~= a.subrange(0, 2) + a.subrange(2, 6));
    assert(b =~= b.subrange(0, 2) + b.subrange(2, 6));
}

impl From<[u8; 6]> for BleAddr {
    fn from(bytes: [u8; 6]) -> (a: BleAddr) {
        BleAddr(bytes)
    }
}

impl vstd::std_specs::convert::FromSpecImpl<[u8; 6]> for BleAddr {
    open spec fn obeys_from_spec() -> bool {
        true
    }

    closed spec fn from_spec(bytes: [u8; 6]) -> BleAddr {
        BleAddr(bytes)
    }
}

/// An address made of six octets has those octets.
pub proof fn from_octets(bytes: [u8; 6])
    ensures
        <BleAddr as vstd::std_specs::convert::FromSpec<[u8; 6]>>::from_spec(bytes).octets()
            == bytes@,
{
}

/// An address's number has its first octet as the most significant.
pub proof fn first_octet_counts_most(o: Seq<u8>)
    requires
        o.len() == 6,
    ensures
        addr_key(o) == o[0] * 0x100_0000_0000 + o[1] * 0x1_0000_0000 + o[2] * 0x100_0000 + o[3]
            * 0x1_0000 + o[4] * 0x100 + o[5],
{
}

} // verus!
