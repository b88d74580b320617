//! The link-layer frame and the 48-bit node address.

use vstd::prelude::*;

use crate::codec::be16;
use crate::codec::be16_of_bytes;
use crate::codec::be16_reads_back;
use crate::codec::read_u16_be;
use crate::text::hex_pair;
use crate::text::hex_pair_spells;
use crate::text::hex_value;
use crate::text::push_hex_pair;

verus! {

/// Upper bound, in bytes, on a fully encapsulated link frame anywhere in the
/// data path: room for a 1500-byte host frame with every mesh header on it.
pub const MAX_LINK_FRAME_LEN: usize = 2048;

/// A 48-bit IEEE 802 MAC address: the mesh node identifier.
#[derive(Debug, Clone, Copy, Eq, PartialOrd, Ord, Hash)]
pub struct Mac(pub [u8; 6]);

impl PartialEq for Mac {
    fn eq(&self, other: &Mac) -> (same: bool) {
        let mut i: usize = 0;
        while i < 6
            invariant
                i <= 6,
                forall|j: int| 0 <= j < i ==> self.0@[j] == #[trigger] other.0@[j],
            decreases 6 - i,
        {
            if self.0[i] != other.0[i] {
                return false;
            }
            i = i + 1;
        }
        assert(self.0 =~= other.0);
        true
    }
}

impl vstd::std_specs::cmp::PartialEqSpecImpl for Mac {
    open spec fn obeys_eq_spec() -> bool {
        true
    }

    open spec fn eq_spec(&self, other: &Mac) -> bool {
        *self == *other
    }
}

/// Two addresses with the same octets are the same address.
pub proof fn same_octets(a: Mac, b: Mac)
    requires
        a.0@ == b.0@,
    ensures
        a == b,
{
    assert(a.0 =~= b.0);
}

impl Default for Mac {
    fn default() -> (m: Mac)
        ensures
            m.0@ == seq![0u8, 0, 0, 0, 0, 0],
    {
        let m = Mac([0, 0, 0, 0, 0, 0]);
        assert(m.0@ =~= seq![0u8, 0, 0, 0, 0, 0]);
        m
    }
}

impl From<[u8; 6]> for Mac {
    fn from(bytes: [u8; 6]) -> (m: Mac) {
        Mac(bytes)
    }
}

impl vstd::std_specs::convert::FromSpecImpl<[u8; 6]> for Mac {
    open spec fn obeys_from_spec() -> bool {
        true
    }

    open spec fn from_spec(bytes: [u8; 6]) -> Mac {
        Mac(bytes)
    }
}

impl From<Mac> for [u8; 6] {
    fn from(mac: Mac) -> (bytes: [u8; 6]) {
        mac.0
    }
}

impl vstd::std_specs::convert::FromSpecImpl<Mac> for [u8; 6] {
    open spec fn obeys_from_spec() -> bool {
        true
    }

    open spec fn from_spec(mac: Mac) -> [u8; 6] {
        mac.0
    }
}

/// The address whose six octets stand in `s` at `at`.
pub open spec fn mac_at(s: Seq<u8>, at: int) -> Mac {
    Mac([s[at], s[at + 1], s[at + 2], s[at + 3], s[at + 4], s[at + 5]])
}

impl Mac {
    /// The all-ones (`ff:ff:ff:ff:ff:ff`) link-layer broadcast address.
    pub fn broadcast() -> (m: Mac)
        ensures
            m == Mac::all_ones(),
    {
        Mac([0xff, 0xff, 0xff, 0xff, 0xff, 0xff])
    }

    /// The address whose every octet is `ff`.
    pub open spec fn all_ones() -> Mac {
        Mac([0xff, 0xff, 0xff, 0xff, 0xff, 0xff])
    }

    /// Whether the least-significant bit of the first octet is set.
    pub open spec fn group_bit(self) -> bool {
        self.0@[0] % 2 == 1
    }

    /// Whether this is a group address (multicast or broadcast): the
    /// least-significant bit of the first octet is set.
    pub fn is_multicast(&self) -> (m: bool)
        ensures
            m == self.group_bit(),
    {
        let first: u8 = self.0[0];
        assert((first & 0x01 != 0) == (first % 2 == 1)) by (bit_vector);
        first & 0x01 != 0
    }

    /// Whether this is the all-ones broadcast address specifically.
    pub fn is_broadcast(&self) -> (b: bool)
        ensures
            b == (*self == Mac::all_ones()),
    {
        *self == Mac::broadcast()
    }

    /// The Ethernet address of an IPv4 multicast group, given by the group's
    /// four octets: the `01:00:5e` prefix, then the low 23 bits of the group.
    pub fn from_ipv4_multicast(group: [u8; 4]) -> (m: Mac)
        ensures
            m.0@ == seq![0x01u8, 0x00, 0x5e, group@[1] % 128, group@[2], group@[3]],
    {
        let second: u8 = group[1];
        assert(second & 0x7f == second % 128) by (bit_vector);
        let m = Mac([0x01, 0x00, 0x5e, second & 0x7f, group[2], group[3]]);
        assert(m.0@ =~= seq![0x01u8, 0x00, 0x5e, group@[1] % 128, group@[2], group@[3]]);
        m
    }

    /// The address held in exactly six bytes; `None` for any other length.
    pub fn try_from_slice(bytes: &[u8]) -> (m: Option<Mac>)
        ensures
            match m {
                Some(mac) => bytes@.len() == 6 && mac.0@ == bytes@,
                None => bytes@.len() != 6,
            },
    {
        if bytes.len() != 6 {
            return None;
        }
        Some(Mac::read(bytes, 0))
    }

    /// The address whose six octets stand in `bytes` at `at`.
    pub fn read(bytes: &[u8], at: usize) -> (m: Mac)
        requires
            at + 6 <= bytes@.len(),
        ensures
            m == mac_at(bytes@, at as int),
            m.0@ == bytes@.subrange(at as int, at + 6),
    {
        assert(bytes.len() == bytes@.len());
        let m = Mac(
            [bytes[at], bytes[at + 1], bytes[at + 2], bytes[at + 3], bytes[at + 4], bytes[at + 5]],
        );
        assert(m.0@ =~= bytes@.subrange(at as int, at + 6));
        m
    }
}

/// The address as text: six two-digit lowercase hex octets joined by colons.
pub open spec fn mac_text(octets: Seq<u8>, n: int) -> Seq<char>
    decreases n,
{
    if n <= 0 {
        Seq::empty()
    } else if n == 1 {
        hex_pair(octets[0])
    } else {
        mac_text(octets, n - 1) + seq![':'] + hex_pair(octets[n - 1])
    }
}

impl Mac {
    /// The address as lowercase colon-separated hex (`00:11:22:33:44:55`).
    pub fn to_text(&self) -> (s: String)
        ensures
            s@ == mac_text(self.0@, 6),
    {
        let mut s: String = String::new();
        push_hex_pair(&mut s, self.0[0]);
        assert(s@ =~= mac_text(self.0@, 1)) by {
            reveal_with_fuel(mac_text, 1);
        }
        let mut i: usize = 1;
        while i < 6
            invariant
                1 <= i <= 6,
                s@ == mac_text(self.0@, i as int),
            decreases 6 - i,
        {
            s.push(':');
            push_hex_pair(&mut s, self.0[i]);
            i = i + 1;
            assert(s@ =~= mac_text(self.0@, i as int));
        }
        s
    }
}

/// A unified link-layer frame: `[dst][src][protocol, big endian][payload]`, the
/// layout of an Ethernet frame, viewed in place.
#[derive(Clone, Copy, Debug)]
pub struct LinkFrame<'a> {
    /// Destination node address (or broadcast), first on the wire.
    pub dst: Mac,
    /// Source node address, stamped by the link layer on send.
    pub src: Mac,
    /// EtherType-style protocol identifier (e.g. `0x4305` for BATMAN).
    pub protocol: u16,
    /// Variable-length frame payload.
    pub payload: &'a [u8],
}

/// Length of the `[dst][src][protocol]` header in front of every payload.
pub const LINK_HEADER_LEN: usize = 14;

/// The bytes of a frame in wire order.
pub open spec fn frame_bytes(dst: Mac, src: Mac, protocol: u16, payload: Seq<u8>) -> Seq<u8> {
    dst.0@ + src.0@ + be16(protocol) + payload
}

impl<'a> LinkFrame<'a> {
    /// The frame's bytes in wire order.
    pub open spec fn bytes(self) -> Seq<u8> {
        frame_bytes(self.dst, self.src, self.protocol, self.payload@)
    }

    /// View `bytes` as a frame; `None` when they are too short for the header.
    pub fn ref_from_bytes(bytes: &'a [u8]) -> (f: Option<LinkFrame<'a>>)
        ensures
            match f {
                Some(frame) => bytes@.len() >= LINK_HEADER_LEN && frame.bytes() == bytes@,
                None => bytes@.len() < LINK_HEADER_LEN,
            },
    {
        if bytes.len() < LINK_HEADER_LEN {
            return None;
        }
        let dst = Mac::read(bytes, 0);
        let src = Mac::read(bytes, 6);
        let protocol: u16 = read_u16_be(bytes, 12);
        let payload = &bytes[LINK_HEADER_LEN..bytes.len()];
        let frame = LinkFrame { dst, src, protocol, payload };
        proof {
            be16_of_bytes(bytes@, 12);
            assert(frame.bytes() =~= bytes@);
        }
        Some(frame)
    }
}

/// A frame is determined by its bytes.
pub proof fn frame_bytes_injective(
    d1: Mac,
    s1: Mac,
    p1: u16,
    b1: Seq<u8>,
    d2: Mac,
    s2: Mac,
    p2: u16,
    b2: Seq<u8>,
)
    requires
        frame_bytes(d1, s1, p1, b1) == frame_bytes(d2, s2, p2, b2),
    ensures
        d1 == d2,
        s1 == s2,
        p1 == p2,
        b1 == b2,
{
    let x = frame_bytes(d1, s1, p1, b1);
    assert(x.subrange(0, 6) =~= d1.0@);
    assert(x.subrange(0, 6) =~= d2.0@);
    assert(x.subrange(6, 12) =~= s1.0@);
    assert(x.subrange(6, 12) =~= s2.0@);
    assert(x.subrange(12, 14) =~= be16(p1));
    assert(x.subrange(12, 14) =~= be16(p2));
    be16_reads_back(p1, x, 12);
    be16_reads_back(p2, x, 12);
    assert(x.subrange(14, x.len() as int) =~= b1);
    assert(x.subrange(14, x.len() as int) =~= b2);
    same_octets(d1, d2);
    same_octets(s1, s2);
}

/// A mesh node address of some kind.
pub trait MeshIdentifier: Sized {
    /// The address of all nodes.
    spec fn everyone() -> Self;

    /// The address of all nodes, to which floods go.
    fn broadcast_ident() -> (m: Self)
        ensures
            m == Self::everyone(),
    ;
}

impl MeshIdentifier for u8 {
    open spec fn everyone() -> u8 {
        0xff
    }

    fn broadcast_ident() -> (m: u8) {
        0xff
    }
}

impl MeshIdentifier for Mac {
    open spec fn everyone() -> Mac {
        Mac::all_ones()
    }

    fn broadcast_ident() -> (m: Mac) {
        Mac::broadcast()
    }
}

/// What a sender constructs when sending: a frame without its source, which the
/// link layer stamps.
#[derive(Clone, Copy, Debug)]
pub struct LinkFrameData<'a> {
    /// Destination node address (or broadcast).
    pub dst: Mac,
    /// EtherType-style protocol identifier for the payload.
    pub protocol: u16,
    /// The frame payload to send.
    pub payload: &'a [u8],
}

/// The scratch frame a routing engine writes an outgoing frame into.
#[derive(Debug)]
pub struct LinkFrameDataMut<'a> {
    /// Destination the engine addresses the reply to.
    pub dst: Mac,
    /// Protocol identifier; left `0` when the engine has nothing to send.
    pub protocol: u16,
    /// Payload buffer the engine writes the outgoing frame into.
    pub payload: &'a mut [u8],
}

impl<'a> LinkFrameDataMut<'a> {
    /// An empty reply over `payload`: nothing to send, to nobody.
    pub fn new(payload: &'a mut [u8]) -> (r: LinkFrameDataMut<'a>)
        ensures
            r.dst.0@ == seq![0u8, 0, 0, 0, 0, 0],
            r.protocol == 0,
            r.payload@ == old(payload)@,
            final(r.payload)@ == final(payload)@,
    {
        LinkFrameDataMut { dst: Mac::default(), protocol: 0, payload }
    }

    /// The frame as it stands, ready to send.
    pub fn as_data(&self) -> (d: LinkFrameData<'_>)
        ensures
            d.dst == self.dst,
            d.protocol == self.protocol,
            d.payload@ == old(self.payload)@,
    {
        LinkFrameData { dst: self.dst, protocol: self.protocol, payload: self.payload }
    }
}

/// Every broadcast address is a group address.
pub proof fn broadcast_is_multicast(m: Mac)
    requires
        m == Mac::all_ones(),
    ensures
        m.group_bit(),
{
}

/// Two IPv4 groups that differ only in the top bit of the second octet, or in
/// the first octet, share one Ethernet address.
pub proof fn groups_alias(a: [u8; 4], b: [u8; 4], x: Mac, y: Mac)
    requires
        a@[1] % 128 == b@[1] % 128,
        a@[2] == b@[2],
        a@[3] == b@[3],
        x.0@ == seq![0x01u8, 0x00, 0x5e, a@[1] % 128, a@[2], a@[3]],
        y.0@ == seq![0x01u8, 0x00, 0x5e, b@[1] % 128, b@[2], b@[3]],
    ensures
        x == y,
{
    same_octets(x, y);
}

/// Where each field of a frame stands in its bytes.
pub proof fn frame_layout(dst: Mac, src: Mac, protocol: u16, payload: Seq<u8>)
    ensures
        ({
            let b = frame_bytes(dst, src, protocol, payload);
            &&& b.len() == 14 + payload.len()
            &&& b.subrange(0, 6) == dst.0@
            &&& b.subrange(6, 12) == src.0@
            &&& b[12] * 0x100 + b[13] == protocol
            &&& b.subrange(14, b.len() as int) == payload
        }),
{
    let b = frame_bytes(dst, src, protocol, payload);
    assert(b.subrange(0, 6) =~= dst.0@);
    assert(b.subrange(6, 12) =~= src.0@);
    assert(b.subrange(14, b.len() as int) =~= payload);
}

/// An address's octets stand in its bytes in order.
pub proof fn address_is_its_octets(s: Seq<u8>, at: int)
    requires
        0 <= at,
        at + 6 <= s.len(),
    ensures
        mac_at(s, at).0@ == s.subrange(at, at + 6),
{
    assert(mac_at(s, at).0@ =~= s.subrange(at, at + 6));
}

/// The text of an address spells its octets in order, two hex digits each, with a
/// colon between.
pub proof fn address_text_spells_octets(octets: Seq<u8>, n: int, i: int)
    requires
        0 <= i < n <= octets.len(),
    ensures
        ({
            let t = mac_text(octets, n);
            &&& t.len() == 3 * n - 1
            &&& 16 * hex_value(t[3 * i]) + hex_value(t[3 * i + 1]) == octets[i]
            &&& 0 <= hex_value(t[3 * i]) < 16
            &&& 0 <= hex_value(t[3 * i + 1]) < 16
            &&& i + 1 < n ==> t[3 * i + 2] == ':'
        }),
    decreases n,
{
    hex_pair_spells(octets[n - 1]);
    if n > 1 {
        let j = if i < n - 1 { i } else { i - 1 };
        address_text_spells_octets(octets, n - 1, j);
        let t = mac_text(octets, n);
        let shorter = mac_text(octets, n - 1);
        assert(shorter.len() == 3 * n - 4);
        assert(t == shorter + seq![':'] + hex_pair(octets[n - 1]));
        if i < n - 1 {
            assert(t[3 * i] == shorter[3 * i] && t[3 * i + 1] == shorter[3 * i + 1]);
            if i + 1 < n - 1 {
                assert(t[3 * i + 2] == shorter[3 * i + 2]);
            }
        }
    }
}

} // verus!
