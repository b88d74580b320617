//! On-wire BATMAN packet formats (OGM, unicast, broadcast, multicast, TVLV) and
//! their protocol constants.

use vstd::prelude::*;

use crate::codec::be16;
use crate::codec::be16_at;
use crate::codec::be16_of_bytes;
use crate::codec::be16_reads_back;
use crate::codec::be32;
use crate::codec::be32_at;
use crate::codec::be32_of_bytes;
use crate::codec::be32_reads_back;
use crate::codec::read_u16_be;
use crate::codec::read_u32_be;
use crate::codec::u16_be;
use crate::codec::u32_be;
use crate::frame::mac_at;
use crate::frame::same_octets;
use crate::frame::Mac;

verus! {

/// EtherType identifying BATMAN frames on the wire.
pub const ETH_P_BATMAN: u16 = 0x4305;

/// `packet_type` for an originator message (OGM), the topology-discovery
/// broadcast.
pub const BATADV_IV_OGM: u8 = 0x01;

/// `packet_type` for a flooded broadcast frame.
pub const BATADV_BCAST: u8 = 0x02;

/// `packet_type` for a unicast data packet routed hop by hop toward a single
/// destination node.
pub const BATADV_UNICAST: u8 = 0x03;

/// `packet_type` for a selectively forwarded multicast frame: one copy per
/// listener, each addressed to that listener's node and routed like a unicast.
pub const BATADV_MCAST: u8 = 0x04;

/// `packet_type` for a certificate fetch request, routed hop by hop toward the
/// originator whose certificate is needed.
pub const BATADV_CERT_REQ: u8 = 0x05;

/// `packet_type` for the reply to a certificate fetch request, routed hop by hop
/// back toward the requester.
pub const BATADV_CERT_REPLY: u8 = 0x06;

/// `packet_type` for a link-local keep-alive heartbeat: single hop, never
/// forwarded.
pub const BATADV_KEEPALIVE: u8 = 0x07;

/// Length in bytes of an OGM's fixed header.
pub const OGM_LEN: usize = 18;

/// Length in bytes of the header in front of each TVLV record.
pub const TVLV_HDR_LEN: usize = 4;

/// Length in bytes of a broadcast header.
pub const BROADCAST_LEN: usize = 13;

/// Length in bytes of a header addressed to one node: unicast, multicast copy,
/// certificate request or certificate reply.
pub const DIRECTED_LEN: usize = 9;

/// Length in bytes of a keep-alive packet.
pub const KEEPALIVE_LEN: usize = 2;

/// Originator Message header.  A variable-length TVLV region of `tvlv_len`
/// bytes follows it on the wire.
#[derive(Debug, Clone, Copy, PartialEq, Eq)]
pub struct BatmanOgmPacket {
    /// Always [`BATADV_IV_OGM`] for this packet type.
    pub packet_type: u8,
    /// Protocol version (typically 5).
    pub version: u8,
    /// Time-to-live, decremented at each hop to bound the flood radius.
    pub ttl: u8,
    /// Reserved flag bits; sent as 0.
    pub flags: u8,
    /// Sequence number (big endian on the wire).
    pub seqno: u32,
    /// The node that originally generated this message.
    pub orig: Mac,
    /// Reserved padding byte; sent as 0.
    pub reserved: u8,
    /// Transmission quality of the path (0..=255).
    pub tq: u8,
    /// Length in bytes of the TVLV region that follows (big endian on the wire).
    pub tvlv_len: u16,
}

impl BatmanOgmPacket {
    /// The header that stands at the front of `bytes`.
    pub open spec fn parsed(bytes: Seq<u8>) -> BatmanOgmPacket {
        BatmanOgmPacket {
            packet_type: bytes[0],
            version: bytes[1],
            ttl: bytes[2],
            flags: bytes[3],
            seqno: be32_at(bytes, 4),
            orig: mac_at(bytes, 8),
            reserved: bytes[14],
            tq: bytes[15],
            tvlv_len: be16_at(bytes, 16),
        }
    }

    /// The header's bytes in wire order.
    pub open spec fn bytes(self) -> Seq<u8> {
        seq![self.packet_type, self.version, self.ttl, self.flags] + be32(self.seqno) + self.orig.0@
            + seq![self.reserved, self.tq] + be16(self.tvlv_len)
    }

    /// The header's bytes in wire order.
    pub fn as_bytes(&self) -> (b: [u8; 18])
        ensures
            b@ == self.bytes(),
    {
        let s: [u8; 4] = u32_be(self.seqno);
        let o: [u8; 6] = self.orig.0;
        let t: [u8; 2] = u16_be(self.tvlv_len);
        let b: [u8; 18] = [
            self.packet_type, self.version, self.ttl, self.flags, s[0], s[1], s[2], s[3], o[0],
            o[1], o[2], o[3], o[4], o[5], self.reserved, self.tq, t[0], t[1],
        ];
        assert(b@ =~= self.bytes());
        b
    }

    /// Read the header off the front of `bytes`, with what follows it; `None`
    /// when `bytes` is shorter than the header.
    pub fn ref_from_prefix<'a>(bytes: &'a [u8]) -> (r: Option<(BatmanOgmPacket, &'a [u8])>)
        ensures
            match r {
                Some((hdr, rest)) => {
                    &&& bytes@.len() >= OGM_LEN
                    &&& hdr == BatmanOgmPacket::parsed(bytes@)
                    &&& hdr.bytes() == bytes@.subrange(0, OGM_LEN as int)
                    &&& rest@ == bytes@.subrange(OGM_LEN as int, bytes@.len() as int)
                },
                None => bytes@.len() < OGM_LEN,
            },
    {
        if bytes.len() < OGM_LEN {
            return None;
        }
        let hdr = BatmanOgmPacket {
            packet_type: bytes[0],
            version: bytes[1],
            ttl: bytes[2],
            flags: bytes[3],
            seqno: read_u32_be(bytes, 4),
            orig: Mac::read(bytes, 8),
            reserved: bytes[14],
            tq: bytes[15],
            tvlv_len: read_u16_be(bytes, 16),
        };
        proof {
            be32_of_bytes(bytes@, 4);
            be16_of_bytes(bytes@, 16);
            assert(hdr.bytes() =~= bytes@.subrange(0, 18));
        }
        Some((hdr, &bytes[OGM_LEN..bytes.len()]))
    }
}

/// An OGM header is determined by its bytes.
pub proof fn ogm_bytes_injective(a: BatmanOgmPacket, b: BatmanOgmPacket)
    requires
        a.bytes() == b.bytes(),
    ensures
        a == b,
{
    let x = a.bytes();
    assert(x[0] == a.packet_type && x[1] == a.version && x[2] == a.ttl && x[3] == a.flags);
    assert(x[0] == b.packet_type && x[1] == b.version && x[2] == b.ttl && x[3] == b.flags);
    assert(x.subrange(4, 8) =~= be32(a.seqno));
    assert(x.subrange(4, 8) =~= be32(b.seqno));
    be32_reads_back(a.seqno, x, 4);
    be32_reads_back(b.seqno, x, 4);
    assert(x.subrange(8, 14) =~= a.orig.0@);
    assert(x.subrange(8, 14) =~= b.orig.0@);
    same_octets(a.orig, b.orig);
    assert(x[14] == a.reserved && x[15] == a.tq);
    assert(x[14] == b.reserved && x[15] == b.tq);
    assert(x.subrange(16, 18) =~= be16(a.tvlv_len));
    assert(x.subrange(16, 18) =~= be16(b.tvlv_len));
    be16_reads_back(a.tvlv_len, x, 16);
    be16_reads_back(b.tvlv_len, x, 16);
}

/// Header in front of one record in an OGM's TVLV (Type-Version-Length-Value)
/// region.  The `len` bytes of value follow immediately; records are packed
/// back to back.
#[derive(Debug, Clone, Copy, PartialEq, Eq)]
pub struct BatmanTvlvHdr {
    /// What the value encodes: a [`TvlvType`] byte for the records produced
    /// here, though the wire may carry others.
    pub tvlv_type: u8,
    /// Version of this TVLV type's value format.
    pub version: u8,
    /// Length of the value following this header, in bytes (big endian on the
    /// wire).
    pub len: u16,
}

impl BatmanTvlvHdr {
    /// The header that stands at the front of `bytes`.
    pub open spec fn parsed(bytes: Seq<u8>) -> BatmanTvlvHdr {
        BatmanTvlvHdr {
            tvlv_type: bytes[0],
            version: bytes[1],
            len: be16_at(bytes, 2),
        }
    }

    /// The header's bytes in wire order.
    pub open spec fn bytes(self) -> Seq<u8> {
        seq![self.tvlv_type, self.version] + be16(self.len)
    }

    /// The header's bytes in wire order.
    pub fn as_bytes(&self) -> (b: [u8; 4])
        ensures
            b@ == self.bytes(),
    {
        let n: [u8; 2] = u16_be(self.len);
        let b: [u8; 4] = [self.tvlv_type, self.version, n[0], n[1]];
        assert(b@ =~= self.bytes());
        b
    }

    /// Read the header off the front of `bytes`, with what follows it; `None`
    /// when `bytes` is shorter than the header.
    pub fn ref_from_prefix<'a>(bytes: &'a [u8]) -> (r: Option<(BatmanTvlvHdr, &'a [u8])>)
        ensures
            match r {
                Some((hdr, rest)) => {
                    &&& bytes@.len() >= TVLV_HDR_LEN
                    &&& hdr == BatmanTvlvHdr::parsed(bytes@)
                    &&& hdr.bytes() == bytes@.subrange(0, TVLV_HDR_LEN as int)
                    &&& rest@ == bytes@.subrange(TVLV_HDR_LEN as int, bytes@.len() as int)
                },
                None => bytes@.len() < TVLV_HDR_LEN,
            },
    {
        if bytes.len() < TVLV_HDR_LEN {
            return None;
        }
        let hdr = BatmanTvlvHdr {
            tvlv_type: bytes[0],
            version: bytes[1],
            len: read_u16_be(bytes, 2),
        };
        proof {
            be16_of_bytes(bytes@, 2);
            assert(hdr.bytes() =~= bytes@.subrange(0, 4));
        }
        Some((hdr, &bytes[TVLV_HDR_LEN..bytes.len()]))
    }
}

/// The TVLV record types produced and matched here, each a distinct byte on the
/// wire.
#[derive(Debug, Clone, Copy, PartialEq, Eq, Structural)]
pub enum TvlvType {
    /// Multicast-membership announcement: the value lists the group addresses
    /// the originating node listens for.
    Mcast,
    /// The originator's membership certificate.
    Cert,
    /// The originator's signature over the OGM's identity fields.
    OgmSig,
    /// A signed revocation record; an OGM may carry several.
    Revoke,
    /// An 8-byte certificate fingerprint, in place of the whole certificate.
    CertFp,
}

impl TvlvType {
    /// The byte of this record type on the wire.
    pub open spec fn byte(self) -> u8 {
        match self {
            TvlvType::Mcast => 0x06,
            TvlvType::Cert => 0x80,
            TvlvType::OgmSig => 0x81,
            TvlvType::Revoke => 0x82,
            TvlvType::CertFp => 0x83,
        }
    }

    /// The byte of this record type on the wire.
    pub fn as_u8(self) -> (b: u8)
        ensures
            b == self.byte(),
    {
        match self {
            TvlvType::Mcast => 0x06,
            TvlvType::Cert => 0x80,
            TvlvType::OgmSig => 0x81,
            TvlvType::Revoke => 0x82,
            TvlvType::CertFp => 0x83,
        }
    }
}

/// No two record types share a byte.
pub proof fn tvlv_bytes_distinct(a: TvlvType, b: TvlvType)
    requires
        a.byte() == b.byte(),
    ensures
        a == b,
{
}

/// The values of every record of type `ty` in `tail`, in wire order, scanning
/// from `off`.  A record whose length runs past the end of `tail` ends the scan.
pub open spec fn tvlv_values(tail: Seq<u8>, ty: u8, off: int) -> Seq<Seq<u8>>
    decreases tail.len() - off,
{
    let end = off + TVLV_HDR_LEN + be16_at(tail, off + 2);
    if off < 0 || off + TVLV_HDR_LEN > tail.len() || end > tail.len() {
        Seq::empty()
    } else if tail[off] == ty {
        seq![tail.subrange(off + TVLV_HDR_LEN, end)] + tvlv_values(tail, ty, end)
    } else {
        tvlv_values(tail, ty, end)
    }
}

/// The first record of type `tvlv_type` in a TVLV region, or `None` if the scan
/// ends without one.
pub fn find_tvlv<'a>(tail: &'a [u8], tvlv_type: TvlvType) -> (value: Option<&'a [u8]>)
    ensures
        match value {
            Some(v) => {
                let all = tvlv_values(tail@, tvlv_type.byte(), 0);
                all.len() > 0 && v@ == all[0]
            },
            None => tvlv_values(tail@, tvlv_type.byte(), 0).len() == 0,
        },
{
    let mut values = iter_tvlv(tail, tvlv_type);
    values.next()
}

/// Every record of type `tvlv_type` in a TVLV region, in wire order.
pub fn iter_tvlv<'a>(tail: &'a [u8], tvlv_type: TvlvType) -> (values: TvlvValues<'a>)
    ensures
        values.rest() == tvlv_values(tail@, tvlv_type.byte(), 0),
{
    TvlvValues { tail, off: 0, tvlv_type: tvlv_type.as_u8() }
}

/// A scan over the matching records of a TVLV region.
#[derive(Debug, Clone, Copy)]
pub struct TvlvValues<'a> {
    /// The TVLV region being scanned.
    tail: &'a [u8],
    /// Offset of the next record header to inspect.
    off: usize,
    /// The wire byte of the record type to yield.
    tvlv_type: u8,
}

impl<'a> TvlvValues<'a> {
    /// The values still to come.
    pub closed spec fn rest(self) -> Seq<Seq<u8>> {
        tvlv_values(self.tail@, self.tvlv_type, self.off as int)
    }

    /// The next matching value, or `None` at the end of the scan.
    pub fn next(&mut self) -> (value: Option<&'a [u8]>)
        ensures
            match value {
                Some(v) => {
                    &&& old(self).rest().len() > 0
                    &&& v@ == old(self).rest()[0]
                    &&& final(self).rest() == old(self).rest().drop_first()
                },
                None => {
                    &&& old(self).rest().len() == 0
                    &&& final(self).rest().len() == 0
                },
            },
    {
        let len: usize = self.tail.len();
        while self.off <= len && TVLV_HDR_LEN <= len - self.off
            invariant
                len == self.tail@.len(),
                self.rest() == old(self).rest(),
                self.tail@ == old(self).tail@,
            decreases len - self.off,
        {
            let ghost before = *self;
            let value_len: usize = read_u16_be(self.tail, self.off + 2) as usize;
            let value_start: usize = self.off + TVLV_HDR_LEN;
            if value_len > len - value_start {
                return None;
            }
            let value_end: usize = value_start + value_len;
            let matched: bool = self.tail[self.off] == self.tvlv_type;
            self.off = value_end;
            if matched {
                assert(before.rest() == seq![
                    self.tail@.subrange(value_start as int, value_end as int),
                ] + self.rest());
                assert(before.rest().drop_first() =~= self.rest());
                return Some(&self.tail[value_start..value_end]);
            }
        }
        None
    }

    /// How many matching values are still to come.
    pub fn count(self) -> (n: usize)
        ensures
            n == self.rest().len(),
    {
        self.collect().len()
    }

    /// The matching values still to come, in wire order.
    pub fn collect(self) -> (values: Vec<&'a [u8]>)
        ensures
            values@.len() == self.rest().len(),
            forall|i: int| 0 <= i < values@.len() ==> (#[trigger] values@[i])@ == self.rest()[i],
    {
        let mut scan = self;
        let mut values: Vec<&'a [u8]> = Vec::new();
        loop
            invariant
                self.rest().len() == values@.len() + scan.rest().len(),
                scan.rest() =~= self.rest().skip(values@.len() as int),
                forall|i: int|
                    0 <= i < values@.len() ==> (#[trigger] values@[i])@ == self.rest()[i],
            ensures
                scan.rest().len() == 0,
            decreases scan.rest().len(),
        {
            match scan.next() {
                Some(v) => {
                    values.push(v);
                },
                None => {
                    break;
                },
            }
        }
        values
    }
}

/// One TVLV record.
pub struct TvlvRecord {
    pub tvlv_type: u8,
    pub version: u8,
    pub value: Seq<u8>,
}

/// The bytes of a TVLV record: header, then value.
pub open spec fn tvlv_record(r: TvlvRecord) -> Seq<u8> {
    seq![r.tvlv_type, r.version] + be16(r.value.len() as u16) + r.value
}

/// Records packed back to back.
pub open spec fn tvlv_region(records: Seq<TvlvRecord>) -> Seq<u8>
    decreases records.len(),
{
    if records.len() == 0 {
        Seq::empty()
    } else {
        tvlv_record(records[0]) + tvlv_region(records.drop_first())
    }
}

/// The values of the records of type `ty`, in order.
pub open spec fn values_of_type(records: Seq<TvlvRecord>, ty: u8) -> Seq<Seq<u8>>
    decreases records.len(),
{
    if records.len() == 0 {
        Seq::empty()
    } else if records[0].tvlv_type == ty {
        seq![records[0].value] + values_of_type(records.drop_first(), ty)
    } else {
        values_of_type(records.drop_first(), ty)
    }
}

/// Scanning a region gives back, for each type, exactly the values of the
/// records of that type that were packed into it, in order.
pub proof fn scan_reads_back_records(records: Seq<TvlvRecord>, ty: u8)
    requires
        forall|i: int| 0 <= i < records.len() ==> (#[trigger] records[i]).value.len() <= 0xffff,
    ensures
        tvlv_values(tvlv_region(records), ty, 0) == values_of_type(records, ty),
{
    scan_reads_back_after(Seq::empty(), records, ty);
    assert(Seq::<u8>::empty() + tvlv_region(records) =~= tvlv_region(records));
}

/// As [`scan_reads_back_records`], with the scan starting after a prefix.
proof fn scan_reads_back_after(prefix: Seq<u8>, records: Seq<TvlvRecord>, ty: u8)
    requires
        forall|i: int| 0 <= i < records.len() ==> (#[trigger] records[i]).value.len() <= 0xffff,
    ensures
        tvlv_values(prefix + tvlv_region(records), ty, prefix.len() as int) == values_of_type(
            records,
            ty,
        ),
    decreases records.len(),
{
    let whole = prefix + tvlv_region(records);
    let off = prefix.len() as int;
    if records.len() == 0 {
        assert(whole =~= prefix);
    } else {
        let value = records[0].value;
        let first = tvlv_record(records[0]);
        let rest = records.drop_first();
        let longer = prefix + first;
        assert(whole =~= longer + tvlv_region(rest));
        assert(whole.subrange(off + 2, off + 4) =~= be16(value.len() as u16));
        be16_reads_back(value.len() as u16, whole, off + 2);
        assert(whole[off] == records[0].tvlv_type);
        let end = off + 4 + value.len();
        assert(end == longer.len());
        assert(whole.subrange(off + 4, end) =~= value);
        assert forall|i: int| 0 <= i < rest.len() implies (#[trigger] rest[i]).value.len()
            <= 0xffff by {
            assert(rest[i] == records[i + 1]);
        }
        scan_reads_back_after(longer, rest, ty);
    }
}

/// Header for a broadcast frame flooded across the mesh; the frame being
/// broadcast follows it on the wire.
#[derive(Debug, Clone, Copy, PartialEq, Eq)]
pub struct BatmanBroadcastPacket {
    /// Always [`BATADV_BCAST`] for this packet type.
    pub packet_type: u8,
    /// Protocol version (typically 5).
    pub version: u8,
    /// Time-to-live, decremented at each hop to bound the flood radius.
    pub ttl: u8,
    /// Per-originator sequence number (big endian on the wire).
    pub seqno: u32,
    /// The node that originally generated this broadcast, kept as the frame is
    /// re-flooded.
    pub orig: Mac,
}

impl BatmanBroadcastPacket {
    /// The header that stands at the front of `bytes`.
    pub open spec fn parsed(bytes: Seq<u8>) -> BatmanBroadcastPacket {
        BatmanBroadcastPacket {
            packet_type: bytes[0],
            version: bytes[1],
            ttl: bytes[2],
            seqno: be32_at(bytes, 3),
            orig: mac_at(bytes, 7),
        }
    }

    /// The header's bytes in wire order.
    pub open spec fn bytes(self) -> Seq<u8> {
        seq![self.packet_type, self.version, self.ttl] + be32(self.seqno) + self.orig.0@
    }

    /// The header's bytes in wire order.
    pub fn as_bytes(&self) -> (b: [u8; 13])
        ensures
            b@ == self.bytes(),
    {
        let s: [u8; 4] = u32_be(self.seqno);
        let o: [u8; 6] = self.orig.0;
        let b: [u8; 13] = [
            self.packet_type, self.version, self.ttl, s[0], s[1], s[2], s[3], o[0], o[1], o[2],
            o[3], o[4], o[5],
        ];
        assert(b@ =~= self.bytes());
        b
    }

    /// Read the header off the front of `bytes`, with what follows it; `None`
    /// when `bytes` is shorter than the header.
    pub fn ref_from_prefix<'a>(bytes: &'a [u8]) -> (r: Option<(BatmanBroadcastPacket, &'a [u8])>)
        ensures
            match r {
                Some((hdr, rest)) => {
                    &&& bytes@.len() >= BROADCAST_LEN
                    &&& hdr == BatmanBroadcastPacket::parsed(bytes@)
                    &&& hdr.bytes() == bytes@.subrange(0, BROADCAST_LEN as int)
                    &&& rest@ == bytes@.subrange(BROADCAST_LEN as int, bytes@.len() as int)
                },
                None => bytes@.len() < BROADCAST_LEN,
            },
    {
        if bytes.len() < BROADCAST_LEN {
            return None;
        }
        let hdr = BatmanBroadcastPacket {
            packet_type: bytes[0],
            version: bytes[1],
            ttl: bytes[2],
            seqno: read_u32_be(bytes, 3),
            orig: Mac::read(bytes, 7),
        };
        proof {
            be32_of_bytes(bytes@, 3);
            assert(hdr.bytes() =~= bytes@.subrange(0, 13));
        }
        Some((hdr, &bytes[BROADCAST_LEN..bytes.len()]))
    }
}

/// A broadcast header is determined by its bytes.
pub proof fn broadcast_bytes_injective(a: BatmanBroadcastPacket, b: BatmanBroadcastPacket)
    requires
        a.bytes() == b.bytes(),
    ensures
        a == b,
{
    let x = a.bytes();
    assert(x[0] == a.packet_type && x[1] == a.version && x[2] == a.ttl);
    assert(x[0] == b.packet_type && x[1] == b.version && x[2] == b.ttl);
    assert(x.subrange(3, 7) =~= be32(a.seqno));
    assert(x.subrange(3, 7) =~= be32(b.seqno));
    be32_reads_back(a.seqno, x, 3);
    be32_reads_back(b.seqno, x, 3);
    assert(x.subrange(7, 13) =~= a.orig.0@);
    assert(x.subrange(7, 13) =~= b.orig.0@);
    same_octets(a.orig, b.orig);
}

/// The bytes of a header addressed to one node.
pub open spec fn directed_bytes(packet_type: u8, version: u8, ttl: u8, dest: Mac) -> Seq<u8> {
    seq![packet_type, version, ttl] + dest.0@
}

/// A header addressed to one node is determined by its bytes.
pub proof fn directed_bytes_injective(
    p1: u8,
    v1: u8,
    t1: u8,
    d1: Mac,
    p2: u8,
    v2: u8,
    t2: u8,
    d2: Mac,
)
    requires
        directed_bytes(p1, v1, t1, d1) == directed_bytes(p2, v2, t2, d2),
    ensures
        p1 == p2,
        v1 == v2,
        t1 == t2,
        d1 == d2,
{
    let x = directed_bytes(p1, v1, t1, d1);
    assert(x[0] == p1 && x[1] == v1 && x[2] == t1);
    assert(x[0] == p2 && x[1] == v2 && x[2] == t2);
    assert(x.subrange(3, 9) =~= d1.0@);
    assert(x.subrange(3, 9) =~= d2.0@);
    same_octets(d1, d2);
}

/// Header for a [`BATADV_MCAST`] copy, routed hop by hop toward `dest` and
/// delivered there.
#[derive(Debug, Clone, Copy)]
pub struct BatmanMcastPacket {
    /// Always [`BATADV_MCAST`].
    pub packet_type: u8,
    /// Protocol version.
    pub version: u8,
    /// Time-to-live, decremented per hop to bound routing loops.
    pub ttl: u8,
    /// The listener node this copy is addressed to.
    pub dest: Mac,
}

impl BatmanMcastPacket {
    /// The header that stands at the front of `bytes`.
    pub open spec fn parsed(bytes: Seq<u8>) -> BatmanMcastPacket {
        BatmanMcastPacket {
            packet_type: bytes[0],
            version: bytes[1],
            ttl: bytes[2],
            dest: mac_at(bytes, 3),
        }
    }

    /// The header's bytes in wire order.
    pub open spec fn bytes(self) -> Seq<u8> {
        directed_bytes(self.packet_type, self.version, self.ttl, self.dest)
    }

    /// The header's bytes in wire order.
    pub fn as_bytes(&self) -> (b: [u8; 9])
        ensures
            b@ == self.bytes(),
    {
        let d: [u8; 6] = self.dest.0;
        let b: [u8; 9] = [
            self.packet_type, self.version, self.ttl, d[0], d[1], d[2], d[3], d[4], d[5],
        ];
        assert(b@ =~= self.bytes());
        b
    }

    /// Read the header off the front of `bytes`, with what follows it; `None`
    /// when `bytes` is shorter than the header.
    pub fn ref_from_prefix<'a>(bytes: &'a [u8]) -> (r: Option<(BatmanMcastPacket, &'a [u8])>)
        ensures
            match r {
                Some((hdr, rest)) => {
                    &&& bytes@.len() >= DIRECTED_LEN
                    &&& hdr == BatmanMcastPacket::parsed(bytes@)
                    &&& hdr.bytes() == bytes@.subrange(0, DIRECTED_LEN as int)
                    &&& rest@ == bytes@.subrange(DIRECTED_LEN as int, bytes@.len() as int)
                },
                None => bytes@.len() < DIRECTED_LEN,
            },
    {
        if bytes.len() < DIRECTED_LEN {
            return None;
        }
        let hdr = BatmanMcastPacket {
            packet_type: bytes[0],
            version: bytes[1],
            ttl: bytes[2],
            dest: Mac::read(bytes, 3),
        };
        assert(hdr.bytes() =~= bytes@.subrange(0, 9));
        Some((hdr, &bytes[DIRECTED_LEN..bytes.len()]))
    }
}

/// Header for a [`BATADV_UNICAST`] data packet, routed hop by hop toward `dest`
/// and delivered there.
#[derive(Debug, Clone, Copy)]
pub struct BatmanUnicastPacket {
    /// Always [`BATADV_UNICAST`].
    pub packet_type: u8,
    /// Protocol version.
    pub version: u8,
    /// Time-to-live, decremented per hop to bound routing loops.
    pub ttl: u8,
    /// The final destination node address in the mesh.
    pub dest: Mac,
}

impl BatmanUnicastPacket {
    /// The header that stands at the front of `bytes`.
    pub open spec fn parsed(bytes: Seq<u8>) -> BatmanUnicastPacket {
        BatmanUnicastPacket {
            packet_type: bytes[0],
            version: bytes[1],
            ttl: bytes[2],
            dest: mac_at(bytes, 3),
        }
    }

    /// The header's bytes in wire order.
    pub open spec fn bytes(self) -> Seq<u8> {
        directed_bytes(self.packet_type, self.version, self.ttl, self.dest)
    }

    /// The header's bytes in wire order.
    pub fn as_bytes(&self) -> (b: [u8; 9])
        ensures
            b@ == self.bytes(),
    {
        let d: [u8; 6] = self.dest.0;
        let b: [u8; 9] = [
            self.packet_type, self.version, self.ttl, d[0], d[1], d[2], d[3], d[4], d[5],
        ];
        assert(b@ =~= self.bytes());
        b
    }

    /// Read the header off the front of `bytes`, with what follows it; `None`
    /// when `bytes` is shorter than the header.
    pub fn ref_from_prefix<'a>(bytes: &'a [u8]) -> (r: Option<(BatmanUnicastPacket, &'a [u8])>)
        ensures
            match r {
                Some((hdr, rest)) => {
                    &&& bytes@.len() >= DIRECTED_LEN
                    &&& hdr == BatmanUnicastPacket::parsed(bytes@)
                    &&& hdr.bytes() == bytes@.subrange(0, DIRECTED_LEN as int)
                    &&& rest@ == bytes@.subrange(DIRECTED_LEN as int, bytes@.len() as int)
                },
                None => bytes@.len() < DIRECTED_LEN,
            },
    {
        if bytes.len() < DIRECTED_LEN {
            return None;
        }
        let hdr = BatmanUnicastPacket {
            packet_type: bytes[0],
            version: bytes[1],
            ttl: bytes[2],
            dest: Mac::read(bytes, 3),
        };
        assert(hdr.bytes() =~= bytes@.subrange(0, 9));
        Some((hdr, &bytes[DIRECTED_LEN..bytes.len()]))
    }
}

/// Header for a [`BATADV_CERT_REQ`] packet, routed hop by hop toward the
/// originator whose certificate is requested.
#[derive(Debug, Clone, Copy)]
pub struct BatmanCertReqPacket {
    /// Always [`BATADV_CERT_REQ`].
    pub packet_type: u8,
    /// Protocol version.
    pub version: u8,
    /// Time-to-live, decremented per hop to bound routing loops.
    pub ttl: u8,
    /// The originator node whose certificate is being requested.
    pub dest: Mac,
}

impl BatmanCertReqPacket {
    /// The header that stands at the front of `bytes`.
    pub open spec fn parsed(bytes: Seq<u8>) -> BatmanCertReqPacket {
        BatmanCertReqPacket {
            packet_type: bytes[0],
            version: bytes[1],
            ttl: bytes[2],
            dest: mac_at(bytes, 3),
        }
    }

    /// The header's bytes in wire order.
    pub open spec fn bytes(self) -> Seq<u8> {
        directed_bytes(self.packet_type, self.version, self.ttl, self.dest)
    }

    /// The header's bytes in wire order.
    pub fn as_bytes(&self) -> (b: [u8; 9])
        ensures
            b@ == self.bytes(),
    {
        let d: [u8; 6] = self.dest.0;
        let b: [u8; 9] = [
            self.packet_type, self.version, self.ttl, d[0], d[1], d[2], d[3], d[4], d[5],
        ];
        assert(b@ =~= self.bytes());
        b
    }

    /// Read the header off the front of `bytes`, with what follows it; `None`
    /// when `bytes` is shorter than the header.
    pub fn ref_from_prefix<'a>(bytes: &'a [u8]) -> (r: Option<(BatmanCertReqPacket, &'a [u8])>)
        ensures
            match r {
                Some((hdr, rest)) => {
                    &&& bytes@.len() >= DIRECTED_LEN
                    &&& hdr == BatmanCertReqPacket::parsed(bytes@)
                    &&& hdr.bytes() == bytes@.subrange(0, DIRECTED_LEN as int)
                    &&& rest@ == bytes@.subrange(DIRECTED_LEN as int, bytes@.len() as int)
                },
                None => bytes@.len() < DIRECTED_LEN,
            },
    {
        if bytes.len() < DIRECTED_LEN {
            return None;
        }
        let hdr = BatmanCertReqPacket {
            packet_type: bytes[0],
            version: bytes[1],
            ttl: bytes[2],
            dest: Mac::read(bytes, 3),
        };
        assert(hdr.bytes() =~= bytes@.subrange(0, 9));
        Some((hdr, &bytes[DIRECTED_LEN..bytes.len()]))
    }
}

/// Header for a [`BATADV_CERT_REPLY`] packet, routed hop by hop back toward the
/// requester.
#[derive(Debug, Clone, Copy)]
pub struct BatmanCertReplyPacket {
    /// Always [`BATADV_CERT_REPLY`].
    pub packet_type: u8,
    /// Protocol version.
    pub version: u8,
    /// Time-to-live, decremented per hop to bound routing loops.
    pub ttl: u8,
    /// The requester node this reply is addressed back to.
    pub dest: Mac,
}

impl BatmanCertReplyPacket {
    /// The header that stands at the front of `bytes`.
    pub open spec fn parsed(bytes: Seq<u8>) -> BatmanCertReplyPacket {
        BatmanCertReplyPacket {
            packet_type: bytes[0],
            version: bytes[1],
            ttl: bytes[2],
            dest: mac_at(bytes, 3),
        }
    }

    /// The header's bytes in wire order.
    pub open spec fn bytes(self) -> Seq<u8> {
        directed_bytes(self.packet_type, self.version, self.ttl, self.dest)
    }

    /// The header's bytes in wire order.
    pub fn as_bytes(&self) -> (b: [u8; 9])
        ensures
            b@ == self.bytes(),
    {
        let d: [u8; 6] = self.dest.0;
        let b: [u8; 9] = [
            self.packet_type, self.version, self.ttl, d[0], d[1], d[2], d[3], d[4], d[5],
        ];
        assert(b@ =~= self.bytes());
        b
    }

    /// Read the header off the front of `bytes`, with what follows it; `None`
    /// when `bytes` is shorter than the header.
    pub fn ref_from_prefix<'a>(bytes: &'a [u8]) -> (r: Option<(BatmanCertReplyPacket, &'a [u8])>)
        ensures
            match r {
                Some((hdr, rest)) => {
                    &&& bytes@.len() >= DIRECTED_LEN
                    &&& hdr == BatmanCertReplyPacket::parsed(bytes@)
                    &&& hdr.bytes() == bytes@.subrange(0, DIRECTED_LEN as int)
                    &&& rest@ == bytes@.subrange(DIRECTED_LEN as int, bytes@.len() as int)
                },
                None => bytes@.len() < DIRECTED_LEN,
            },
    {
        if bytes.len() < DIRECTED_LEN {
            return None;
        }
        let hdr = BatmanCertReplyPacket {
            packet_type: bytes[0],
            version: bytes[1],
            ttl: bytes[2],
            dest: Mac::read(bytes, 3),
        };
        assert(hdr.bytes() =~= bytes@.subrange(0, 9));
        Some((hdr, &bytes[DIRECTED_LEN..bytes.len()]))
    }
}

/// A [`BATADV_KEEPALIVE`] heartbeat: it proves that a link is alive and carries
/// nothing else.
#[derive(Debug, Clone, Copy, PartialEq, Eq, Structural)]
pub struct BatmanKeepAlivePacket {
    /// Always [`BATADV_KEEPALIVE`].
    pub packet_type: u8,
    /// Protocol version (typically 5).
    pub version: u8,
}

impl BatmanKeepAlivePacket {
    /// The header that stands at the front of `bytes`.
    pub open spec fn parsed(bytes: Seq<u8>) -> BatmanKeepAlivePacket {
        BatmanKeepAlivePacket {
            packet_type: bytes[0],
            version: bytes[1],
        }
    }

    /// The packet's bytes in wire order.
    pub open spec fn bytes(self) -> Seq<u8> {
        seq![self.packet_type, self.version]
    }

    /// The packet's bytes in wire order.
    pub fn as_bytes(&self) -> (b: [u8; 2])
        ensures
            b@ == self.bytes(),
    {
        let b: [u8; 2] = [self.packet_type, self.version];
        assert(b@ =~= self.bytes());
        b
    }

    /// Read the packet off the front of `bytes`, with what follows it; `None`
    /// when `bytes` is shorter than the packet.
    pub fn ref_from_prefix<'a>(bytes: &'a [u8]) -> (r: Option<(BatmanKeepAlivePacket, &'a [u8])>)
        ensures
            match r {
                Some((pkt, rest)) => {
                    &&& bytes@.len() >= KEEPALIVE_LEN
                    &&& pkt == BatmanKeepAlivePacket::parsed(bytes@)
                    &&& pkt.bytes() == bytes@.subrange(0, KEEPALIVE_LEN as int)
                    &&& rest@ == bytes@.subrange(KEEPALIVE_LEN as int, bytes@.len() as int)
                },
                None => bytes@.len() < KEEPALIVE_LEN,
            },
    {
        if bytes.len() < KEEPALIVE_LEN {
            return None;
        }
        let pkt = BatmanKeepAlivePacket { packet_type: bytes[0], version: bytes[1] };
        assert(pkt.bytes() =~= bytes@.subrange(0, 2));
        Some((pkt, &bytes[KEEPALIVE_LEN..bytes.len()]))
    }
}

/// Where each field of an OGM header stands in its bytes, and that reading gives
/// back what was written.
pub proof fn ogm_layout(h: BatmanOgmPacket, rest: Seq<u8>)
    ensures
        ({
            let b = h.bytes() + rest;
            &&& h.bytes().len() == 18
            &&& b[0] == h.packet_type
            &&& b[1] == h.version
            &&& b[2] == h.ttl
            &&& b[3] == h.flags
            &&& b[4] * 0x100_0000 + b[5] * 0x1_0000 + b[6] * 0x100 + b[7] == h.seqno
            &&& b.subrange(8, 14) == h.orig.0@
            &&& b[14] == h.reserved
            &&& b[15] == h.tq
            &&& b[16] * 0x100 + b[17] == h.tvlv_len
            &&& BatmanOgmPacket::parsed(b) == h
        }),
{
    let b = h.bytes() + rest;
    assert(b.subrange(4, 8) =~= be32(h.seqno));
    be32_reads_back(h.seqno, b, 4);
    assert(b.subrange(8, 14) =~= h.orig.0@);
    assert(mac_at(b, 8).0@ =~= h.orig.0@);
    same_octets(mac_at(b, 8), h.orig);
    assert(b.subrange(16, 18) =~= be16(h.tvlv_len));
    be16_reads_back(h.tvlv_len, b, 16);
}

/// Where each field of a broadcast header stands in its bytes, and that reading
/// gives back what was written.
pub proof fn broadcast_layout(h: BatmanBroadcastPacket, rest: Seq<u8>)
    ensures
        ({
            let b = h.bytes() + rest;
            &&& h.bytes().len() == 13
            &&& b[0] == h.packet_type
            &&& b[1] == h.version
            &&& b[2] == h.ttl
            &&& b[3] * 0x100_0000 + b[4] * 0x1_0000 + b[5] * 0x100 + b[6] == h.seqno
            &&& b.subrange(7, 13) == h.orig.0@
            &&& BatmanBroadcastPacket::parsed(b) == h
        }),
{
    let b = h.bytes() + rest;
    assert(b.subrange(3, 7) =~= be32(h.seqno));
    be32_reads_back(h.seqno, b, 3);
    assert(b.subrange(7, 13) =~= h.orig.0@);
    assert(mac_at(b, 7).0@ =~= h.orig.0@);
    same_octets(mac_at(b, 7), h.orig);
}

/// Where each field of a header addressed to one node stands in its bytes, and
/// that reading gives back what was written.
pub proof fn directed_layout(packet_type: u8, version: u8, ttl: u8, dest: Mac, rest: Seq<u8>)
    ensures
        ({
            let b = directed_bytes(packet_type, version, ttl, dest) + rest;
            &&& directed_bytes(packet_type, version, ttl, dest).len() == 9
            &&& b[0] == packet_type
            &&& b[1] == version
            &&& b[2] == ttl
            &&& b.subrange(3, 9) == dest.0@
            &&& BatmanUnicastPacket::parsed(b) == (BatmanUnicastPacket {
                packet_type,
                version,
                ttl,
                dest,
            })
            &&& BatmanMcastPacket::parsed(b) == (BatmanMcastPacket {
                packet_type,
                version,
                ttl,
                dest,
            })
        }),
{
    let b = directed_bytes(packet_type, version, ttl, dest) + rest;
    assert(b.subrange(3, 9) =~= dest.0@);
    assert(mac_at(b, 3).0@ =~= dest.0@);
    same_octets(mac_at(b, 3), dest);
}

/// The bytes of the record types: the one batman-adv has for multicast, and four
/// above its own.
pub proof fn tvlv_types_have_their_bytes(t: TvlvType)
    ensures
        (t.byte() == 6) == (t is Mcast),
        (t.byte() == 128) == (t is Cert),
        (t.byte() == 129) == (t is OgmSig),
        (t.byte() == 130) == (t is Revoke),
        (t.byte() == 131) == (t is CertFp),
        t.byte() == 6 || 128 <= t.byte() <= 131,
{
}

/// A record that is cut off ends the scan, and those in front of it are read all
/// the same.
pub proof fn cut_off_record_ends_the_scan(records: Seq<TvlvRecord>, cut: Seq<u8>, ty: u8)
    requires
        forall|i: int| 0 <= i < records.len() ==> (#[trigger] records[i]).value.len() <= 0xffff,
        cut.len() < 4 || 4 + be16_at(cut, 2) > cut.len(),
    ensures
        tvlv_values(tvlv_region(records) + cut, ty, 0) == values_of_type(records, ty),
{
    scan_stops_after(Seq::empty(), records, cut, ty);
    assert(Seq::<u8>::empty() + tvlv_region(records) + cut =~= tvlv_region(records) + cut);
}

/// As [`cut_off_record_ends_the_scan`], with the scan starting after a prefix.
proof fn scan_stops_after(prefix: Seq<u8>, records: Seq<TvlvRecord>, cut: Seq<u8>, ty: u8)
    requires
        forall|i: int| 0 <= i < records.len() ==> (#[trigger] records[i]).value.len() <= 0xffff,
        cut.len() < 4 || 4 + be16_at(cut, 2) > cut.len(),
    ensures
        tvlv_values(prefix + tvlv_region(records) + cut, ty, prefix.len() as int)
            == values_of_type(records, ty),
    decreases records.len(),
{
    let whole = prefix + tvlv_region(records) + cut;
    let off = prefix.len() as int;
    if records.len() == 0 {
        assert(whole =~= prefix + cut);
        if cut.len() >= 4 {
            assert(whole[off + 2] == cut[2] && whole[off + 3] == cut[3]);
        }
    } else {
        let value = records[0].value;
        let first = tvlv_record(records[0]);
        let rest = records.drop_first();
        let longer = prefix + first;
        assert(whole =~= longer + tvlv_region(rest) + cut);
        assert(whole.subrange(off + 2, off + 4) =~= be16(value.len() as u16));
        be16_reads_back(value.len() as u16, whole, off + 2);
        assert(whole[off] == records[0].tvlv_type);
        let end = off + 4 + value.len();
        assert(end == longer.len());
        assert(whole.subrange(off + 4, end) =~= value);
        assert forall|i: int| 0 <= i < rest.len() implies (#[trigger] rest[i]).value.len()
            <= 0xffff by {
            assert(rest[i] == records[i + 1]);
        }
        scan_stops_after(longer, rest, cut, ty);
    }
}

} // verus!
