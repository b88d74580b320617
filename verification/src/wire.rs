//! Ethernet-shaped frame serialization: `[dst][src][ethertype, big endian][payload]`,
//! the layout every carrier of real Ethernet puts on its wire.

use vstd::prelude::*;

use crate::codec::be16;
use crate::codec::be16_at;
use crate::codec::be16_reads_back;
use crate::codec::overlay;
use crate::codec::read_u16_be;
use crate::codec::u16_be;
use crate::codec::write_at;
use crate::frame::frame_bytes;
use crate::frame::LinkFrameData;
use crate::frame::Mac;

verus! {

/// Length of the Ethernet header preceding the payload: `[dst: 6][src: 6][ethertype: 2]`.
pub const ETH_HEADER_LEN: usize = 14;

/// Byte offset of the EtherType field within the Ethernet header.
pub const ETHERTYPE_OFFSET: usize = 12;

/// Serialize `origin` and `data` as an Ethernet-shaped frame into `buf`,
/// returning its length, or `None`, with `buf` untouched, when it would not fit.
/// `ethertype` is written in place of `data.protocol`.
pub fn frame_into_buf(
    origin: Mac,
    ethertype: u16,
    data: &LinkFrameData<'_>,
    buf: &mut [u8],
) -> (n: Option<usize>)
    ensures
        match n {
            Some(end) => {
                &&& end == ETH_HEADER_LEN + data.payload@.len()
                &&& end <= old(buf)@.len()
                &&& final(buf)@ == overlay(
                    old(buf)@,
                    0,
                    frame_bytes(data.dst, origin, ethertype, data.payload@),
                )
            },
            None => {
                &&& ETH_HEADER_LEN + data.payload@.len() > old(buf)@.len()
                &&& final(buf)@ == old(buf)@
            },
        },
{
    let room: usize = buf.len();
    let len: usize = data.payload.len();
    if room < ETH_HEADER_LEN || len > room - ETH_HEADER_LEN {
        return None;
    }
    let end: usize = ETH_HEADER_LEN + len;
    write_at(buf, 0, &data.dst.0);
    write_at(buf, 6, &origin.0);
    write_at(buf, ETHERTYPE_OFFSET, &u16_be(ethertype));
    write_at(buf, ETH_HEADER_LEN, data.payload);
    assert(buf@ =~= overlay(
        old(buf)@,
        0,
        frame_bytes(data.dst, origin, ethertype, data.payload@),
    ));
    Some(end)
}

/// Read the EtherType off a received Ethernet frame, or `None` if `buf` is too
/// short to hold a complete header.
pub fn wire_ethertype(buf: &[u8]) -> (t: Option<u16>)
    ensures
        t == wire_ethertype_of(buf@),
{
    if buf.len() < ETH_HEADER_LEN {
        None
    } else {
        Some(read_u16_be(buf, ETHERTYPE_OFFSET))
    }
}

/// The EtherType of the frame in `buf`, where `buf` holds a whole header.
pub open spec fn wire_ethertype_of(buf: Seq<u8>) -> Option<u16> {
    if buf.len() < ETH_HEADER_LEN {
        None
    } else {
        Some(be16_at(buf, ETHERTYPE_OFFSET as int))
    }
}

/// Rewrite a received frame's EtherType field to `protocol`, in place.
pub fn retag_ethertype(buf: &mut [u8], protocol: u16)
    requires
        old(buf)@.len() >= ETH_HEADER_LEN,
    ensures
        final(buf)@ == overlay(old(buf)@, ETHERTYPE_OFFSET as int, be16(protocol)),
{
    write_at(buf, ETHERTYPE_OFFSET, &u16_be(protocol));
}

/// What was stamped is what is read back.
pub proof fn stamped_label_reads_back(dst: Mac, origin: Mac, ethertype: u16, payload: Seq<u8>)
    ensures
        wire_ethertype_of(frame_bytes(dst, origin, ethertype, payload)) == Some(ethertype),
{
    let x = frame_bytes(dst, origin, ethertype, payload);
    assert(x.subrange(12, 14) =~= be16(ethertype));
    be16_reads_back(ethertype, x, 12);
}

/// Retagging a stamped frame gives the same frame under the new protocol: the
/// addresses and the payload stay as they were.
pub proof fn retag_keeps_the_frame(
    dst: Mac,
    origin: Mac,
    label: u16,
    protocol: u16,
    payload: Seq<u8>,
)
    ensures
        overlay(frame_bytes(dst, origin, label, payload), ETHERTYPE_OFFSET as int, be16(protocol))
            == frame_bytes(dst, origin, protocol, payload),
{
    assert(overlay(
        frame_bytes(dst, origin, label, payload),
        ETHERTYPE_OFFSET as int,
        be16(protocol),
    ) =~= frame_bytes(dst, origin, protocol, payload));
}

} // verus!
