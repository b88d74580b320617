//! Framing for IEEE 802.15.4 mesh interfaces: a [`LinkFrame`] behind a minimal
//! MAC header, always addressed to the broadcast PAN and address.

use vstd::prelude::*;

use crate::codec::le16;
use crate::codec::le16_at;
use crate::codec::le16_reads_back;
use crate::codec::overlay;
use crate::codec::read_u16_le;
use crate::codec::u16_be;
use crate::codec::u16_le;
use crate::codec::write_at;
use crate::frame::frame_bytes;
use crate::frame::LinkFrame;
use crate::frame::LinkFrameData;
use crate::frame::Mac;
use crate::frame::LINK_HEADER_LEN;
use crate::link::LinkError;

verus! {

/// Frame Control Field of every frame sent: a Data frame with a 16-bit short
/// destination address and no source address.
pub const FRAME_CONTROL: u16 = 0x0801;

/// The frame-type bits of a Data frame.
pub const FRAME_TYPE_DATA: u16 = 0b001;

/// The broadcast PAN ID and short address.
pub const BROADCAST_ADDR: u16 = 0xffff;

/// Size in bytes of [`Ieee802154Header`].
pub const HEADER_LEN: usize = 7;

/// Largest frame sent: the largest PHY packet, 127 bytes, without the two bytes
/// of checksum that radio hardware appends.
pub const MAX_FRAME_LEN: usize = 125;

/// Largest payload that fits a frame behind both headers.
pub const MAX_PAYLOAD_LEN: usize = 104;

/// Minimal MAC header of a broadcast data frame.  Numbers are little endian on
/// the wire.
#[derive(Debug, Clone, Copy, PartialEq, Eq, Structural)]
pub struct Ieee802154Header {
    /// Frame type, addressing modes, and other control bits.
    pub frame_control: u16,
    /// MAC sequence number.
    pub seq: u8,
    /// Destination PAN ID.
    pub dest_pan_id: u16,
    /// Destination short address.
    pub dest_addr: u16,
}

impl Ieee802154Header {
    /// The header's bytes in wire order.
    pub open spec fn bytes(self) -> Seq<u8> {
        le16(self.frame_control) + seq![self.seq] + le16(self.dest_pan_id) + le16(self.dest_addr)
    }

    /// The header of a frame sent with sequence number `seq`.
    pub open spec fn broadcast(seq: u8) -> Ieee802154Header {
        Ieee802154Header {
            frame_control: FRAME_CONTROL,
            seq,
            dest_pan_id: BROADCAST_ADDR,
            dest_addr: BROADCAST_ADDR,
        }
    }

    /// The header's bytes in wire order.
    pub fn as_bytes(&self) -> (b: [u8; 7])
        ensures
            b@ == self.bytes(),
    {
        let c: [u8; 2] = u16_le(self.frame_control);
        let p: [u8; 2] = u16_le(self.dest_pan_id);
        let a: [u8; 2] = u16_le(self.dest_addr);
        let b: [u8; 7] = [c[0], c[1], self.seq, p[0], p[1], a[0], a[1]];
        assert(b@ =~= self.bytes());
        b
    }
}

/// The bytes on air of a frame sent from `origin` with sequence number `seq`.
pub open spec fn on_air(
    seq: u8,
    origin: Mac,
    dst: Mac,
    protocol: u16,
    payload: Seq<u8>,
) -> Seq<u8> {
    Ieee802154Header::broadcast(seq).bytes() + frame_bytes(dst, origin, protocol, payload)
}

/// Encode `data`, sent from `origin`, as a broadcast data frame into `buf`,
/// returning its length.  A payload too large for a frame, or a buffer too small
/// for it, is refused with the buffer untouched.
pub fn encode(seq: u8, origin: Mac, data: &LinkFrameData<'_>, buf: &mut [u8]) -> (n: Result<
    usize,
    LinkError,
>)
    ensures
        match n {
            Ok(total) => {
                &&& data.payload@.len() <= MAX_PAYLOAD_LEN
                &&& total == HEADER_LEN + LINK_HEADER_LEN + data.payload@.len()
                &&& total <= old(buf)@.len()
                &&& final(buf)@ == overlay(
                    old(buf)@,
                    0,
                    on_air(seq, origin, data.dst, data.protocol, data.payload@),
                )
            },
            Err(e) => {
                &&& e == LinkError::BufferFull
                &&& data.payload@.len() > MAX_PAYLOAD_LEN || HEADER_LEN + LINK_HEADER_LEN
                    + data.payload@.len() > old(buf)@.len()
                &&& final(buf)@ == old(buf)@
            },
        },
{
    let len: usize = data.payload.len();
    if len > MAX_PAYLOAD_LEN {
        return Err(LinkError::BufferFull);
    }
    let total: usize = HEADER_LEN + LINK_HEADER_LEN + len;
    if buf.len() < total {
        return Err(LinkError::BufferFull);
    }
    let header = Ieee802154Header {
        frame_control: FRAME_CONTROL,
        seq,
        dest_pan_id: BROADCAST_ADDR,
        dest_addr: BROADCAST_ADDR,
    };
    write_at(buf, 0, &header.as_bytes());
    write_at(buf, 7, &data.dst.0);
    write_at(buf, 13, &origin.0);
    write_at(buf, 19, &u16_be(data.protocol));
    write_at(buf, 21, data.payload);
    assert(buf@ =~= overlay(
        old(buf)@,
        0,
        on_air(seq, origin, data.dst, data.protocol, data.payload@),
    ));
    Ok(total)
}

/// Whether received bytes are a mesh data frame: long enough for both headers,
/// with the frame type of a Data frame.
pub open spec fn is_data_frame(buf: Seq<u8>) -> bool {
    buf.len() >= HEADER_LEN + LINK_HEADER_LEN && le16_at(buf, 0) % 8 == FRAME_TYPE_DATA
}

/// Decode received bytes (without the checksum) into the frame they carry.
/// Anything that is not a mesh data frame is refused.
pub fn decode<'a>(buf: &'a [u8]) -> (f: Result<LinkFrame<'a>, LinkError>)
    ensures
        match f {
            Ok(frame) => is_data_frame(buf@) && frame.bytes() == buf@.subrange(
                HEADER_LEN as int,
                buf@.len() as int,
            ),
            Err(e) => e == LinkError::InvalidPacket && !is_data_frame(buf@),
        },
{
    if buf.len() < HEADER_LEN + LINK_HEADER_LEN {
        return Err(LinkError::InvalidPacket);
    }
    let frame_control: u16 = read_u16_le(buf, 0);
    if frame_control % 8 != FRAME_TYPE_DATA {
        return Err(LinkError::InvalidPacket);
    }
    match LinkFrame::ref_from_bytes(&buf[HEADER_LEN..buf.len()]) {
        Some(frame) => Ok(frame),
        None => Err(LinkError::InvalidPacket),
    }
}

/// What is encoded decodes to the same frame: the bytes on air are a mesh data
/// frame, and what follows the header is the frame that was sent.
pub proof fn encoded_decodes(seq: u8, origin: Mac, dst: Mac, protocol: u16, payload: Seq<u8>)
    ensures
        ({
            let air = on_air(seq, origin, dst, protocol, payload);
            &&& is_data_frame(air)
            &&& air.subrange(HEADER_LEN as int, air.len() as int) == frame_bytes(
                dst,
                origin,
                protocol,
                payload,
            )
        }),
{
    let air = on_air(seq, origin, dst, protocol, payload);
    assert(air.subrange(0, 2) =~= le16(FRAME_CONTROL));
    le16_reads_back(FRAME_CONTROL, air, 0);
    assert(air.subrange(7, air.len() as int) =~= frame_bytes(dst, origin, protocol, payload));
}

/// What is sent on air: a data frame without source address, to every node of
/// every network, under the sequence number given; behind that header, the mesh
/// frame.
pub proof fn air_layout(seq: u8, origin: Mac, dst: Mac, protocol: u16, payload: Seq<u8>)
    ensures
        ({
            let air = on_air(seq, origin, dst, protocol, payload);
            &&& air.len() == 21 + payload.len()
            &&& air.subrange(0, 7) == seq![0x01u8, 0x08, seq, 0xff, 0xff, 0xff, 0xff]
            &&& air.subrange(7, 13) == dst.0@
            &&& air.subrange(13, 19) == origin.0@
            &&& air[19] * 0x100 + air[20] == protocol
            &&& air.subrange(21, air.len() as int) == payload
        }),
{
    let air = on_air(seq, origin, dst, protocol, payload);
    assert(air.subrange(0, 7) =~= seq![0x01u8, 0x08, seq, 0xff, 0xff, 0xff, 0xff]);
    assert(air.subrange(7, 13) =~= dst.0@);
    assert(air.subrange(13, 19) =~= origin.0@);
    assert(air.subrange(21, air.len() as int) =~= payload);
}

/// Received bytes are taken for a mesh frame exactly where both headers fit and the
/// low three bits of the first byte say that it is a data frame.
pub proof fn data_frames_are_told_by_type(buf: Seq<u8>)
    ensures
        is_data_frame(buf) == (buf.len() >= 21 && buf[0] % 8 == 1),
{
    if buf.len() >= 21 {
        let n = buf[0] + buf[1] * 256;
        assert(n % 8 == buf[0] % 8);
    }
}

} // verus!
