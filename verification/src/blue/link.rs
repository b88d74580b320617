//! Mesh frames over advertisements: one link's message numbers, its fragments on
//! the way out, and its reassembly on the way in.

use vstd::prelude::*;

use crate::blue::ad::ad_structure;
use crate::blue::addr::addr_key;
use crate::blue::frame::assemble_frame;
use crate::blue::frame::build_fragment;
use crate::blue::frame::build_fragment_ad;
use crate::blue::frame::fragment_bytes;
use crate::blue::frame::fragment_count;
use crate::blue::frame::RawReport;
use crate::blue::frame::FRAG_PAYLOAD;
use crate::blue::frame::HEADER_LEN;
use crate::blue::frame::MAX_REASSEMBLED_LEN;
use crate::blue::frame::MAX_REASSEMBLIES;
use crate::codec::overlay;
use crate::frag::piece_count;
use crate::frag::FragHeader;
use crate::frag::MAX_FRAGMENTS;
use crate::frame::frame_bytes;
use crate::frame::LinkFrame;
use crate::frame::LinkFrameData;
use crate::frame::Mac;
use crate::link::LinkError;
use crate::link::LinkMetrics;
use crate::reassembly::all_here;
use crate::reassembly::any_order_gives_the_frame;
use crate::reassembly::arrived;
use crate::reassembly::pieces_of;
use crate::reassembly::seated;
use crate::reassembly::FragKey;
use crate::reassembly::InFlight;
use crate::reassembly::Reassembler;

verus! {

/// One link's state between frames.
pub struct BleFrames {
    msg_id_ctr: u8,
    reassembler: Reassembler<4, 25, 350>,
    rx_frame: [u8; 350],
}

/// The message number after `id`.
pub open spec fn next_id(id: u8) -> u8 {
    if id == 255 {
        0
    } else {
        (id + 1) as u8
    }
}

impl BleFrames {
    /// The number of the next message sent.
    pub closed spec fn msg_id(&self) -> u8 {
        self.msg_id_ctr
    }

    /// The messages being reassembled.
    pub closed spec fn in_flight(&self) -> Seq<InFlight> {
        self.reassembler@
    }

    /// The frame last reassembled stands at the front of this buffer.
    pub closed spec fn frame_buffer(&self) -> Seq<u8> {
        self.rx_frame@
    }

    /// The reassembly table is sound.
    pub closed spec fn wf(&self) -> bool {
        self.reassembler.wf()
    }

    /// A link that has sent and heard nothing.
    pub fn new() -> (l: BleFrames)
        ensures
            l.wf(),
            l.msg_id() == 0,
            l.in_flight() == Seq::<InFlight>::empty(),
            l.frame_buffer() == Seq::new(MAX_REASSEMBLED_LEN as nat, |i: int| 0u8),
    {
        let rx_frame: [u8; 350] = [0u8; 350];
        assert(rx_frame@ =~= Seq::new(MAX_REASSEMBLED_LEN as nat, |i: int| 0u8));
        BleFrames { msg_id_ctr: 0, reassembler: Reassembler::new(), rx_frame }
    }

    /// The number for the next message, counting up and wrapping at 256.
    fn next_msg_id(&mut self) -> (id: u8)
        requires
            old(self).wf(),
        ensures
            final(self).wf(),
            id == old(self).msg_id(),
            final(self).msg_id() == next_id(id),
            final(self).in_flight() == old(self).in_flight(),
            final(self).frame_buffer() == old(self).frame_buffer(),
    {
        let id: u8 = self.msg_id_ctr;
        self.msg_id_ctr = if id == 255 { 0 } else { id + 1 };
        id
    }

    /// The fragments of a frame sent from `origin`, in order, each with its
    /// header, and the frame's length.  A frame too large is refused.
    pub fn fragments(&mut self, origin: Mac, data: &LinkFrameData<'_>) -> (r: Result<
        (Vec<Vec<u8>>, usize),
        LinkError,
    >)
        requires
            old(self).wf(),
        ensures
            final(self).wf(),
            final(self).in_flight() == old(self).in_flight(),
            final(self).frame_buffer() == old(self).frame_buffer(),
            match r {
                Ok((parts, len)) => {
                    let frame = frame_bytes(data.dst, origin, data.protocol, data.payload@);
                    let id = old(self).msg_id();
                    &&& len == frame.len()
                    &&& len <= MAX_REASSEMBLED_LEN
                    &&& parts@.len() == piece_count(len as nat, FRAG_PAYLOAD as nat)
                    &&& forall|i: int|
                        0 <= i < parts@.len() ==> (#[trigger] parts@[i])@ == fragment_bytes(
                            frame,
                            id,
                            i,
                            parts@.len() as int,
                        )
                    &&& final(self).msg_id() == next_id(id)
                },
                Err(e) => {
                    &&& e == LinkError::BufferFull
                    &&& HEADER_LEN + data.payload@.len() > MAX_REASSEMBLED_LEN
                    &&& final(self).msg_id() == old(self).msg_id()
                },
            },
    {
        let (frame, len) = match assemble_frame(origin, data) {
            Ok(assembled) => assembled,
            Err(e) => {
                return Err(e);
            },
        };
        let count: usize = match fragment_count(len) {
            Ok(n) => n,
            Err(e) => {
                return Err(e);
            },
        };
        let id: u8 = self.next_msg_id();
        let ghost whole = frame@.subrange(0, len as int);
        let mut parts: Vec<Vec<u8>> = Vec::new();
        let mut index: usize = 0;
        while index < count
            invariant
                index <= count,
                count == piece_count(len as nat, FRAG_PAYLOAD as nat),
                count <= MAX_FRAGMENTS,
                len <= 350,
                whole == frame@.subrange(0, len as int),
                parts@.len() == index,
                forall|i: int|
                    0 <= i < index ==> (#[trigger] parts@[i])@ == fragment_bytes(
                        whole,
                        id,
                        i,
                        count as int,
                    ),
            decreases count - index,
        {
            let mut out: [u8; 27] = [0u8; 27];
            match build_fragment(&frame, len, id, index, count, &mut out) {
                Ok(n) => {
                    let part: Vec<u8> = vstd::slice::slice_to_vec(&out[0..n]);
                    assert(part@ =~= fragment_bytes(whole, id, index as int, count as int));
                    parts.push(part);
                },
                Err(e) => {
                    return Err(e);
                },
            }
            index = index + 1;
        }
        Ok((parts, len))
    }

    /// The fragments of a frame sent from `origin`, in order, each framed as an
    /// advertising structure, and the frame's length.  A frame too large is
    /// refused.
    pub fn fragment_ads(&mut self, origin: Mac, data: &LinkFrameData<'_>) -> (r: Result<
        (Vec<Vec<u8>>, usize),
        LinkError,
    >)
        requires
            old(self).wf(),
        ensures
            final(self).wf(),
            final(self).in_flight() == old(self).in_flight(),
            final(self).frame_buffer() == old(self).frame_buffer(),
            match r {
                Ok((parts, len)) => {
                    let frame = frame_bytes(data.dst, origin, data.protocol, data.payload@);
                    let id = old(self).msg_id();
                    &&& len == frame.len()
                    &&& len <= MAX_REASSEMBLED_LEN
                    &&& parts@.len() == piece_count(len as nat, FRAG_PAYLOAD as nat)
                    &&& forall|i: int|
                        0 <= i < parts@.len() ==> (#[trigger] parts@[i])@ == ad_structure(
                            fragment_bytes(frame, id, i, parts@.len() as int),
                        )
                    &&& final(self).msg_id() == next_id(id)
                },
                Err(e) => {
                    &&& e == LinkError::BufferFull
                    &&& HEADER_LEN + data.payload@.len() > MAX_REASSEMBLED_LEN
                    &&& final(self).msg_id() == old(self).msg_id()
                },
            },
    {
        let (frame, len) = match assemble_frame(origin, data) {
            Ok(assembled) => assembled,
            Err(e) => {
                return Err(e);
            },
        };
        let count: usize = match fragment_count(len) {
            Ok(n) => n,
            Err(e) => {
                return Err(e);
            },
        };
        let id: u8 = self.next_msg_id();
        let ghost whole = frame@.subrange(0, len as int);
        let mut parts: Vec<Vec<u8>> = Vec::new();
        let mut index: usize = 0;
        while index < count
            invariant
                index <= count,
                count == piece_count(len as nat, FRAG_PAYLOAD as nat),
                count <= MAX_FRAGMENTS,
                len <= 350,
                whole == frame@.subrange(0, len as int),
                parts@.len() == index,
                forall|i: int|
                    0 <= i < index ==> (#[trigger] parts@[i])@ == ad_structure(
                        fragment_bytes(whole, id, i, count as int),
                    ),
            decreases count - index,
        {
            let mut out: [u8; 31] = [0u8; 31];
            match build_fragment_ad(&frame, len, id, index, count, &mut out) {
                Ok(n) => {
                    let part: Vec<u8> = vstd::slice::slice_to_vec(&out[0..n]);
                    assert(part@ =~= ad_structure(
                        fragment_bytes(whole, id, index as int, count as int),
                    ));
                    parts.push(part);
                },
                Err(e) => {
                    return Err(e);
                },
            }
            index = index + 1;
        }
        Ok((parts, len))
    }

    /// Take one report in: when it completes a message, the message stands at the
    /// front of the frame buffer, and its length and the report's metrics are
    /// returned.
    pub fn take_report(&mut self, report: &RawReport) -> (r: Option<(usize, LinkMetrics)>)
        requires
            old(self).wf(),
            report.wf(),
        ensures
            final(self).wf(),
            final(self).msg_id() == old(self).msg_id(),
            ({
                let (table, done) = arrived(
                    old(self).in_flight(),
                    MAX_REASSEMBLIES as nat,
                    FRAG_PAYLOAD as nat,
                    MAX_REASSEMBLED_LEN as nat,
                    addr_key(report.addr.octets()),
                    report.fragment(),
                );
                &&& final(self).in_flight() == table
                &&& match done {
                    Some(frame) => {
                        &&& r == Some(
                            (
                                frame.len() as usize,
                                LinkMetrics {
                                    rssi_dbm: report.rssi,
                                    snr_db: None,
                                    quality: None,
                                },
                            ),
                        )
                        &&& frame.len() <= MAX_REASSEMBLED_LEN
                        &&& final(self).frame_buffer() == overlay(
                            old(self).frame_buffer(),
                            0,
                            frame,
                        )
                    },
                    None => r is None && final(self).frame_buffer() == old(
                        self,
                    ).frame_buffer(),
                }
            }),
    {
        let metrics = LinkMetrics { rssi_dbm: report.rssi, snr_db: None, quality: None };
        self.reassembler.take_packet(
            report.addr.as_key(),
            &report.data[0..report.len as usize],
            metrics,
            &mut self.rx_frame,
        )
    }

    /// The frame of `len` bytes at the front of the frame buffer.
    pub fn received_frame(&self, len: usize) -> (r: Result<LinkFrame<'_>, LinkError>)
        requires
            len <= MAX_REASSEMBLED_LEN,
        ensures
            match r {
                Ok(frame) => frame.bytes() == self.frame_buffer().subrange(0, len as int) && len
                    >= HEADER_LEN,
                Err(e) => e == LinkError::InvalidPacket && len < HEADER_LEN,
            },
    {
        match LinkFrame::ref_from_bytes(&self.rx_frame[0..len]) {
            Some(frame) => Ok(frame),
            None => Err(LinkError::InvalidPacket),
        }
    }
}

/// What one link advertises another receives: while what has arrived of a message
/// is what a frame splits into, one more of its fragments either completes the
/// message, and then it is the frame, or is kept beside the others.
pub proof fn advertised_frame_is_received(
    in_flight: Seq<InFlight>,
    addr: u64,
    frame: Seq<u8>,
    hdr: FragHeader,
)
    requires
        hdr.wf(),
        frame.len() <= MAX_REASSEMBLED_LEN,
        hdr.count == piece_count(frame.len(), FRAG_PAYLOAD as nat),
        ({
            let key = FragKey { addr, msg_id: hdr.msg_id };
            let (table, at) = seated(in_flight, MAX_REASSEMBLIES as nat, key, hdr.count as nat);
            pieces_of(table[at].parts, frame, FRAG_PAYLOAD as nat)
        }),
    ensures
        ({
            let key = FragKey { addr, msg_id: hdr.msg_id };
            let (seats, at) = seated(in_flight, MAX_REASSEMBLIES as nat, key, hdr.count as nat);
            let (table, done) = arrived(
                in_flight,
                MAX_REASSEMBLIES as nat,
                FRAG_PAYLOAD as nat,
                MAX_REASSEMBLED_LEN as nat,
                addr,
                fragment_bytes(frame, hdr.msg_id, hdr.index as int, hdr.count as int),
            );
            match done {
                Some(whole) => whole == frame,
                None => {
                    &&& table[at].key == key
                    &&& pieces_of(table[at].parts, frame, FRAG_PAYLOAD as nat)
                    &&& table[at].parts[hdr.index as int] is Some
                    &&& !all_here(table[at].parts)
                },
            }
        }),
{
    any_order_gives_the_frame(
        in_flight,
        MAX_REASSEMBLIES as nat,
        MAX_REASSEMBLED_LEN as nat,
        addr,
        hdr,
        frame,
        FRAG_PAYLOAD as nat,
    );
}

/// Messages are numbered one after another, round from the last to zero.
pub proof fn numbers_follow_one_another(id: u8)
    ensures
        (next_id(id) - id - 1) % 256 == 0,
        next_id(id) != id,
{
}

} // verus!
