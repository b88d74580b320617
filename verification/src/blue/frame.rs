//! Cutting a frame into advertisements: assembling its bytes, splitting them into
//! fragments, and framing each fragment.

use vstd::prelude::*;

use crate::blue::ad::ad_structure;
use crate::blue::ad::build_ad_structure;
use crate::blue::addr::BleAddr;
use crate::codec::overlay;
use crate::codec::u16_be;
use crate::frag::pack_header;
use crate::frag::piece_count;
use crate::frag::piece_of;
use crate::frag::FragHeader;
use crate::frag::FRAG_HDR_LEN;
use crate::frag::MAX_FRAGMENTS;
use crate::frame::frame_bytes;
use crate::frame::LinkFrameData;
use crate::frame::Mac;
use crate::link::LinkError;

verus! {

/// Length of the link-frame header.
pub const HEADER_LEN: usize = 14;

/// Frame bytes carried by one advertisement.
pub const FRAG_PAYLOAD: usize = 25;

/// Largest fragment with its header.
pub const MAX_FRAGMENT_BYTES: usize = 27;

/// Largest frame this link handles.
pub const MAX_REASSEMBLED_LEN: usize = 350;

/// Largest number of messages reassembled at once.
pub const MAX_REASSEMBLIES: usize = 4;

/// Assemble the bytes of one frame sent from `origin`, with their length; a
/// frame too large for this link is refused.
pub fn assemble_frame(origin: Mac, data: &LinkFrameData<'_>) -> (r: Result<
    ([u8; 350], usize),
    LinkError,
>)
    ensures
        match r {
            Ok((frame, len)) => {
                &&& len == HEADER_LEN + data.payload@.len()
                &&& len <= MAX_REASSEMBLED_LEN
                &&& frame@.subrange(0, len as int) == frame_bytes(
                    data.dst,
                    origin,
                    data.protocol,
                    data.payload@,
                )
                &&& forall|i: int| len <= i < 350 ==> #[trigger] frame@[i] == 0
            },
            Err(e) => e == LinkError::BufferFull && HEADER_LEN + data.payload@.len()
                > MAX_REASSEMBLED_LEN,
        },
{
    let payload_len: usize = data.payload.len();
    if payload_len > MAX_REASSEMBLED_LEN - HEADER_LEN {
        return Err(LinkError::BufferFull);
    }
    let len: usize = HEADER_LEN + payload_len;
    let mut head: [u8; 14] = [0u8; 14];
    let proto: [u8; 2] = u16_be(data.protocol);
    let mut i: usize = 0;
    let ghost want = data.dst.0@ + origin.0@ + proto@;
    while i < 14
        invariant
            i <= 14,
            want == data.dst.0@ + origin.0@ + proto@,
            forall|j: int| 0 <= j < i ==> (#[trigger] head@[j]) == want[j],
        decreases 14 - i,
    {
        head[i] = if i < 6 {
            data.dst.0[i]
        } else if i < 12 {
            origin.0[i - 6]
        } else {
            proto[i - 12]
        };
        i = i + 1;
    }
    let mut frame: [u8; 350] = [0u8; 350];
    let ghost bytes = frame_bytes(data.dst, origin, data.protocol, data.payload@);
    let mut k: usize = 0;
    while k < len
        invariant
            k <= len,
            len == HEADER_LEN + data.payload@.len(),
            len <= MAX_REASSEMBLED_LEN,
            bytes == frame_bytes(data.dst, origin, data.protocol, data.payload@),
            forall|j: int| 0 <= j < 14 ==> (#[trigger] head@[j]) == bytes[j],
            forall|j: int| 0 <= j < k ==> (#[trigger] frame@[j]) == bytes[j],
            forall|j: int| k <= j < 350 ==> #[trigger] frame@[j] == 0,
        decreases len - k,
    {
        frame[k] = if k < HEADER_LEN { head[k] } else { data.payload[k - HEADER_LEN] };
        k = k + 1;
    }
    assert(frame@.subrange(0, len as int) =~= bytes);
    Ok((frame, len))
}

/// Number of fragments `frame_len` bytes split into; more than the header can
/// count is refused.
pub fn fragment_count(frame_len: usize) -> (r: Result<usize, LinkError>)
    ensures
        match r {
            Ok(n) => n == piece_count(frame_len as nat, FRAG_PAYLOAD as nat) && n
                <= MAX_FRAGMENTS,
            Err(e) => e == LinkError::BufferFull && piece_count(
                frame_len as nat,
                FRAG_PAYLOAD as nat,
            ) > MAX_FRAGMENTS,
        },
{
    let whole: usize = frame_len / FRAG_PAYLOAD;
    let count: usize = if frame_len % FRAG_PAYLOAD == 0 { whole } else { whole + 1 };
    if count > MAX_FRAGMENTS {
        return Err(LinkError::BufferFull);
    }
    Ok(count)
}

/// A fragment as it goes on air: its header, then its piece of the frame.
pub open spec fn fragment_bytes(frame: Seq<u8>, msg_id: u8, index: int, count: int) -> Seq<u8> {
    (FragHeader { msg_id, index: index as u8, count: count as u8 }).bytes() + piece_of(
        frame,
        FRAG_PAYLOAD as nat,
        index as nat,
    )
}

/// Build fragment `index` of `count` of `frame[..frame_len]` into `out`,
/// returning its length; an index past the end of the frame is refused with
/// `out` untouched.
pub fn build_fragment(
    frame: &[u8],
    frame_len: usize,
    msg_id: u8,
    index: usize,
    count: usize,
    out: &mut [u8; 27],
) -> (r: Result<usize, LinkError>)
    requires
        frame_len <= frame@.len(),
        index <= MAX_FRAGMENTS,
        count <= MAX_FRAGMENTS,
    ensures
        match r {
            Ok(n) => {
                let bytes = fragment_bytes(
                    frame@.subrange(0, frame_len as int),
                    msg_id,
                    index as int,
                    count as int,
                );
                &&& index * FRAG_PAYLOAD <= frame_len
                &&& n == bytes.len()
                &&& n <= MAX_FRAGMENT_BYTES
                &&& final(out)@ == overlay(old(out)@, 0, bytes)
            },
            Err(e) => {
                &&& e == LinkError::BufferFull
                &&& index * FRAG_PAYLOAD > frame_len
                &&& final(out)@ == old(out)@
            },
        },
{
    let start: usize = index * FRAG_PAYLOAD;
    if start > frame_len {
        return Err(LinkError::BufferFull);
    }
    let end: usize = if frame_len - start >= FRAG_PAYLOAD {
        start + FRAG_PAYLOAD
    } else {
        frame_len
    };
    let header: [u8; 2] = pack_header(msg_id, index, count);
    let ghost before = out@;
    let ghost body = frame@.subrange(start as int, end as int);
    let n: usize = FRAG_HDR_LEN + (end - start);
    let mut i: usize = 0;
    while i < n
        invariant
            i <= n,
            n == FRAG_HDR_LEN + (end - start),
            start <= end <= frame_len <= frame@.len(),
            n <= MAX_FRAGMENT_BYTES,
            before.len() == 27,
            body == frame@.subrange(start as int, end as int),
            out@ == overlay(before, 0, (header@ + body).subrange(0, i as int)),
        decreases n - i,
    {
        out[i] = if i < FRAG_HDR_LEN { header[i] } else { frame[start + (i - FRAG_HDR_LEN)] };
        i = i + 1;
        assert(out@ =~= overlay(before, 0, (header@ + body).subrange(0, i as int)));
    }
    assert((header@ + body).subrange(0, n as int) =~= header@ + body);
    assert(body =~= piece_of(
        frame@.subrange(0, frame_len as int),
        FRAG_PAYLOAD as nat,
        index as nat,
    ));
    Ok(n)
}

/// Build the advertising structure of fragment `index` of `count` of
/// `frame[..frame_len]` into `out`, returning its length; an index past the end
/// of the frame is refused.
pub fn build_fragment_ad(
    frame: &[u8],
    frame_len: usize,
    msg_id: u8,
    index: usize,
    count: usize,
    out: &mut [u8; 31],
) -> (r: Result<usize, LinkError>)
    requires
        frame_len <= frame@.len(),
        index <= MAX_FRAGMENTS,
        count <= MAX_FRAGMENTS,
    ensures
        match r {
            Ok(n) => {
                let structure = ad_structure(
                    fragment_bytes(
                        frame@.subrange(0, frame_len as int),
                        msg_id,
                        index as int,
                        count as int,
                    ),
                );
                &&& index * FRAG_PAYLOAD <= frame_len
                &&& n == structure.len()
                &&& final(out)@ == overlay(old(out)@, 0, structure)
            },
            Err(e) => {
                &&& e == LinkError::BufferFull
                &&& index * FRAG_PAYLOAD > frame_len
                &&& final(out)@ == old(out)@
            },
        },
{
    let mut fragment: [u8; 27] = [0u8; 27];
    let n: usize = match build_fragment(frame, frame_len, msg_id, index, count, &mut fragment) {
        Ok(n) => n,
        Err(e) => {
            return Err(e);
        },
    };
    let ghost bytes = fragment_bytes(
        frame@.subrange(0, frame_len as int),
        msg_id,
        index as int,
        count as int,
    );
    assert(fragment@.subrange(0, n as int) =~= bytes);
    let mut framed: [u8; 31] = *out;
    let ghost before = framed@;
    match build_ad_structure(&fragment[0..n], &mut framed) {
        Some(total) => {
            *out = framed;
            Ok(total)
        },
        None => Err(LinkError::BufferFull),
    }
}

/// One observed advertisement's fragment, copied out of the stack that reported
/// it.  It has no debug text, which would hold the payload.
#[derive(Clone, Copy)]
pub struct RawReport {
    /// Advertiser address.
    pub addr: BleAddr,
    /// Received signal strength, where the stack knows it.
    pub rssi: Option<i16>,
    /// How many bytes of `data` are the fragment.
    pub len: u8,
    /// The fragment with its header.
    pub data: [u8; 27],
}

impl RawReport {
    /// The fragment reported.
    pub open spec fn fragment(self) -> Seq<u8> {
        self.data@.subrange(0, self.len as int)
    }

    /// The length is within the buffer.
    pub open spec fn wf(self) -> bool {
        self.len <= MAX_FRAGMENT_BYTES
    }

    /// Copy `fragment` into a report; what does not fit is cut off, and what is left
    /// of the buffer is zero.
    pub fn new(addr: BleAddr, rssi: Option<i16>, fragment: &[u8]) -> (r: RawReport)
        ensures
            r.wf(),
            r.addr == addr,
            r.rssi == rssi,
            r.fragment() == fragment@.subrange(
                0,
                if fragment@.len() <= MAX_FRAGMENT_BYTES {
                    fragment@.len() as int
                } else {
                    MAX_FRAGMENT_BYTES as int
                },
            ),
            forall|i: int| r.len <= i < 27 ==> (#[trigger] r.data@[i]) == 0,
    {
        let mut data: [u8; 27] = [0u8; 27];
        let n: usize = if fragment.len() <= MAX_FRAGMENT_BYTES {
            fragment.len()
        } else {
            MAX_FRAGMENT_BYTES
        };
        let mut i: usize = 0;
        while i < n
            invariant
                i <= n,
                n <= 27,
                n <= fragment@.len(),
                forall|j: int| 0 <= j < i ==> (#[trigger] data@[j]) == fragment@[j],
                forall|j: int| i <= j < 27 ==> (#[trigger] data@[j]) == 0,
            decreases n - i,
        {
            data[i] = fragment[i];
            i = i + 1;
        }
        assert(data@.subrange(0, n as int) =~= fragment@.subrange(0, n as int));
        RawReport { addr, rssi, len: n as u8, data }
    }
}

/// Every frame this link accepts splits into at most as many fragments as the
/// header can count.
pub proof fn accepted_frames_fit(frame_len: nat)
    requires
        frame_len <= MAX_REASSEMBLED_LEN,
    ensures
        piece_count(frame_len, FRAG_PAYLOAD as nat) <= MAX_FRAGMENTS,
{
}

/// A fragment is its message number, its place and count in four bits each, and up
/// to 25 bytes of the frame from its place on.
pub proof fn fragment_layout(frame: Seq<u8>, msg_id: u8, index: int, count: int, i: int)
    requires
        0 <= index < count <= 15,
        25 * index <= frame.len(),
        0 <= i < fragment_bytes(frame, msg_id, index, count).len() - 2,
    ensures
        ({
            let b = fragment_bytes(frame, msg_id, index, count);
            &&& b[0] == msg_id
            &&& b[1] == 16 * index + count
            &&& b[2 + i] == frame[25 * index + i]
            &&& b.len() <= 27
            &&& 25 * (index + 1) <= frame.len() ==> b.len() == 27
            &&& 25 * (index + 1) > frame.len() ==> b.len() == 2 + frame.len() - 25 * index
        }),
{
}

} // verus!
