//! Mesh frames over the module: a frame is split into fragments, and each goes out
//! as hexadecimal text, which holds neither comma nor line end.

use vstd::prelude::*;

use crate::bounded::BoundedVec;
use crate::codec::u16_be;
use crate::frag::pack_header;
use crate::frag::piece_count;
use crate::frag::piece_of;
use crate::frag::FragHeader;
use crate::frag::MAX_FRAGMENTS;
use crate::frame::frame_bytes;
use crate::frame::LinkFrameData;
use crate::frame::Mac;
use crate::link::LinkError;
use crate::link::LinkMetrics;
use crate::reassembly::all_here;
use crate::reassembly::any_order_gives_the_frame;
use crate::reassembly::arrived;
use crate::reassembly::packet_bytes;
use crate::reassembly::pieces_of;
use crate::reassembly::seated;
use crate::reassembly::FragKey;
use crate::reassembly::InFlight;
use crate::rylr998::client::LoraError;
use crate::rylr998::hex::decoded;
use crate::rylr998::hex::decoding_stops_at_no_digit;
use crate::rylr998::hex::either_case_decodes;
use crate::rylr998::hex::hex_char;
use crate::rylr998::hex::hex_decodes;
use crate::rylr998::hex::hex_text;
use crate::rylr998::hex::nibble_value;
use crate::rylr998::hex::push_hex;
use crate::rylr998::rcv::comma_free;
use crate::rylr998::rcv::Packet;

verus! {

/// The module address that every node in range receives.
pub const RYLR_BROADCAST_ADDR: u16 = 0;

/// Length of the link-frame header.
pub const HEADER_LEN: usize = 14;

/// Largest fragment with its header: the module takes 240 data bytes, and
/// hexadecimal doubles the size.
pub const MAX_FRAME_LEN: usize = 120;

/// Frame bytes carried by one fragment.
pub const FRAG_PAYLOAD: usize = 118;

/// Largest frame this link handles.
pub const MAX_REASSEMBLED_LEN: usize = 512;

/// Largest number of messages reassembled at once.
pub const MAX_REASSEMBLIES: usize = 4;

/// The link error a driver error means.
pub open spec fn link_error(e: LoraError) -> LinkError {
    match e {
        LoraError::Io => LinkError::Io,
        LoraError::RequestTooLarge => LinkError::BufferFull,
        LoraError::InvalidResponse => LinkError::InvalidPacket,
        LoraError::Timeout => LinkError::ReceiveFailed,
        LoraError::ModuleError(_) => LinkError::TransmitFailed,
    }
}

impl From<LoraError> for LinkError {
    fn from(e: LoraError) -> (l: LinkError) {
        match e {
            LoraError::Io => LinkError::Io,
            LoraError::RequestTooLarge => LinkError::BufferFull,
            LoraError::InvalidResponse => LinkError::InvalidPacket,
            LoraError::Timeout => LinkError::ReceiveFailed,
            LoraError::ModuleError(_) => LinkError::TransmitFailed,
        }
    }
}

impl vstd::std_specs::convert::FromSpecImpl<LoraError> for LinkError {
    open spec fn obeys_from_spec() -> bool {
        true
    }

    open spec fn from_spec(e: LoraError) -> LinkError {
        link_error(e)
    }
}

/// The low bits of `x` as a signed number below `half` in size.
pub open spec fn wrapped(x: int, half: int) -> int {
    (x + half) % (2 * half) - half
}

/// A received packet's signal readings as link metrics: the low 16 and 8 bits of
/// the strength and the ratio, which hold any real reading.
pub fn metrics_from(rssi: i32, snr: i32) -> (m: LinkMetrics)
    ensures
        m == metrics_of(rssi, snr),
        -0x8000 <= rssi < 0x8000 ==> m.rssi_dbm == Some(rssi as i16),
        -0x80 <= snr < 0x80 ==> m.snr_db == Some(snr as i8),
{
    // Both offsets are multiples of the moduli, and keep the sums positive.
    let r: i64 = (rssi as i64 + 0x8000 + 0x8000_0000) % 0x1_0000;
    let s: i64 = (snr as i64 + 0x80 + 0x8000_0000) % 0x100;
    assert(r == (rssi + 0x8000) % 0x1_0000);
    assert(s == (snr + 0x80) % 0x100);
    LinkMetrics {
        rssi_dbm: Some((r - 0x8000) as i16),
        snr_db: Some((s - 0x80) as i8),
        quality: None,
    }
}

/// A received packet's signal readings as link metrics.
pub open spec fn metrics_of(rssi: i32, snr: i32) -> LinkMetrics {
    LinkMetrics {
        rssi_dbm: Some(wrapped(rssi as int, 0x8000) as i16),
        snr_db: Some(wrapped(snr as int, 0x80) as i8),
        quality: None,
    }
}

/// Fragment `index` of `count` of a frame.
pub open spec fn on_air(frame: Seq<u8>, msg_id: u8, index: int, count: int) -> Seq<u8> {
    packet_bytes(
        frame,
        FRAG_PAYLOAD as nat,
        FragHeader { msg_id, index: index as u8, count: count as u8 },
    )
}

/// The texts of a frame's fragments, in order, with the frame's length; a frame
/// over what this link handles is refused.
pub fn fragment_texts(origin: Mac, data: &LinkFrameData<'_>, msg_id: u8) -> (r: Result<
    (Vec<BoundedVec<u8, 240>>, usize),
    LinkError,
>)
    ensures
        match r {
            Ok((texts, len)) => {
                let frame = frame_bytes(data.dst, origin, data.protocol, data.payload@);
                &&& len == frame.len()
                &&& len == HEADER_LEN + data.payload@.len()
                &&& len <= MAX_REASSEMBLED_LEN
                &&& texts@.len() == piece_count(len as nat, FRAG_PAYLOAD as nat)
                &&& 0 < texts@.len() <= MAX_FRAGMENTS
                &&& forall|i: int|
                    0 <= i < texts@.len() ==> (#[trigger] texts@[i])@ == hex_text(
                        on_air(frame, msg_id, i, texts@.len() as int),
                    )
            },
            Err(e) => e == LinkError::BufferFull && HEADER_LEN + data.payload@.len()
                > MAX_REASSEMBLED_LEN,
        },
{
    let payload_len: usize = data.payload.len();
    if payload_len > MAX_REASSEMBLED_LEN - HEADER_LEN {
        return Err(LinkError::BufferFull);
    }
    let len: usize = HEADER_LEN + payload_len;
    let protocol: [u8; 2] = u16_be(data.protocol);
    let mut frame: Vec<u8> = Vec::new();
    frame.extend_from_slice(&data.dst.0);
    frame.extend_from_slice(&origin.0);
    frame.extend_from_slice(&protocol);
    frame.extend_from_slice(data.payload);
    let ghost whole = frame_bytes(data.dst, origin, data.protocol, data.payload@);
    assert(frame@ =~= whole);
    let count: usize = if len % FRAG_PAYLOAD == 0 {
        len / FRAG_PAYLOAD
    } else {
        len / FRAG_PAYLOAD + 1
    };
    let mut texts: Vec<BoundedVec<u8, 240>> = Vec::new();
    let mut index: usize = 0;
    while index < count
        invariant
            index <= count,
            len == whole.len(),
            frame@ == whole,
            14 <= len <= MAX_REASSEMBLED_LEN,
            count == piece_count(len as nat, FRAG_PAYLOAD as nat),
            0 < count <= MAX_FRAGMENTS,
            texts@.len() == index,
            forall|i: int|
                0 <= i < index ==> (#[trigger] texts@[i])@ == hex_text(
                    on_air(whole, msg_id, i, count as int),
                ),
        decreases count - index,
    {
        let start: usize = index * FRAG_PAYLOAD;
        let end: usize = if len - start >= FRAG_PAYLOAD {
            start + FRAG_PAYLOAD
        } else {
            len
        };
        let mut text: BoundedVec<u8, 240> = BoundedVec::new();
        let header: [u8; 2] = pack_header(msg_id, index, count);
        let body = &frame.as_slice()[start..end];
        let head_ok = push_hex(&mut text, &header);
        assert(text@ =~= hex_text(header@));
        let body_ok = push_hex(&mut text, body);
        proof {
            assert(body@ =~= piece_of(whole, FRAG_PAYLOAD as nat, index as nat));
            hex_text_splits(header@, body@);
            assert(on_air(whole, msg_id, index as int, count as int) == header@ + body@);
        }
        texts.push(text);
        index = index + 1;
    }
    Ok((texts, len))
}

/// The text of two runs of bytes is the text of each in turn.
proof fn hex_text_splits(a: Seq<u8>, b: Seq<u8>)
    ensures
        hex_text(a + b) == hex_text(a) + hex_text(b),
{
    let both = a + b;
    assert forall|i: int| 0 <= i < 2 * both.len() implies hex_text(both)[i] == (hex_text(a)
        + hex_text(b))[i] by {
        if i < 2 * a.len() {
            assert(both[i / 2] == a[i / 2]);
        } else {
            let j = i - 2 * a.len();
            assert(j / 2 == i / 2 - a.len() && j % 2 == i % 2);
            assert(both[i / 2] == b[j / 2]);
        }
    }
    assert(hex_text(both) =~= hex_text(a) + hex_text(b));
}

/// What a received packet comes to.
#[verifier::ext_equal]
pub enum Arrival {
    /// Its data is not hexadecimal, or too long.
    Refused(LinkError),
    /// No message is complete yet.
    Waiting,
    /// It completed a message.
    Message(Seq<u8>),
}

/// What a packet's data decodes to.
pub open spec fn raw_of(data: Seq<u8>) -> Result<Seq<u8>, LinkError> {
    let n = data.len() as int / 2;
    if data.len() % 2 != 0 {
        Err(LinkError::InvalidPacket)
    } else if n > MAX_FRAME_LEN {
        Err(LinkError::BufferFull)
    } else if decoded(data, n).len() < n {
        Err(LinkError::InvalidPacket)
    } else {
        Ok(decoded(data, n))
    }
}

/// The reassembly table after a packet, and what the packet comes to.
pub open spec fn arrival(in_flight: Seq<InFlight>, packet: Packet) -> (Seq<InFlight>, Arrival) {
    match raw_of(packet.data) {
        Err(e) => (in_flight, Arrival::Refused(e)),
        Ok(raw) => {
            let (table, done) = arrived(
                in_flight,
                MAX_REASSEMBLIES as nat,
                FRAG_PAYLOAD as nat,
                MAX_REASSEMBLED_LEN as nat,
                packet.address as u64,
                raw,
            );
            match done {
                Some(frame) => (table, Arrival::Message(frame)),
                None => (table, Arrival::Waiting),
            }
        },
    }
}

/// The text of a fragment holds no comma, fits the module, and decodes to the
/// fragment, so what one client sends another receives.
pub proof fn fragment_text_survives(raw: Seq<u8>)
    requires
        raw.len() <= MAX_FRAME_LEN,
    ensures
        comma_free(hex_text(raw)),
        hex_text(raw).len() <= 240,
        raw_of(hex_text(raw)) == Ok::<Seq<u8>, LinkError>(raw),
{
    let text = hex_text(raw);
    assert forall|i: int| 0 <= i < text.len() implies #[trigger] text[i] != 44 by {
        assert(hex_char(raw[i / 2] / 16) != 44 && hex_char(raw[i / 2] % 16) != 44);
    }
    hex_decodes(raw, raw.len() as int);
    assert(raw.subrange(0, raw.len() as int) =~= raw);
}

/// What one client sends another receives: while what has arrived of a message is
/// what a frame splits into, the packet carrying one more of its fragments either
/// completes the message, and then it is the frame, or is kept beside the others.
pub proof fn sent_frame_is_received(
    in_flight: Seq<InFlight>,
    packet: Packet,
    frame: Seq<u8>,
    hdr: FragHeader,
)
    requires
        hdr.wf(),
        frame.len() <= MAX_REASSEMBLED_LEN,
        hdr.count == piece_count(frame.len(), FRAG_PAYLOAD as nat),
        packet.data == hex_text(on_air(frame, hdr.msg_id, hdr.index as int, hdr.count as int)),
        ({
            let key = FragKey { addr: packet.address as u64, msg_id: hdr.msg_id };
            let (table, at) = seated(in_flight, MAX_REASSEMBLIES as nat, key, hdr.count as nat);
            pieces_of(table[at].parts, frame, FRAG_PAYLOAD as nat)
        }),
    ensures
        ({
            let key = FragKey { addr: packet.address as u64, msg_id: hdr.msg_id };
            let (seats, at) = seated(in_flight, MAX_REASSEMBLIES as nat, key, hdr.count as nat);
            let (table, came) = arrival(in_flight, packet);
            match came {
                Arrival::Refused(_) => false,
                Arrival::Message(whole) => whole == frame,
                Arrival::Waiting => {
                    &&& table[at].key == key
                    &&& pieces_of(table[at].parts, frame, FRAG_PAYLOAD as nat)
                    &&& table[at].parts[hdr.index as int] is Some
                    &&& !all_here(table[at].parts)
                },
            }
        }),
{
    let raw = on_air(frame, hdr.msg_id, hdr.index as int, hdr.count as int);
    assert(raw.len() <= MAX_FRAME_LEN);
    fragment_text_survives(raw);
    any_order_gives_the_frame(
        in_flight,
        MAX_REASSEMBLIES as nat,
        MAX_REASSEMBLED_LEN as nat,
        packet.address as u64,
        hdr,
        frame,
        FRAG_PAYLOAD as nat,
    );
}

/// No two driver errors that are told apart mean the same link error.
pub proof fn link_errors_tell_driver_errors_apart(e: LoraError)
    ensures
        (link_error(e) == LinkError::Io) == (e is Io),
        (link_error(e) == LinkError::BufferFull) == (e is RequestTooLarge),
        (link_error(e) == LinkError::InvalidPacket) == (e is InvalidResponse),
        (link_error(e) == LinkError::ReceiveFailed) == (e is Timeout),
        (link_error(e) == LinkError::TransmitFailed) == (e is ModuleError),
{
}

/// A reading keeps its low bits: any that fits is kept as it is, and any other
/// differs by whole turns.
pub proof fn readings_keep_their_low_bits(x: int, half: int)
    requires
        half > 0,
    ensures
        -half <= wrapped(x, half) < half,
        (x - wrapped(x, half)) % (2 * half) == 0,
        -half <= x < half ==> wrapped(x, half) == x,
{
    let turn = 2 * half;
    let y = x + half;
    vstd::arithmetic::div_mod::lemma_fundamental_div_mod(y, turn);
    vstd::arithmetic::div_mod::lemma_mod_bound(y, turn);
    if -half <= x < half {
        vstd::arithmetic::div_mod::lemma_small_mod(y as nat, turn as nat);
    }
    assert(x - wrapped(x, half) == turn * (y / turn));
    assert((turn * (y / turn)) % turn == 0) by {
        vstd::arithmetic::div_mod::lemma_mod_multiples_basic(y / turn, turn);
        assert(turn * (y / turn) == (y / turn) * turn) by (nonlinear_arith);
    }
}

/// A packet's data is taken exactly where it is pairs of hexadecimal digits, no
/// more than the largest fragment has; and what is refused changes nothing.
pub proof fn only_fragments_are_taken(in_flight: Seq<InFlight>, packet: Packet, k: int)
    ensures
        packet.data.len() % 2 != 0 ==> arrival(in_flight, packet) == (
            in_flight,
            Arrival::Refused(LinkError::InvalidPacket),
        ),
        packet.data.len() % 2 == 0 && packet.data.len() > 240 ==> arrival(in_flight, packet) == (
            in_flight,
            Arrival::Refused(LinkError::BufferFull),
        ),
        packet.data.len() % 2 == 0 && packet.data.len() <= 240 && 0 <= k < packet.data.len() / 2
            && (nibble_value(packet.data[2 * k]) is None || nibble_value(packet.data[2 * k + 1])
            is None) ==> arrival(in_flight, packet) == (
            in_flight,
            Arrival::Refused(LinkError::InvalidPacket),
        ),
{
    let n = packet.data.len() as int / 2;
    if packet.data.len() % 2 == 0 && 0 <= k < n && (nibble_value(packet.data[2 * k]) is None
        || nibble_value(packet.data[2 * k + 1]) is None) {
        decoding_stops_at_no_digit(packet.data, n, k);
    }
}

/// What a fragment decodes to is what its digits spell, whichever case each has.
pub proof fn fragments_of_either_case_are_taken(data: Seq<u8>, raw: Seq<u8>)
    requires
        raw.len() <= 120,
        data.len() == 2 * raw.len(),
        forall|i: int|
            0 <= i < raw.len() ==> nibble_value(data[2 * i]) == Some((#[trigger] raw[i] / 16) as u8)
                && nibble_value(data[2 * i + 1]) == Some((raw[i] % 16) as u8),
    ensures
        raw_of(data) == Ok::<Seq<u8>, LinkError>(raw),
{
    either_case_decodes(data, raw, raw.len() as int);
    assert(raw.take(raw.len() as int) =~= raw);
}

/// A fragment is its message number, its place and count in four bits each, and up
/// to 118 bytes of the frame from its place on.
pub proof fn lora_fragment_layout(frame: Seq<u8>, msg_id: u8, index: int, count: int, i: int)
    requires
        0 <= index < count <= 15,
        118 * index <= frame.len(),
        0 <= i < on_air(frame, msg_id, index, count).len() - 2,
    ensures
        ({
            let b = on_air(frame, msg_id, index, count);
            &&& b[0] == msg_id
            &&& b[1] == 16 * index + count
            &&& b[2 + i] == frame[118 * index + i]
            &&& b.len() <= 120
            &&& 118 * (index + 1) <= frame.len() ==> b.len() == 120
            &&& 118 * (index + 1) > frame.len() ==> b.len() == 2 + frame.len() - 118 * index
        }),
{
}

/// A reading that fits its field is reported as it is: the strength as the
/// strength, the ratio as the ratio, and no quality.
pub proof fn readings_are_reported(rssi: i32, snr: i32)
    requires
        -0x8000 <= rssi < 0x8000,
        -0x80 <= snr < 0x80,
    ensures
        metrics_of(rssi, snr).rssi_dbm == Some(rssi as i16),
        metrics_of(rssi, snr).snr_db == Some(snr as i8),
        metrics_of(rssi, snr).quality is None,
{
    readings_keep_their_low_bits(rssi as int, 0x8000);
    readings_keep_their_low_bits(snr as int, 0x80);
}

} // verus!
