//! The client's side of the module's AT protocol: the commands it sends, how it
//! takes the module's bytes in line by line, and what counts as an answer.

use vstd::prelude::*;

use crate::bounded::BoundedQueue;
use crate::bounded::BoundedVec;
use crate::codec::overlay;
use crate::frag::piece_count;
use crate::frag::MAX_FRAGMENTS;
use crate::frame::frame_bytes;
use crate::frame::LinkFrame;
use crate::frame::LinkFrameData;
use crate::frame::Mac;
use crate::link::LinkError;
use crate::link::LinkMetrics;
use crate::reassembly::InFlight;
use crate::reassembly::Reassembler;
use crate::rylr998::hex::decode_hex;
use crate::rylr998::hex::decoded;
use crate::rylr998::hex::hex_text;
use crate::rylr998::link::arrival;
use crate::rylr998::link::fragment_texts;
use crate::rylr998::link::metrics_from;
use crate::rylr998::link::metrics_of;
use crate::rylr998::link::on_air;
use crate::rylr998::link::Arrival;
use crate::rylr998::link::FRAG_PAYLOAD;
use crate::rylr998::link::HEADER_LEN;
use crate::rylr998::link::MAX_FRAME_LEN;
use crate::rylr998::link::MAX_REASSEMBLED_LEN;
use crate::rylr998::link::RYLR_BROADCAST_ADDR;
use crate::rylr998::rcv::comma_free;
use crate::rylr998::rcv::copied;
use crate::rylr998::rcv::packet_of;
use crate::rylr998::rcv::parse_rcv;
use crate::rylr998::rcv::push_bytes;
use crate::rylr998::rcv::push_comma;
use crate::rylr998::rcv::push_line_end;
use crate::rylr998::rcv::rcv_line;
use crate::rylr998::rcv::report_reads_back;
use crate::rylr998::rcv::Packet;
use crate::rylr998::rcv::ReceivedPacket;
use crate::rylr998::rcv::MAX_DATA_LEN;
use crate::ascii::ascii;
use crate::ascii::decimal;
use crate::ascii::decimal_spells;
use crate::ascii::has_prefix;
use crate::ascii::is_digit;
use crate::ascii::parse_signed;
use crate::ascii::parsed_signed;
use crate::ascii::parsed_unsigned;
use crate::ascii::prefix_is_the_front;
use crate::ascii::push_decimal;
use crate::ascii::push_text;
use crate::ascii::signed_decimal;
use crate::ascii::space_alone_comes_to_nothing;
use crate::ascii::starts_with;
use crate::ascii::trim;
use crate::ascii::trim_keeps_bare;
use crate::ascii::trimmed;
use crate::ascii::unsigned_reads_back;
use crate::rylr998::sim::awaits_the_answers;
use crate::rylr998::sim::meaning_of;
use crate::rylr998::sim::module_understands_address;
use crate::rylr998::sim::module_understands_band;
use crate::rylr998::sim::module_understands_baud_rate;
use crate::rylr998::sim::module_understands_mode;
use crate::rylr998::sim::module_understands_network_id;
use crate::rylr998::sim::module_understands_output_power;
use crate::rylr998::sim::module_understands_parameters;
use crate::rylr998::sim::module_understands_plain_commands;
use crate::rylr998::sim::module_understands_send;
use crate::rylr998::sim::ok_is_awaited;
use crate::rylr998::sim::others_are_awaited;
use crate::rylr998::sim::Meaning;
use crate::time::Duration;

verus! {

/// An error from the module driver.
#[derive(Debug, Clone, Copy, PartialEq, Eq, Structural)]
pub enum LoraError {
    /// A read or write on the underlying serial port failed.
    Io,
    /// The module replied with a `+ERR=<code>` response; carries the code.
    ModuleError(i32),
    /// A module response could not be parsed into the expected form.
    InvalidResponse,
    /// The payload exceeds the module's maximum transmit size.
    RequestTooLarge,
    /// No response arrived within the command's timeout.
    Timeout,
}

/// Supported spreading factors.
#[derive(Debug, Clone, Copy, PartialEq, Eq, Structural)]
pub enum SpreadingFactory {
    /// Spreading factor 5 (fastest, shortest range).
    Sf5,
    /// Spreading factor 6.
    Sf6,
    /// Spreading factor 7.
    Sf7,
    /// Spreading factor 8.
    Sf8,
    /// Spreading factor 9.
    Sf9,
    /// Spreading factor 10.
    Sf10,
    /// Spreading factor 11 (slowest, longest range).
    Sf11,
}

impl SpreadingFactory {
    /// The number the module knows the setting by.
    pub open spec fn number(self) -> u8 {
        match self {
            SpreadingFactory::Sf5 => 5,
            SpreadingFactory::Sf6 => 6,
            SpreadingFactory::Sf7 => 7,
            SpreadingFactory::Sf8 => 8,
            SpreadingFactory::Sf9 => 9,
            SpreadingFactory::Sf10 => 10,
            SpreadingFactory::Sf11 => 11,
        }
    }

    /// The number the module knows the setting by.
    pub fn code(self) -> (n: u8)
        ensures
            n == self.number(),
    {
        match self {
            SpreadingFactory::Sf5 => 5,
            SpreadingFactory::Sf6 => 6,
            SpreadingFactory::Sf7 => 7,
            SpreadingFactory::Sf8 => 8,
            SpreadingFactory::Sf9 => 9,
            SpreadingFactory::Sf10 => 10,
            SpreadingFactory::Sf11 => 11,
        }
    }
}

/// Supported channel bandwidths.
#[derive(Debug, Clone, Copy, PartialEq, Eq, Structural)]
pub enum Bandwidth {
    /// 125 kHz channel bandwidth.
    Khz125,
    /// 250 kHz channel bandwidth.
    Khz250,
    /// 500 kHz channel bandwidth.
    Khz500,
}

impl Bandwidth {
    /// The number the module knows the setting by.
    pub open spec fn number(self) -> u8 {
        match self {
            Bandwidth::Khz125 => 7,
            Bandwidth::Khz250 => 8,
            Bandwidth::Khz500 => 9,
        }
    }

    /// The number the module knows the setting by.
    pub fn code(self) -> (n: u8)
        ensures
            n == self.number(),
    {
        match self {
            Bandwidth::Khz125 => 7,
            Bandwidth::Khz250 => 8,
            Bandwidth::Khz500 => 9,
        }
    }
}

/// Supported coding rates.
#[derive(Debug, Clone, Copy, PartialEq, Eq, Structural)]
pub enum CodingRate {
    /// Coding rate 4/5.
    Cr45,
    /// Coding rate 4/6.
    Cr46,
    /// Coding rate 4/7.
    Cr47,
    /// Coding rate 4/8.
    Cr48,
}

impl CodingRate {
    /// The number the module knows the setting by.
    pub open spec fn number(self) -> u8 {
        match self {
            CodingRate::Cr45 => 1,
            CodingRate::Cr46 => 2,
            CodingRate::Cr47 => 3,
            CodingRate::Cr48 => 4,
        }
    }

    /// The number the module knows the setting by.
    pub fn code(self) -> (n: u8)
        ensures
            n == self.number(),
    {
        match self {
            CodingRate::Cr45 => 1,
            CodingRate::Cr46 => 2,
            CodingRate::Cr47 => 3,
            CodingRate::Cr48 => 4,
        }
    }
}

/// Supported wireless working modes.
#[derive(Debug, Clone, Copy, PartialEq, Eq, Structural)]
pub enum WirelessMode {
    /// Normal transmit/receive operation.
    Transceiver,
    /// Low-power sleep; the module wakes on serial activity.
    Sleep,
    /// Smart receiving power-saving mode.
    SmartReceiving,
}

impl WirelessMode {
    /// The number the module knows the mode by.
    pub open spec fn number(self) -> u8 {
        match self {
            WirelessMode::Transceiver => 0,
            WirelessMode::Sleep => 1,
            WirelessMode::SmartReceiving => 2,
        }
    }

    /// The number the module knows the mode by.
    pub fn code(self) -> (n: u8)
        ensures
            n == self.number(),
    {
        match self {
            WirelessMode::Transceiver => 0,
            WirelessMode::Sleep => 1,
            WirelessMode::SmartReceiving => 2,
        }
    }
}

/// Supported EMC certification modes.
#[derive(Debug, Clone, Copy, PartialEq, Eq, Structural)]
pub enum EmcCertificationMode {
    /// EMC test mode disabled (normal operation).
    Off,
    /// Emit an unmodulated carrier for EMC certification testing.
    UnModulated,
    /// Emit a modulated carrier for EMC certification testing.
    Modulated,
}

/// How many packets can sit buffered while a command response is awaited before
/// the oldest is evicted to make room.
pub const RX_QUEUE_DEPTH: usize = 8;

/// Longest single line the module can send.
pub const LINE_BUF_LEN: usize = 300;

/// Seconds a command's response is awaited unless set otherwise.
pub const DEFAULT_TIMEOUT_SECS: u64 = 3;

/// The network a module is on unless set otherwise.
pub const DEFAULT_NETWORK_ID: u8 = 18;

/// A command: its text, without line end, and what the module answers when all is
/// well, as the starts of the lines to await in turn.
pub struct Request {
    pub text: Vec<u8>,
    pub expects: Vec<Vec<u8>>,
}

impl Request {
    /// The bytes that go to the module: the text, ended by carriage return and
    /// line feed unless it already is.
    pub fn wire_bytes(&self) -> (b: Vec<u8>)
        ensures
            b@ == line_of(self.text@),
    {
        let mut b: Vec<u8> = Vec::new();
        push_bytes(&mut b, self.text.as_slice());
        assert(b@ =~= self.text@);
        let n: usize = b.len();
        if n >= 2 && b[n - 2] == 13 && b[n - 1] == 10 {
            return b;
        }
        push_line_end(&mut b);
        b
    }
}

/// A command's text as it goes to the module.
pub open spec fn line_of(text: Seq<u8>) -> Seq<u8> {
    if text.len() >= 2 && text[text.len() - 2] == 13 && text[text.len() - 1] == 10 {
        text
    } else {
        text + seq![13u8, 10u8]
    }
}

/// A command whose text is a prefix and one number, awaiting one answer.
fn numbered(prefix: &str, n: u64, answer: &str) -> (r: Request)
    requires
        prefix.is_ascii(),
        answer.is_ascii(),
    ensures
        r.text@ == ascii(prefix@) + decimal(n as nat),
        r.expects@.len() == 1,
        r.expects@[0]@ == ascii(answer@),
{
    let mut text: Vec<u8> = Vec::new();
    push_text(&mut text, prefix);
    assert(text@ =~= ascii(prefix@));
    push_decimal(&mut text, n);
    let expects: Vec<Vec<u8>> = one(answer);
    Request { text, expects }
}

/// The list of one answer.
fn one(answer: &str) -> (v: Vec<Vec<u8>>)
    requires
        answer.is_ascii(),
    ensures
        v@.len() == 1,
        v@[0]@ == ascii(answer@),
{
    let mut first: Vec<u8> = Vec::new();
    push_text(&mut first, answer);
    assert(first@ =~= ascii(answer@));
    let mut v: Vec<Vec<u8>> = Vec::new();
    v.push(first);
    v
}

/// What one byte from the module amounted to.
pub enum Heard {
    /// The line goes on, or it was blank.
    Nothing,
    /// The line reported a packet, which is now queued.
    Queued,
    /// The line is anything else; carries it, without its line end.
    Line(Vec<u8>),
    /// The line overran the buffer, or was a malformed packet report.
    Failed(LoraError),
}

/// What one byte from the module amounts to.
#[verifier::ext_equal]
pub enum Hearing {
    Nothing,
    Queued(Packet),
    Line(Seq<u8>),
    Failed,
}

/// The bytes a character code below 256 takes in the line.
pub open spec fn char_bytes(byte: u8) -> Seq<u8> {
    if byte < 0x80 {
        seq![byte]
    } else {
        seq![(0xc0 + byte / 64) as u8, (0x80 + byte % 64) as u8]
    }
}

/// The line after one more byte, and what that byte amounts to: a line feed ends
/// the line, carriage returns are skipped, and any other byte is one character.
pub open spec fn hear(line: Seq<u8>, byte: u8) -> (Seq<u8>, Hearing) {
    if byte == 10 {
        let bare = trimmed(line);
        let hearing = if bare.len() == 0 {
            Hearing::Nothing
        } else if has_prefix(bare, ascii("+RCV="@)) {
            match packet_of(bare) {
                Some(packet) => Hearing::Queued(packet),
                None => Hearing::Failed,
            }
        } else {
            Hearing::Line(line)
        };
        (Seq::empty(), hearing)
    } else if byte == 13 {
        (line, Hearing::Nothing)
    } else if line.len() + char_bytes(byte).len() <= LINE_BUF_LEN {
        (line + char_bytes(byte), Hearing::Nothing)
    } else {
        (Seq::empty(), Hearing::Failed)
    }
}

/// The queue with one more packet: a full queue gives up its oldest.
pub open spec fn enqueued(queue: Seq<Packet>, packet: Packet) -> Seq<Packet> {
    if queue.len() >= RX_QUEUE_DEPTH {
        queue.drop_first().push(packet)
    } else {
        queue.push(packet)
    }
}

/// What a line says to a client that awaits one starting with `expected`.
#[derive(Debug, Clone, Copy, PartialEq, Eq, Structural)]
pub enum Answer {
    /// The line awaited.
    Matched,
    /// The module reported an error.
    Refused(LoraError),
    /// Neither; keep waiting.
    Noise,
}

/// The code an error line carries; zero where it is not a number.
pub open spec fn error_code(bare: Seq<u8>) -> i32 {
    let start = ascii("+ERR="@).len() as int;
    match parsed_signed(bare.subrange(start, bare.len() as int)) {
        Some(code) => code as i32,
        None => 0,
    }
}

/// What a line says to a client that awaits one starting with `expected`.
pub open spec fn answer_to(line: Seq<u8>, expected: Seq<u8>) -> Answer {
    let bare = trimmed(line);
    if has_prefix(bare, expected) {
        Answer::Matched
    } else if has_prefix(bare, ascii("+ERR="@)) {
        Answer::Refused(LoraError::ModuleError(error_code(bare)))
    } else {
        Answer::Noise
    }
}

/// Judge a line from the module against the answer awaited.
pub fn judge(line: &[u8], expected: &[u8]) -> (a: Answer)
    ensures
        a == answer_to(line@, expected@),
{
    let bare = trim(line);
    if starts_with(bare, expected) {
        return Answer::Matched;
    }
    proof {
        reveal_strlit("+ERR=");
    }
    let mut prefix: Vec<u8> = Vec::new();
    push_text(&mut prefix, "+ERR=");
    assert(prefix@ =~= ascii("+ERR="@));
    if starts_with(bare, prefix.as_slice()) {
        let code: i32 = match parse_signed(&bare[prefix.len()..bare.len()]) {
            Some(n) => n,
            None => 0,
        };
        Answer::Refused(LoraError::ModuleError(code))
    } else {
        Answer::Noise
    }
}

/// How far a command has come.
#[derive(Debug, Clone, Copy, PartialEq, Eq, Structural)]
pub enum Progress {
    /// The answer at this place of the list is awaited.
    Awaiting(usize),
    /// Every answer has come.
    Done,
    /// The module reported an error.
    Failed(LoraError),
}

/// How far a command has come once the first `n` of its answers have come.
pub open spec fn awaiting(expects: Seq<Vec<u8>>, n: int) -> Progress {
    if n < expects.len() {
        Progress::Awaiting(n as usize)
    } else {
        Progress::Done
    }
}

impl Request {
    /// How far the command has come when it has just been sent.
    pub fn sent(&self) -> (p: Progress)
        ensures
            p == awaiting(self.expects@, 0),
    {
        if self.expects.len() > 0 {
            Progress::Awaiting(0)
        } else {
            Progress::Done
        }
    }

    /// How far the command has come after one more line, while the answer at
    /// `awaited` is awaited.
    pub fn after_line(&self, awaited: usize, line: &[u8]) -> (p: Progress)
        requires
            awaited < self.expects@.len(),
        ensures
            p == (match answer_to(line@, self.expects@[awaited as int]@) {
                Answer::Matched => awaiting(self.expects@, awaited + 1),
                Answer::Refused(e) => Progress::Failed(e),
                Answer::Noise => Progress::Awaiting(awaited),
            }),
    {
        match judge(line, self.expects[awaited].as_slice()) {
            Answer::Matched => if awaited < self.expects.len() - 1 {
                Progress::Awaiting(awaited + 1)
            } else {
                Progress::Done
            },
            Answer::Refused(e) => Progress::Failed(e),
            Answer::Noise => Progress::Awaiting(awaited),
        }
    }
}

/// The module's identifier, read from its `+UID=` line: empty where the line does
/// not start so, and refused where it is over 64 bytes.
pub fn module_id(line: &[u8]) -> (r: Result<BoundedVec<u8, 64>, LoraError>)
    ensures
        ({
            let prefix = ascii("+UID="@);
            let id = if has_prefix(line@, prefix) {
                line@.subrange(prefix.len() as int, line@.len() as int)
            } else {
                Seq::empty()
            };
            match r {
                Ok(uid) => uid@ == id && id.len() <= 64,
                Err(e) => e == LoraError::InvalidResponse && id.len() > 64,
            }
        }),
{
    proof {
        reveal_strlit("+UID=");
    }
    let mut prefix: Vec<u8> = Vec::new();
    push_text(&mut prefix, "+UID=");
    assert(prefix@ =~= ascii("+UID="@));
    if !starts_with(line, prefix.as_slice()) {
        return Ok(BoundedVec::new());
    }
    let id = &line[prefix.len()..line.len()];
    if id.len() > 64 {
        return Err(LoraError::InvalidResponse);
    }
    Ok(copied(id))
}

/// The client driver: the serial port it speaks over, and what it remembers
/// between bytes.
pub struct RylrClient<S> {
    /// The serial port.
    pub stream: S,
    timeout: Duration,
    network_id: u8,
    rx_queue: BoundedQueue<ReceivedPacket, 8>,
    line: BoundedVec<u8, 300>,
    msg_id_ctr: u8,
    rx_frame: [u8; 512],
    reassembler: Reassembler<4, 118, 512>,
}

/// What a client remembers, seen as plain values.
#[verifier::ext_equal]
pub struct ClientState {
    /// How long a command's response is awaited.
    pub timeout: Duration,
    /// The network the client is on.
    pub network_id: u8,
    /// The packets not yet delivered, oldest first.
    pub queue: Seq<Packet>,
    /// The line being received.
    pub line: Seq<u8>,
    /// The number of the next message sent.
    pub msg_id: u8,
    /// The messages being reassembled.
    pub in_flight: Seq<InFlight>,
}

impl<S> View for RylrClient<S> {
    type V = ClientState;

    closed spec fn view(&self) -> ClientState {
        ClientState {
            timeout: self.timeout,
            network_id: self.network_id,
            queue: Seq::new(self.rx_queue@.len(), |i: int| self.rx_queue@[i]@),
            line: self.line@,
            msg_id: self.msg_id_ctr,
            in_flight: self.reassembler@,
        }
    }
}

impl<S> RylrClient<S> {
    /// The queue and the line are within their bounds, and so is the reassembly
    /// table.
    pub closed spec fn wf(&self) -> bool {
        &&& self.rx_queue@.len() <= RX_QUEUE_DEPTH
        &&& self.line@.len() <= LINE_BUF_LEN
        &&& self.reassembler.wf()
    }

    /// The serial port.
    pub closed spec fn port(&self) -> S {
        self.stream
    }

    /// The frame last reassembled stands at the front of this buffer.
    pub closed spec fn frame_buffer(&self) -> Seq<u8> {
        self.rx_frame@
    }

    /// A sound client holds no more than its bounds.
    pub proof fn bounds(&self)
        requires
            self.wf(),
        ensures
            self@.queue.len() <= RX_QUEUE_DEPTH,
            self@.line.len() <= LINE_BUF_LEN,
            self.frame_buffer().len() == 512,
    {
    }

    /// A client over the given serial port.
    pub fn new(stream: S) -> (r: Result<RylrClient<S>, LoraError>)
        ensures
            match r {
                Ok(client) => {
                    &&& client.wf()
                    &&& client.port() == stream
                    &&& client@ == (ClientState {
                        timeout: Duration { nanos: 3_000_000_000 },
                        network_id: DEFAULT_NETWORK_ID,
                        queue: Seq::empty(),
                        line: Seq::empty(),
                        msg_id: 0,
                        in_flight: Seq::empty(),
                    })
                    &&& client.frame_buffer() == Seq::new(512, |i: int| 0u8)
                },
                Err(_) => false,
            },
    {
        let client = RylrClient {
            stream,
            timeout: Duration::from_secs(DEFAULT_TIMEOUT_SECS),
            network_id: DEFAULT_NETWORK_ID,
            rx_queue: BoundedQueue::new(),
            line: BoundedVec::new(),
            msg_id_ctr: 0,
            rx_frame: [0u8; 512],
            reassembler: Reassembler::new(),
        };
        assert(client@.queue =~= Seq::empty());
        assert(client.frame_buffer() =~= Seq::new(512, |i: int| 0u8));
        Ok(client)
    }

    /// Set how long a command's response is awaited.
    pub fn set_timeout(&mut self, timeout: Duration)
        requires
            old(self).wf(),
        ensures
            final(self).wf(),
            final(self)@ == (ClientState { timeout, ..old(self)@ }),
            final(self).port() == old(self).port(),
            final(self).frame_buffer() == old(self).frame_buffer(),
    {
        self.timeout = timeout;
    }

    /// How long a command's response is awaited.
    pub fn timeout(&self) -> (t: Duration)
        ensures
            t == self@.timeout,
    {
        self.timeout
    }

    /// Remember the network, once the module has accepted it.
    pub fn network_id_accepted(&mut self, network_id: u8)
        requires
            old(self).wf(),
        ensures
            final(self).wf(),
            final(self)@ == (ClientState { network_id, ..old(self)@ }),
            final(self).port() == old(self).port(),
            final(self).frame_buffer() == old(self).frame_buffer(),
    {
        self.network_id = network_id;
    }

    /// The network the client is on.
    pub fn network_id(&self) -> (n: u8)
        ensures
            n == self@.network_id,
    {
        self.network_id
    }

    /// Forget what has arrived of the current line.
    pub fn discard_line(&mut self)
        requires
            old(self).wf(),
        ensures
            final(self).wf(),
            final(self)@ == (ClientState { line: Seq::empty(), ..old(self)@ }),
            final(self).port() == old(self).port(),
            final(self).frame_buffer() == old(self).frame_buffer(),
    {
        self.line.clear();
    }

    /// Take one byte from the module in.
    pub fn take_byte(&mut self, byte: u8) -> (h: Heard)
        requires
            old(self).wf(),
        ensures
            final(self).wf(),
            final(self).port() == old(self).port(),
            final(self).frame_buffer() == old(self).frame_buffer(),
            ({
                let (line, hearing) = hear(old(self)@.line, byte);
                match hearing {
                    Hearing::Nothing => h is Nothing && final(self)@ == (ClientState {
                        line,
                        ..old(self)@
                    }),
                    Hearing::Queued(packet) => h is Queued && final(self)@ == (ClientState {
                        line,
                        queue: enqueued(old(self)@.queue, packet),
                        ..old(self)@
                    }),
                    Hearing::Line(text) => {
                        &&& h is Line
                        &&& h->Line_0@ == text
                        &&& final(self)@ == (ClientState { line, ..old(self)@ })
                    },
                    Hearing::Failed => h == Heard::Failed(LoraError::InvalidResponse)
                        && final(self)@ == (ClientState { line, ..old(self)@ }),
                }
            }),
    {
        if byte == 13 {
            return Heard::Nothing;
        }
        if byte != 10 {
            return self.push_char(byte);
        }
        let mut line: Vec<u8> = Vec::new();
        push_bytes(&mut line, self.line.items());
        assert(line@ =~= self.line@);
        self.line.clear();
        let bare = trim(line.as_slice());
        if bare.len() == 0 {
            return Heard::Nothing;
        }
        proof {
            reveal_strlit("+RCV=");
        }
        let mut prefix: Vec<u8> = Vec::new();
        push_text(&mut prefix, "+RCV=");
        assert(prefix@ =~= ascii("+RCV="@));
        if !starts_with(bare, prefix.as_slice()) {
            return Heard::Line(line);
        }
        match parse_rcv(bare) {
            Ok(packet) => {
                self.enqueue(packet);
                Heard::Queued
            },
            Err(_) => Heard::Failed(LoraError::InvalidResponse),
        }
    }

    /// Add one character to the line.
    fn push_char(&mut self, byte: u8) -> (h: Heard)
        requires
            old(self).wf(),
        ensures
            final(self).wf(),
            final(self).port() == old(self).port(),
            final(self).frame_buffer() == old(self).frame_buffer(),
            ({
                let line = old(self)@.line;
                if line.len() + char_bytes(byte).len() <= LINE_BUF_LEN {
                    h is Nothing && final(self)@ == (ClientState {
                        line: line + char_bytes(byte),
                        ..old(self)@
                    })
                } else {
                    h == Heard::Failed(LoraError::InvalidResponse) && final(self)@ == (
                    ClientState { line: Seq::empty(), ..old(self)@ })
                }
            }),
    {
        let ghost line = self.line@;
        if byte < 0x80 {
            if !self.line.push(byte) {
                self.line.clear();
                return Heard::Failed(LoraError::InvalidResponse);
            }
            assert(self.line@ =~= line + char_bytes(byte));
            return Heard::Nothing;
        }
        if self.line.len() + 2 > LINE_BUF_LEN {
            self.line.clear();
            return Heard::Failed(LoraError::InvalidResponse);
        }
        let first: bool = self.line.push(0xc0 + byte / 64);
        let second: bool = self.line.push(0x80 + byte % 64);
        assert(self.line@ =~= line + char_bytes(byte));
        Heard::Nothing
    }

    /// Queue a packet, evicting the oldest where there is no room.
    fn enqueue(&mut self, packet: ReceivedPacket)
        requires
            old(self).wf(),
        ensures
            final(self).wf(),
            final(self)@ == (ClientState {
                queue: enqueued(old(self)@.queue, packet@),
                ..old(self)@
            }),
            final(self).port() == old(self).port(),
            final(self).frame_buffer() == old(self).frame_buffer(),
    {
        if self.rx_queue.is_full() {
            let evicted = self.rx_queue.pop_front();
        }
        let pushed: bool = self.rx_queue.push_back(packet);
        assert(self@.queue =~= enqueued(old(self)@.queue, packet@));
    }

    /// Take the oldest packet not yet delivered.
    pub fn listen_for_packet(&mut self) -> (packet: Option<ReceivedPacket>)
        requires
            old(self).wf(),
        ensures
            final(self).wf(),
            final(self).port() == old(self).port(),
            final(self).frame_buffer() == old(self).frame_buffer(),
            match packet {
                Some(p) => {
                    &&& old(self)@.queue.len() > 0
                    &&& p@ == old(self)@.queue[0]
                    &&& final(self)@ == (ClientState {
                        queue: old(self)@.queue.drop_first(),
                        ..old(self)@
                    })
                },
                None => old(self)@.queue.len() == 0 && final(self)@ == old(self)@,
            },
    {
        let packet = self.rx_queue.pop_front();
        proof {
            if packet is Some {
                assert(self@.queue =~= old(self)@.queue.drop_first());
            } else {
                assert(self@.queue =~= old(self)@.queue);
            }
        }
        packet
    }

    /// Test whether the module responds.
    pub fn ping(&self) -> (r: Request)
        ensures
            r.text@ == ascii("AT"@),
            r.expects@.len() == 1,
            r.expects@[0]@ == ascii("+OK"@),
            meaning_of(r.text@) == Meaning::Ping,
            awaits_the_answers(r.expects@, Meaning::Ping),
    {
        proof {
            reveal_strlit("AT");
            reveal_strlit("+OK");
        }
        let mut text: Vec<u8> = Vec::new();
        push_text(&mut text, "AT");
        assert(text@ =~= ascii("AT"@));
        let r = Request { text, expects: one("+OK") };
        proof {
            module_understands_plain_commands();
            ok_is_awaited(r.expects@, Meaning::Ping);
        }
        r
    }

    /// Restart the module, which reports the restart and then that it is ready.
    pub fn reset(&self) -> (r: Request)
        ensures
            r.text@ == ascii("AT+RESET"@),
            r.expects@.len() == 2,
            r.expects@[0]@ == ascii("+RESET"@),
            r.expects@[1]@ == ascii("+READY"@),
            meaning_of(r.text@) == Meaning::Reset,
            awaits_the_answers(r.expects@, Meaning::Reset),
    {
        proof {
            reveal_strlit("AT+RESET");
            reveal_strlit("+RESET");
            reveal_strlit("+READY");
        }
        let mut text: Vec<u8> = Vec::new();
        push_text(&mut text, "AT+RESET");
        assert(text@ =~= ascii("AT+RESET"@));
        let mut expects: Vec<Vec<u8>> = one("+RESET");
        let mut ready: Vec<u8> = Vec::new();
        push_text(&mut ready, "+READY");
        assert(ready@ =~= ascii("+READY"@));
        expects.push(ready);
        let r = Request { text, expects };
        proof {
            module_understands_plain_commands();
            others_are_awaited(r.expects@, 0);
        }
        r
    }

    /// Set the wireless work mode.
    pub fn set_mode(&self, mode: WirelessMode) -> (r: Request)
        ensures
            r.text@ == ascii("AT+MODE="@) + decimal(mode.number() as nat),
            r.expects@.len() == 1,
            r.expects@[0]@ == ascii("+OK"@),
            meaning_of(r.text@) == Meaning::Mode(mode.number()),
            awaits_the_answers(r.expects@, Meaning::Mode(mode.number())),
    {
        proof {
            reveal_strlit("AT+MODE=");
            reveal_strlit("+OK");
        }
        let r = numbered("AT+MODE=", mode.code() as u64, "+OK");
        proof {
            module_understands_mode(mode.number());
            ok_is_awaited(r.expects@, Meaning::Mode(mode.number()));
        }
        r
    }

    /// Set the serial baud rate, which the module answers with.
    pub fn set_baud_rate(&self, baud_rate: u32) -> (r: Request)
        ensures
            r.text@ == ascii("AT+IPR="@) + decimal(baud_rate as nat),
            r.expects@.len() == 1,
            r.expects@[0]@ == ascii("+IPR="@) + decimal(baud_rate as nat),
            meaning_of(r.text@) == Meaning::BaudRate(baud_rate),
            awaits_the_answers(r.expects@, Meaning::BaudRate(baud_rate)),
    {
        proof {
            reveal_strlit("AT+IPR=");
            reveal_strlit("+IPR=");
        }
        let mut text: Vec<u8> = Vec::new();
        push_text(&mut text, "AT+IPR=");
        assert(text@ =~= ascii("AT+IPR="@));
        push_decimal(&mut text, baud_rate as u64);
        let mut answer: Vec<u8> = Vec::new();
        push_text(&mut answer, "+IPR=");
        assert(answer@ =~= ascii("+IPR="@));
        push_decimal(&mut answer, baud_rate as u64);
        let mut expects: Vec<Vec<u8>> = Vec::new();
        expects.push(answer);
        let r = Request { text, expects };
        proof {
            module_understands_baud_rate(baud_rate);
            others_are_awaited(r.expects@, baud_rate);
        }
        r
    }

    /// Set the radio frequency in Hz, and whether the module keeps it in flash.
    pub fn set_rf_frequency(&self, frequency: u32, remember_in_flash: bool) -> (r: Request)
        ensures
            r.text@ == ascii("AT+BAND="@) + decimal(frequency as nat) + (if remember_in_flash {
                ascii(",M"@)
            } else {
                Seq::empty()
            }),
            r.expects@.len() == 1,
            r.expects@[0]@ == ascii("+OK"@),
            meaning_of(r.text@) == Meaning::Band(frequency),
            awaits_the_answers(r.expects@, Meaning::Band(frequency)),
    {
        proof {
            reveal_strlit("AT+BAND=");
            reveal_strlit(",M");
            reveal_strlit("+OK");
        }
        let mut r = numbered("AT+BAND=", frequency as u64, "+OK");
        let ghost bare = r.text@;
        if remember_in_flash {
            push_text(&mut r.text, ",M");
        } else {
            assert(bare =~= bare + Seq::<u8>::empty());
        }
        proof {
            module_understands_band(frequency);
            ok_is_awaited(r.expects@, Meaning::Band(frequency));
        }
        r
    }

    /// Set the radio parameters.
    pub fn set_parameters(
        &self,
        spreading_factor: SpreadingFactory,
        bandwidth: Bandwidth,
        coding_rate: CodingRate,
        programming_preamble: u8,
    ) -> (r: Request)
        ensures
            r.text@ == ascii("AT+PARAMETER="@) + decimal(spreading_factor.number() as nat)
                + seq![44u8] + decimal(bandwidth.number() as nat) + seq![44u8] + decimal(
                coding_rate.number() as nat,
            ) + seq![44u8] + decimal(programming_preamble as nat),
            r.expects@.len() == 1,
            r.expects@[0]@ == ascii("+OK"@),
            meaning_of(r.text@) == Meaning::Parameters,
            awaits_the_answers(r.expects@, Meaning::Parameters),
    {
        proof {
            reveal_strlit("AT+PARAMETER=");
            reveal_strlit("+OK");
        }
        let mut r = numbered("AT+PARAMETER=", spreading_factor.code() as u64, "+OK");
        push_comma(&mut r.text);
        push_decimal(&mut r.text, bandwidth.code() as u64);
        push_comma(&mut r.text);
        push_decimal(&mut r.text, coding_rate.code() as u64);
        push_comma(&mut r.text);
        push_decimal(&mut r.text, programming_preamble as u64);
        proof {
            module_understands_parameters(
                spreading_factor,
                bandwidth,
                coding_rate,
                programming_preamble,
            );
            ok_is_awaited(r.expects@, Meaning::Parameters);
        }
        r
    }

    /// Set the module's own address.
    pub fn set_address(&self, address: u16) -> (r: Request)
        ensures
            r.text@ == ascii("AT+ADDRESS="@) + decimal(address as nat),
            r.expects@.len() == 1,
            r.expects@[0]@ == ascii("+OK"@),
            meaning_of(r.text@) == Meaning::Address(address),
            awaits_the_answers(r.expects@, Meaning::Address(address)),
    {
        proof {
            reveal_strlit("AT+ADDRESS=");
            reveal_strlit("+OK");
        }
        let r = numbered("AT+ADDRESS=", address as u64, "+OK");
        proof {
            module_understands_address(address);
            ok_is_awaited(r.expects@, Meaning::Address(address));
        }
        r
    }

    /// Set the network the module is on.
    pub fn set_network_id(&self, network_id: u8) -> (r: Request)
        ensures
            r.text@ == ascii("AT+NETWORKID="@) + decimal(network_id as nat),
            r.expects@.len() == 1,
            r.expects@[0]@ == ascii("+OK"@),
            meaning_of(r.text@) == Meaning::NetworkId(network_id),
            awaits_the_answers(r.expects@, Meaning::NetworkId(network_id)),
    {
        proof {
            reveal_strlit("AT+NETWORKID=");
            reveal_strlit("+OK");
        }
        let r = numbered("AT+NETWORKID=", network_id as u64, "+OK");
        proof {
            module_understands_network_id(network_id);
            ok_is_awaited(r.expects@, Meaning::NetworkId(network_id));
        }
        r
    }

    /// Set the output power in dBm.
    pub fn set_rf_output_power(&self, dbm: u8) -> (r: Request)
        ensures
            r.text@ == ascii("AT+CRFOP="@) + decimal(dbm as nat),
            r.expects@.len() == 1,
            r.expects@[0]@ == ascii("+OK"@),
            meaning_of(r.text@) == Meaning::OutputPower(dbm),
            awaits_the_answers(r.expects@, Meaning::OutputPower(dbm)),
    {
        proof {
            reveal_strlit("AT+CRFOP=");
            reveal_strlit("+OK");
        }
        let r = numbered("AT+CRFOP=", dbm as u64, "+OK");
        proof {
            module_understands_output_power(dbm);
            ok_is_awaited(r.expects@, Meaning::OutputPower(dbm));
        }
        r
    }

    /// Send data to the module at an address; address 0 broadcasts.  Data over
    /// what the module takes is refused.
    pub fn send_data(&self, target_address: u16, data: &[u8]) -> (r: Result<Request, LoraError>)
        ensures
            match r {
                Ok(request) => {
                    &&& data@.len() <= MAX_DATA_LEN
                    &&& request.text@ == send_text(target_address, data@)
                    &&& meaning_of(request.text@) == Meaning::Send(target_address, data@)
                    &&& request.expects@.len() == 1
                    &&& request.expects@[0]@ == ascii("+OK"@)
                },
                Err(e) => e == LoraError::RequestTooLarge && data@.len() > MAX_DATA_LEN,
            },
    {
        let len: usize = data.len();
        if len > MAX_DATA_LEN {
            return Err(LoraError::RequestTooLarge);
        }
        proof {
            reveal_strlit("AT+SEND=");
            reveal_strlit("+OK");
        }
        let mut r = numbered("AT+SEND=", target_address as u64, "+OK");
        push_comma(&mut r.text);
        push_decimal(&mut r.text, len as u64);
        push_comma(&mut r.text);
        push_bytes(&mut r.text, data);
        proof {
            module_understands_send(target_address, data@);
        }
        Ok(r)
    }

    /// Ask for the module's identifier.
    pub fn query_module_id(&self) -> (r: Request)
        ensures
            r.text@ == ascii("AT+UID?"@),
            r.expects@.len() == 1,
            r.expects@[0]@ == ascii("+UID="@),
            meaning_of(r.text@) == Meaning::ModuleId,
            awaits_the_answers(r.expects@, Meaning::ModuleId),
    {
        proof {
            reveal_strlit("AT+UID?");
            reveal_strlit("+UID=");
        }
        let mut text: Vec<u8> = Vec::new();
        push_text(&mut text, "AT+UID?");
        assert(text@ =~= ascii("AT+UID?"@));
        let r = Request { text, expects: one("+UID=") };
        proof {
            module_understands_plain_commands();
            others_are_awaited(r.expects@, 0);
        }
        r
    }
}

impl<S> RylrClient<S> {
    /// The number for the next message, counting up and wrapping at 256.
    pub fn next_msg_id(&mut self) -> (id: u8)
        requires
            old(self).wf(),
        ensures
            final(self).wf(),
            id == old(self)@.msg_id,
            final(self)@ == (ClientState { msg_id: after(id), ..old(self)@ }),
            final(self).port() == old(self).port(),
            final(self).frame_buffer() == old(self).frame_buffer(),
    {
        let id: u8 = self.msg_id_ctr;
        self.msg_id_ctr = if id == 255 { 0 } else { id + 1 };
        id
    }

    /// The commands that send a frame, one for each of its fragments in order, and
    /// the frame's length.  A frame over what the link handles is refused.
    pub fn send(&mut self, origin: Mac, data: &LinkFrameData<'_>) -> (r: Result<
        (Vec<Request>, usize),
        LinkError,
    >)
        requires
            old(self).wf(),
        ensures
            final(self).wf(),
            final(self).port() == old(self).port(),
            final(self).frame_buffer() == old(self).frame_buffer(),
            match r {
                Ok((requests, len)) => {
                    let frame = frame_bytes(data.dst, origin, data.protocol, data.payload@);
                    let id = old(self)@.msg_id;
                    let count = requests@.len() as int;
                    &&& len == frame.len()
                    &&& len <= MAX_REASSEMBLED_LEN
                    &&& count == piece_count(len as nat, FRAG_PAYLOAD as nat)
                    &&& count <= MAX_FRAGMENTS
                    &&& forall|i: int|
                        0 <= i < count ==> (#[trigger] requests@[i]).text@ == send_text(
                            RYLR_BROADCAST_ADDR,
                            hex_text(on_air(frame, id, i, count)),
                        )
                    &&& forall|i: int|
                        0 <= i < count ==> (#[trigger] requests@[i]).expects@.len() == 1
                            && requests@[i].expects@[0]@ == ascii("+OK"@)
                    &&& final(self)@ == (ClientState { msg_id: after(id), ..old(self)@ })
                },
                Err(e) => {
                    &&& e == LinkError::BufferFull
                    &&& HEADER_LEN + data.payload@.len() > MAX_REASSEMBLED_LEN
                    &&& final(self)@ == old(self)@
                },
            },
    {
        let id: u8 = self.msg_id_ctr;
        let (texts, len) = match fragment_texts(origin, data, id) {
            Ok(split) => split,
            Err(e) => {
                return Err(e);
            },
        };
        let used: u8 = self.next_msg_id();
        let ghost frame = frame_bytes(data.dst, origin, data.protocol, data.payload@);
        let count: usize = texts.len();
        let mut requests: Vec<Request> = Vec::new();
        let mut i: usize = 0;
        while i < count
            invariant
                i <= count,
                count == texts@.len(),
                requests@.len() == i,
                frame.len() <= MAX_REASSEMBLED_LEN,
                count == piece_count(frame.len(), FRAG_PAYLOAD as nat),
                forall|j: int|
                    0 <= j < texts@.len() ==> (#[trigger] texts@[j])@ == hex_text(
                        on_air(frame, id, j, texts@.len() as int),
                    ),
                forall|j: int|
                    0 <= j < i ==> (#[trigger] requests@[j]).text@ == send_text(
                        RYLR_BROADCAST_ADDR,
                        hex_text(on_air(frame, id, j, count as int)),
                    ),
                forall|j: int|
                    0 <= j < i ==> (#[trigger] requests@[j]).expects@.len() == 1
                        && requests@[j].expects@[0]@ == ascii("+OK"@),
            decreases count - i,
        {
            let text = texts[i].items();
            assert(text@ == hex_text(on_air(frame, id, i as int, count as int)));
            assert(on_air(frame, id, i as int, count as int).len() <= MAX_FRAME_LEN);
            match self.send_data(RYLR_BROADCAST_ADDR, text) {
                Ok(request) => {
                    requests.push(request);
                },
                Err(e) => {
                    return Err(LinkError::from(e));
                },
            }
            i = i + 1;
        }
        Ok((requests, len))
    }

    /// Take a received packet in: when it completes a message, the message stands
    /// at the front of the frame buffer, and its length and the packet's metrics
    /// are returned.
    pub fn recv(&mut self, packet: &ReceivedPacket) -> (r: Result<
        Option<(usize, LinkMetrics)>,
        LinkError,
    >)
        requires
            old(self).wf(),
        ensures
            final(self).wf(),
            final(self).port() == old(self).port(),
            ({
                let (table, came) = arrival(old(self)@.in_flight, packet@);
                &&& final(self)@ == (ClientState { in_flight: table, ..old(self)@ })
                &&& match came {
                    Arrival::Refused(e) => {
                        &&& r == Err::<Option<(usize, LinkMetrics)>, LinkError>(e)
                        &&& final(self).frame_buffer() == old(self).frame_buffer()
                    },
                    Arrival::Waiting => {
                        &&& r == Ok::<Option<(usize, LinkMetrics)>, LinkError>(None)
                        &&& final(self).frame_buffer() == old(self).frame_buffer()
                    },
                    Arrival::Message(frame) => {
                        &&& r == Ok::<Option<(usize, LinkMetrics)>, LinkError>(
                            Some((frame.len() as usize, metrics_of(packet.rssi, packet.snr))),
                        )
                        &&& frame.len() <= MAX_REASSEMBLED_LEN
                        &&& final(self).frame_buffer() == overlay(
                            old(self).frame_buffer(),
                            0,
                            frame,
                        )
                    },
                }
            }),
    {
        let mut raw: [u8; 120] = [0u8; 120];
        let n: usize = match decode_hex(packet.data.items(), &mut raw) {
            Ok(n) => n,
            Err(e) => {
                return Err(e);
            },
        };
        assert(raw@.subrange(0, n as int) =~= decoded(packet.data@, n as int));
        let metrics = metrics_from(packet.rssi, packet.snr);
        let done = self.reassembler.take_packet(
            packet.address as u64,
            &raw[0..n],
            metrics,
            &mut self.rx_frame,
        );
        Ok(done)
    }

    /// The frame of `len` bytes at the front of the frame buffer.
    pub fn received_frame(&self, len: usize) -> (r: Result<LinkFrame<'_>, LinkError>)
        requires
            len <= MAX_REASSEMBLED_LEN,
        ensures
            match r {
                Ok(frame) => frame.bytes() == self.frame_buffer().subrange(0, len as int) && len
                    >= HEADER_LEN,
                Err(e) => e == LinkError::InvalidPacket && len < HEADER_LEN,
            },
    {
        match LinkFrame::ref_from_bytes(&self.rx_frame[0..len]) {
            Some(frame) => Ok(frame),
            None => Err(LinkError::InvalidPacket),
        }
    }
}

/// The message number after `id`.
pub open spec fn after(id: u8) -> u8 {
    if id == 255 {
        0
    } else {
        (id + 1) as u8
    }
}

/// The command that sends data.
pub open spec fn send_text(target: u16, data: Seq<u8>) -> Seq<u8> {
    ascii("AT+SEND="@) + decimal(target as nat) + seq![44u8] + decimal(data.len()) + seq![44u8]
        + data
}

/// The line and the queue after a run of bytes, as far as the client goes on
/// reading: packets are queued, and every other line is passed over.
pub open spec fn hear_all(line: Seq<u8>, queue: Seq<Packet>, bytes: Seq<u8>) -> (
    Seq<u8>,
    Seq<Packet>,
)
    decreases bytes.len(),
{
    if bytes.len() == 0 {
        (line, queue)
    } else {
        let (before, held) = hear_all(line, queue, bytes.drop_last());
        let (after, hearing) = hear(before, bytes.last());
        match hearing {
            Hearing::Queued(packet) => (after, enqueued(held, packet)),
            _ => (after, held),
        }
    }
}

/// Printable text is taken in as it stands.
pub proof fn printable_line_is_kept(queue: Seq<Packet>, text: Seq<u8>)
    requires
        text.len() <= LINE_BUF_LEN,
        forall|i: int| 0 <= i < text.len() ==> 32 <= #[trigger] text[i] < 0x80,
    ensures
        hear_all(Seq::empty(), queue, text) == (text, queue),
    decreases text.len(),
{
    if text.len() > 0 {
        let rest = text.drop_last();
        assert forall|i: int| 0 <= i < rest.len() implies 32 <= #[trigger] rest[i] < 0x80 by {
            assert(rest[i] == text[i]);
        }
        printable_line_is_kept(queue, rest);
        assert(rest + char_bytes(text.last()) =~= text);
    }
}

/// A packet report never answers a command: whatever is awaited, the packet is
/// queued and the client goes on waiting.
pub proof fn packets_are_never_answers(line: Seq<u8>)
    requires
        has_prefix(trimmed(line), ascii("+RCV="@)),
    ensures
        !(hear(line, 10).1 is Line),
        packet_of(trimmed(line)) is Some ==> hear(line, 10).1 == Hearing::Queued(
            packet_of(trimmed(line))->Some_0,
        ),
{
    reveal_strlit("+RCV=");
}

/// The newest packet is always kept, and no more than the queue's depth are.
pub proof fn newest_packet_is_kept(queue: Seq<Packet>, packet: Packet)
    requires
        queue.len() <= RX_QUEUE_DEPTH,
    ensures
        enqueued(queue, packet).len() <= RX_QUEUE_DEPTH,
        enqueued(queue, packet).last() == packet,
        queue.len() < RX_QUEUE_DEPTH ==> enqueued(queue, packet).drop_last() == queue,
        queue.len() == RX_QUEUE_DEPTH ==> enqueued(queue, packet).drop_last()
            == queue.drop_first(),
{
    if queue.len() < RX_QUEUE_DEPTH {
        assert(enqueued(queue, packet).drop_last() =~= queue);
    } else {
        assert(enqueued(queue, packet).drop_last() =~= queue.drop_first());
    }
}

/// A command goes to the module as its text and one line end.
pub proof fn commands_end_their_line(text: Seq<u8>)
    requires
        text.len() == 0 || text.last() != 10,
    ensures
        line_of(text).len() == text.len() + 2,
        line_of(text).take(text.len() as int) == text,
        line_of(text)[text.len() as int] == 13,
        line_of(text)[text.len() as int + 1] == 10,
        line_of(line_of(text)) == line_of(text),
{
    assert(line_of(text).take(text.len() as int) =~= text);
}

/// A character above ASCII is taken in as the two bytes that encode it.
pub proof fn characters_are_encoded(byte: u8)
    ensures
        byte < 0x80 ==> char_bytes(byte) == seq![byte],
        byte >= 0x80 ==> {
            let e = char_bytes(byte);
            &&& e.len() == 2
            &&& 0xc0 <= e[0] < 0xe0
            &&& 0x80 <= e[1] < 0xc0
            &&& (e[0] - 0xc0) * 64 + (e[1] - 0x80) == byte
        },
{
}

/// A line of printable text that is no report comes out whole at its end, and the
/// next begins empty; carriage returns leave no trace, and an empty line is passed
/// over.
pub proof fn lines_come_out_whole(text: Seq<u8>)
    requires
        text.len() > 0,
        text[0] > 32,
        text[0] < 0x80,
        text.last() > 32,
        text.last() < 0x80,
        text.len() < 5 || text.subrange(0, 5) != seq![43u8, 82, 67, 86, 61],
    ensures
        hear(text, 13) == (text, Hearing::Nothing),
        hear(text, 10) == (Seq::<u8>::empty(), Hearing::Line(text)),
        hear(Seq::empty(), 10) == (Seq::<u8>::empty(), Hearing::Nothing),
{
    reveal_strlit("+RCV=");
    assert(ascii("+RCV="@) =~= seq![43u8, 82, 67, 86, 61]);
    trim_keeps_bare(text);
    space_alone_comes_to_nothing(Seq::empty());
}

/// A packet the module reports is queued with what was reported of it.
pub proof fn reported_packet_is_queued(address: u16, data: Seq<u8>, rssi: i32, snr: i32)
    requires
        data.len() <= 240,
        comma_free(data),
    ensures
        hear(rcv_line(address, data, rssi, snr), 10) == (
            Seq::<u8>::empty(),
            Hearing::Queued(
                Packet { address, length: data.len() as usize, data, rssi, snr },
            ),
        ),
{
    reveal_strlit("+RCV=");
    let line = rcv_line(address, data, rssi, snr);
    report_reads_back(address, data, rssi, snr);
    let d = signed_decimal(snr as int);
    if snr < 0 {
        decimal_spells((-snr) as nat);
        let m = decimal((-snr) as nat);
        assert(is_digit(m[m.len() - 1]));
        assert(d.last() == m[m.len() - 1]);
    } else {
        decimal_spells(snr as nat);
        assert(is_digit(d[d.len() - 1]));
    }
    assert(line.last() == d.last());
    assert(line[0] == 43);
    trim_keeps_bare(line);
    assert(line.subrange(0, 5) =~= ascii("+RCV="@));
}

/// An overlong line fails, and the next begins empty.
pub proof fn overlong_lines_fail(line: Seq<u8>, byte: u8)
    requires
        line.len() >= 300,
        byte != 10,
        byte != 13,
    ensures
        hear(line, byte) == (Seq::<u8>::empty(), Hearing::Failed),
{
}

/// A line answers where, space around it aside, it starts as awaited; it refuses
/// where it is an error instead; and any other is passed over.
pub proof fn lines_answer_as_they_start(line: Seq<u8>, expected: Seq<u8>, rest: Seq<u8>)
    ensures
        trimmed(line) == expected + rest ==> answer_to(line, expected) == Answer::Matched,
        answer_to(line, expected) == Answer::Matched ==> has_prefix(trimmed(line), expected),
        answer_to(line, expected) is Refused ==> has_prefix(
            trimmed(line),
            seq![43u8, 69, 82, 82, 61],
        ),
        !has_prefix(trimmed(line), expected) && has_prefix(
            trimmed(line),
            seq![43u8, 69, 82, 82, 61],
        ) ==> answer_to(line, expected) is Refused,
{
    reveal_strlit("+ERR=");
    assert(ascii("+ERR="@) =~= seq![43u8, 69, 82, 82, 61]);
    prefix_is_the_front(trimmed(line), expected, rest);
}

/// Messages are numbered one after another, round from the last to zero.
pub proof fn message_numbers_follow(id: u8)
    ensures
        (after(id) - id - 1) % 256 == 0,
{
}

/// Every setting has a number of its own: spreading factors are known by
/// themselves, bandwidths from seven up, coding rates and modes from one and from
/// nought up.
pub proof fn settings_have_their_numbers(
    sf: SpreadingFactory,
    bw: Bandwidth,
    cr: CodingRate,
    mode: WirelessMode,
)
    ensures
        5 <= sf.number() <= 11,
        (sf.number() == 5) == (sf is Sf5),
        (sf.number() == 6) == (sf is Sf6),
        (sf.number() == 7) == (sf is Sf7),
        (sf.number() == 8) == (sf is Sf8),
        (sf.number() == 9) == (sf is Sf9),
        (sf.number() == 10) == (sf is Sf10),
        (sf.number() == 11) == (sf is Sf11),
        7 <= bw.number() <= 9,
        (bw.number() == 7) == (bw is Khz125),
        (bw.number() == 8) == (bw is Khz250),
        (bw.number() == 9) == (bw is Khz500),
        1 <= cr.number() <= 4,
        (cr.number() == 1) == (cr is Cr45),
        (cr.number() == 2) == (cr is Cr46),
        (cr.number() == 3) == (cr is Cr47),
        (cr.number() == 4) == (cr is Cr48),
        mode.number() <= 2,
        (mode.number() == 0) == (mode is Transceiver),
        (mode.number() == 1) == (mode is Sleep),
        (mode.number() == 2) == (mode is SmartReceiving),
{
}

/// The length a send command announces is that of its data.
pub proof fn send_announces_the_length(target: u16, data: Seq<u8>)
    ensures
        send_text(target, data) == seq![65u8, 84, 43, 83, 69, 78, 68, 61] + decimal(target as nat)
            + seq![44u8] + decimal(data.len()) + seq![44u8] + data,
        parsed_unsigned(decimal(data.len()), data.len()) == Some(data.len()),
{
    reveal_strlit("AT+SEND=");
    assert(ascii("AT+SEND="@) =~= seq![65u8, 84, 43, 83, 69, 78, 68, 61]);
    unsigned_reads_back(data.len(), data.len());
}

/// A command with answers to come awaits the first of them, and each line that
/// matches takes it one further, until none is left.
pub proof fn answers_are_awaited_in_turn(expects: Seq<Vec<u8>>, n: int)
    requires
        0 <= n <= expects.len() <= usize::MAX,
    ensures
        awaiting(expects, n) == Progress::Done <==> n == expects.len(),
        n < expects.len() ==> awaiting(expects, n) == Progress::Awaiting(n as usize),
{
}

/// Up to eight packets wait, in the order they came; a ninth takes the place of the
/// one that waited longest.
pub proof fn eight_packets_wait(queue: Seq<Packet>, packet: Packet, i: int)
    requires
        queue.len() <= 8,
    ensures
        queue.len() < 8 && 0 <= i < queue.len() ==> enqueued(queue, packet)[i] == queue[i],
        queue.len() == 8 && 0 <= i < 7 ==> enqueued(queue, packet)[i] == queue[i + 1],
        enqueued(queue, packet).len() == (if queue.len() < 8 {
            queue.len() + 1
        } else {
            8
        }),
        enqueued(queue, packet)[enqueued(queue, packet).len() - 1] == packet,
{
}

} // verus!
