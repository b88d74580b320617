//! A simulated module and the air between modules: what the module makes of each
//! command, and which modules hear what one of them sends.

use std::collections::HashMap;

use vstd::prelude::*;

use crate::rylr998::client::answer_to;
use crate::rylr998::client::send_text;
use crate::rylr998::client::Answer;
use crate::rylr998::client::Bandwidth;
use crate::rylr998::client::CodingRate;
use crate::rylr998::client::LoraError;
use crate::rylr998::client::SpreadingFactory;
use crate::rylr998::rcv::comma_free;
use crate::rylr998::rcv::packet_of;
use crate::rylr998::rcv::push_bytes;
use crate::rylr998::rcv::push_line_end;
use crate::rylr998::rcv::rcv_line;
use crate::rylr998::rcv::report_line;
use crate::rylr998::rcv::report_reads_back;
use crate::rylr998::rcv::Packet;
use crate::ascii::ascii;
use crate::ascii::decimal;
use crate::ascii::decimal_spells;
use crate::ascii::find_byte;
use crate::ascii::has_prefix;
use crate::ascii::is_digit;
use crate::ascii::next_at;
use crate::ascii::next_at_is;
use crate::ascii::parse_unsigned;
use crate::ascii::parsed_unsigned;
use crate::ascii::push_decimal;
use crate::ascii::push_signed;
use crate::ascii::push_text;
use crate::ascii::signed_decimal;
use crate::ascii::signed_reads_back;
use crate::ascii::starts_with;
use crate::ascii::trim_keeps_bare;
use crate::ascii::unsigned_reads_back;

verus! {

/// A module's radio configuration.
#[derive(Debug, Clone, Copy, PartialEq, Eq, Structural)]
pub struct NodeState {
    /// The module's own address.
    pub address: u16,
    /// The network the module is on.
    pub network_id: u8,
    /// The radio frequency, in Hz.
    pub frequency: u32,
    /// The wireless mode: 0 = Transceiver, 1 = Sleep, 2 = SmartReceiving.
    pub mode: u8,
}

impl Default for NodeState {
    fn default() -> (s: NodeState)
        ensures
            s == (NodeState { address: 0, network_id: 0, frequency: 0, mode: 0 }),
    {
        NodeState { address: 0, network_id: 0, frequency: 0, mode: 0 }
    }
}

/// A packet put on the air, with the sender's configuration at that time.
#[derive(Debug, Clone)]
pub struct SentPacket {
    /// The sender's address.
    pub source_address: u16,
    /// The address sent to; 0 broadcasts.
    pub target_address: u16,
    /// The data as the command carried it.
    pub data: Vec<u8>,
    /// The sender's network.
    pub network_id: u8,
    /// The sender's frequency, in Hz.
    pub frequency: u32,
}

/// A packet put on the air, seen as plain values.
#[verifier::ext_equal]
pub struct OnAir {
    pub source_address: u16,
    pub target_address: u16,
    pub data: Seq<u8>,
    pub network_id: u8,
    pub frequency: u32,
}

impl View for SentPacket {
    type V = OnAir;

    open spec fn view(&self) -> OnAir {
        OnAir {
            source_address: self.source_address,
            target_address: self.target_address,
            data: self.data@,
            network_id: self.network_id,
            frequency: self.frequency,
        }
    }
}

/// Signal quality of a directed link between two modules.
#[derive(Debug, Clone, Copy, PartialEq, Eq, Structural)]
pub struct LinkQuality {
    /// Received signal strength, in dBm.
    pub rssi: i32,
    /// Signal-to-noise ratio, in dB.
    pub snr: i32,
}

impl Default for LinkQuality {
    fn default() -> (q: LinkQuality)
        ensures
            q == (LinkQuality { rssi: (-60) as i32, snr: 10 }),
    {
        LinkQuality { rssi: -60, snr: 10 }
    }
}

/// What a command asks of the module.
pub enum Command {
    /// Nothing; just answer.
    Ping,
    /// Restart.
    Reset,
    /// Report the identifier.
    ModuleId,
    /// Set the wireless mode.
    Mode(u8),
    /// Set the serial baud rate.
    BaudRate(u32),
    /// Set the radio frequency.
    Band(u32),
    /// Set the radio parameters.
    Parameters,
    /// Set the address.
    Address(u16),
    /// Set the network.
    NetworkId(u8),
    /// Set the output power.
    OutputPower(u8),
    /// Send data to an address.
    Send(u16, Vec<u8>),
    /// Nothing the module understands.
    Malformed,
}

/// What a command asks of the module, seen as plain values.
#[verifier::ext_equal]
pub enum Meaning {
    Ping,
    Reset,
    ModuleId,
    Mode(u8),
    BaudRate(u32),
    Band(u32),
    Parameters,
    Address(u16),
    NetworkId(u8),
    OutputPower(u8),
    Send(u16, Seq<u8>),
    Malformed,
}

impl View for Command {
    type V = Meaning;

    open spec fn view(&self) -> Meaning {
        match *self {
            Command::Ping => Meaning::Ping,
            Command::Reset => Meaning::Reset,
            Command::ModuleId => Meaning::ModuleId,
            Command::Mode(n) => Meaning::Mode(n),
            Command::BaudRate(n) => Meaning::BaudRate(n),
            Command::Band(n) => Meaning::Band(n),
            Command::Parameters => Meaning::Parameters,
            Command::Address(n) => Meaning::Address(n),
            Command::NetworkId(n) => Meaning::NetworkId(n),
            Command::OutputPower(n) => Meaning::OutputPower(n),
            Command::Send(n, data) => Meaning::Send(n, data@),
            Command::Malformed => Meaning::Malformed,
        }
    }
}

/// What follows a prefix.
pub open spec fn behind(s: Seq<u8>, prefix: Seq<u8>) -> Seq<u8> {
    s.subrange(prefix.len() as int, s.len() as int)
}

/// The number that follows a prefix, if it is one up to `max`.
pub open spec fn number_behind(s: Seq<u8>, prefix: Seq<u8>, max: nat) -> Option<nat> {
    parsed_unsigned(behind(s, prefix), max)
}

/// A frequency setting without the mark that asks the module to keep it.
pub open spec fn without_mark(s: Seq<u8>) -> Seq<u8> {
    if s.len() >= 2 && s[s.len() - 2] == 44 && s[s.len() - 1] == 77 {
        s.subrange(0, s.len() - 2)
    } else {
        s
    }
}

/// What `<address>,<length>,<data>` asks to be sent: the data is everything
/// behind the second comma, and the length is not read.
pub open spec fn sending(s: Seq<u8>) -> Meaning {
    let first = next_at(s, 44, 0);
    let second = next_at(s, 44, first + 1);
    if first < s.len() && second < s.len() {
        match parsed_unsigned(s.subrange(0, first), 0xffff) {
            Some(address) => Meaning::Send(
                address as u16,
                s.subrange(second + 1, s.len() as int),
            ),
            None => Meaning::Malformed,
        }
    } else {
        Meaning::Malformed
    }
}

/// What a command asks of the module.
pub open spec fn meaning_of(cmd: Seq<u8>) -> Meaning {
    if cmd == ascii("AT"@) {
        Meaning::Ping
    } else if cmd == ascii("AT+RESET"@) {
        Meaning::Reset
    } else if cmd == ascii("AT+UID?"@) {
        Meaning::ModuleId
    } else if has_prefix(cmd, ascii("AT+MODE="@)) {
        match number_behind(cmd, ascii("AT+MODE="@), 0xff) {
            Some(n) => Meaning::Mode(n as u8),
            None => Meaning::Malformed,
        }
    } else if has_prefix(cmd, ascii("AT+IPR="@)) {
        match number_behind(cmd, ascii("AT+IPR="@), 0xffff_ffff) {
            Some(n) => Meaning::BaudRate(n as u32),
            None => Meaning::Malformed,
        }
    } else if has_prefix(cmd, ascii("AT+BAND="@)) {
        match parsed_unsigned(without_mark(behind(cmd, ascii("AT+BAND="@))), 0xffff_ffff) {
            Some(n) => Meaning::Band(n as u32),
            None => Meaning::Malformed,
        }
    } else if has_prefix(cmd, ascii("AT+PARAMETER="@)) {
        Meaning::Parameters
    } else if has_prefix(cmd, ascii("AT+ADDRESS="@)) {
        match number_behind(cmd, ascii("AT+ADDRESS="@), 0xffff) {
            Some(n) => Meaning::Address(n as u16),
            None => Meaning::Malformed,
        }
    } else if has_prefix(cmd, ascii("AT+NETWORKID="@)) {
        match number_behind(cmd, ascii("AT+NETWORKID="@), 0xff) {
            Some(n) => Meaning::NetworkId(n as u8),
            None => Meaning::Malformed,
        }
    } else if has_prefix(cmd, ascii("AT+CRFOP="@)) {
        match number_behind(cmd, ascii("AT+CRFOP="@), 0xff) {
            Some(n) => Meaning::OutputPower(n as u8),
            None => Meaning::Malformed,
        }
    } else if has_prefix(cmd, ascii("AT+SEND="@)) {
        sending(behind(cmd, ascii("AT+SEND="@)))
    } else {
        Meaning::Malformed
    }
}

/// What follows a piece of text at the front of a command, if it stands there.
fn strip<'a>(cmd: &'a [u8], prefix: &str) -> (r: Option<&'a [u8]>)
    requires
        vstd::string::is_ascii(prefix),
    ensures
        match r {
            Some(rest) => has_prefix(cmd@, ascii(prefix@)) && rest@ == behind(
                cmd@,
                ascii(prefix@),
            ),
            None => !has_prefix(cmd@, ascii(prefix@)),
        },
{
    let mut p: Vec<u8> = Vec::new();
    push_text(&mut p, prefix);
    assert(p@ =~= ascii(prefix@));
    if starts_with(cmd, p.as_slice()) {
        Some(&cmd[p.len()..cmd.len()])
    } else {
        None
    }
}

/// Whether a command is exactly a piece of text.
fn is_text(cmd: &[u8], text: &str) -> (b: bool)
    requires
        vstd::string::is_ascii(text),
    ensures
        b == (cmd@ == ascii(text@)),
{
    let mut p: Vec<u8> = Vec::new();
    push_text(&mut p, text);
    assert(p@ =~= ascii(text@));
    if cmd.len() != p.len() {
        return false;
    }
    let same: bool = starts_with(cmd, p.as_slice());
    assert(cmd@.subrange(0, cmd@.len() as int) =~= cmd@);
    same
}

/// Read `<address>,<length>,<data>`.
fn read_sending(s: &[u8]) -> (c: Command)
    ensures
        c@ == sending(s@),
{
    let n: usize = s.len();
    let first: usize = find_byte(s, 44, 0);
    if first >= n {
        return Command::Malformed;
    }
    let second: usize = find_byte(s, 44, first + 1);
    if second >= n {
        return Command::Malformed;
    }
    match parse_unsigned(&s[0..first], 0xffff) {
        Some(address) => {
            let mut data: Vec<u8> = Vec::new();
            push_bytes(&mut data, &s[second + 1..n]);
            assert(data@ =~= s@.subrange(second + 1, n as int));
            Command::Send(address as u16, data)
        },
        None => Command::Malformed,
    }
}

/// Read a command without its line end.
pub fn read_command(cmd: &[u8]) -> (c: Command)
    ensures
        c@ == meaning_of(cmd@),
{
    proof {
        reveal_strlit("AT");
        reveal_strlit("AT+RESET");
        reveal_strlit("AT+UID?");
        reveal_strlit("AT+MODE=");
        reveal_strlit("AT+IPR=");
        reveal_strlit("AT+BAND=");
        reveal_strlit("AT+PARAMETER=");
        reveal_strlit("AT+ADDRESS=");
        reveal_strlit("AT+NETWORKID=");
        reveal_strlit("AT+CRFOP=");
        reveal_strlit("AT+SEND=");
    }
    if is_text(cmd, "AT") {
        return Command::Ping;
    }
    if is_text(cmd, "AT+RESET") {
        return Command::Reset;
    }
    if is_text(cmd, "AT+UID?") {
        return Command::ModuleId;
    }
    if let Some(rest) = strip(cmd, "AT+MODE=") {
        return match parse_unsigned(rest, 0xff) {
            Some(n) => Command::Mode(n as u8),
            None => Command::Malformed,
        };
    }
    if let Some(rest) = strip(cmd, "AT+IPR=") {
        return match parse_unsigned(rest, 0xffff_ffff) {
            Some(n) => Command::BaudRate(n as u32),
            None => Command::Malformed,
        };
    }
    if let Some(rest) = strip(cmd, "AT+BAND=") {
        let n: usize = rest.len();
        let bare = if n >= 2 && rest[n - 2] == 44 && rest[n - 1] == 77 {
            &rest[0..n - 2]
        } else {
            rest
        };
        return match parse_unsigned(bare, 0xffff_ffff) {
            Some(hz) => Command::Band(hz as u32),
            None => Command::Malformed,
        };
    }
    if let Some(rest) = strip(cmd, "AT+PARAMETER=") {
        return Command::Parameters;
    }
    if let Some(rest) = strip(cmd, "AT+ADDRESS=") {
        return match parse_unsigned(rest, 0xffff) {
            Some(n) => Command::Address(n as u16),
            None => Command::Malformed,
        };
    }
    if let Some(rest) = strip(cmd, "AT+NETWORKID=") {
        return match parse_unsigned(rest, 0xff) {
            Some(n) => Command::NetworkId(n as u8),
            None => Command::Malformed,
        };
    }
    if let Some(rest) = strip(cmd, "AT+CRFOP=") {
        return match parse_unsigned(rest, 0xff) {
            Some(n) => Command::OutputPower(n as u8),
            None => Command::Malformed,
        };
    }
    if let Some(rest) = strip(cmd, "AT+SEND=") {
        return read_sending(rest);
    }
    Command::Malformed
}

/// What the module answers to a command: lines in turn, without line ends.
pub open spec fn answers_to(meaning: Meaning, uid: Seq<u8>) -> Seq<Seq<u8>> {
    match meaning {
        Meaning::Reset => seq![ascii("+RESET"@), ascii("+READY"@)],
        Meaning::ModuleId => seq![ascii("+UID="@) + uid],
        Meaning::BaudRate(n) => seq![ascii("+IPR="@) + decimal(n as nat)],
        Meaning::Malformed => seq![ascii("+ERR=-1"@)],
        _ => seq![ascii("+OK"@)],
    }
}

/// The module's configuration after a command.
pub open spec fn configured(state: NodeState, meaning: Meaning) -> NodeState {
    match meaning {
        Meaning::Mode(mode) => NodeState { mode, ..state },
        Meaning::Band(frequency) => NodeState { frequency, ..state },
        Meaning::Address(address) => NodeState { address, ..state },
        Meaning::NetworkId(network_id) => NodeState { network_id, ..state },
        _ => state,
    }
}

/// What a command puts on the air.
pub open spec fn put_on_air(state: NodeState, meaning: Meaning) -> Option<OnAir> {
    match meaning {
        Meaning::Send(target_address, data) => Some(
            OnAir {
                source_address: state.address,
                target_address,
                data,
                network_id: state.network_id,
                frequency: state.frequency,
            },
        ),
        _ => None,
    }
}

/// What the module does about a command: the lines it answers, with their line
/// ends and in turn, and the packet it puts on the air.
pub struct Response {
    pub replies: Vec<Vec<u8>>,
    pub sent: Option<SentPacket>,
}

/// A simulated module.
#[derive(Debug)]
pub struct RylrSimulator {
    /// The module's identifier.
    pub uid: Vec<u8>,
    /// Milliseconds between the two answers to a restart.
    pub reset_delay_ms: u64,
    /// When set, every command is answered with this error code.
    pub force_error: Option<i32>,
    /// The radio configuration.
    pub state: NodeState,
}

impl RylrSimulator {
    /// A module with its factory identifier and nothing configured.
    pub fn new() -> (s: RylrSimulator)
        ensures
            s.uid@ == ascii("RYLR998-SIM-001"@),
            s.reset_delay_ms == 50,
            s.force_error is None,
            s.state == (NodeState { address: 0, network_id: 0, frequency: 0, mode: 0 }),
    {
        proof {
            reveal_strlit("RYLR998-SIM-001");
        }
        let mut uid: Vec<u8> = Vec::new();
        push_text(&mut uid, "RYLR998-SIM-001");
        assert(uid@ =~= ascii("RYLR998-SIM-001"@));
        RylrSimulator { uid, reset_delay_ms: 50, force_error: None, state: NodeState::default() }
    }

    /// Do what a command, given without its line end, asks.
    pub fn handle_cmd(&mut self, cmd: &[u8]) -> (r: Response)
        ensures
            final(self).uid@ == old(self).uid@,
            final(self).reset_delay_ms == old(self).reset_delay_ms,
            final(self).force_error == old(self).force_error,
            match old(self).force_error {
                Some(code) => {
                    &&& r.replies@.len() == 1
                    &&& r.replies@[0]@ == ascii("+ERR="@) + signed_decimal(code as int) + seq![
                        13u8,
                        10u8,
                    ]
                    &&& r.sent is None
                    &&& final(self).state == old(self).state
                },
                None => {
                    let meaning = meaning_of(cmd@);
                    let lines = answers_to(meaning, old(self).uid@);
                    &&& r.replies@.len() == lines.len()
                    &&& forall|i: int|
                        0 <= i < lines.len() ==> (#[trigger] r.replies@[i])@ == lines[i] + seq![
                            13u8,
                            10u8,
                        ]
                    &&& match r.sent {
                        Some(packet) => put_on_air(old(self).state, meaning) == Some(packet@),
                        None => put_on_air(old(self).state, meaning) is None,
                    }
                    &&& final(self).state == configured(old(self).state, meaning)
                },
            },
    {
        if let Some(code) = self.force_error {
            let mut line: Vec<u8> = Vec::new();
            proof {
                reveal_strlit("+ERR=");
            }
            push_text(&mut line, "+ERR=");
            assert(line@ =~= ascii("+ERR="@));
            push_signed(&mut line, code);
            push_line_end(&mut line);
            let mut replies: Vec<Vec<u8>> = Vec::new();
            replies.push(line);
            return Response { replies, sent: None };
        }
        let command = read_command(cmd);
        let replies = self.answers(&command);
        let mut sent: Option<SentPacket> = None;
        match command {
            Command::Mode(mode) => {
                self.state.mode = mode;
            },
            Command::Band(frequency) => {
                self.state.frequency = frequency;
            },
            Command::Address(address) => {
                self.state.address = address;
            },
            Command::NetworkId(network_id) => {
                self.state.network_id = network_id;
            },
            Command::Send(target_address, data) => {
                sent = Some(
                    SentPacket {
                        source_address: self.state.address,
                        target_address,
                        data,
                        network_id: self.state.network_id,
                        frequency: self.state.frequency,
                    },
                );
            },
            _ => {},
        }
        Response { replies, sent }
    }

    /// The lines a command is answered with, with their line ends.
    fn answers(&self, command: &Command) -> (replies: Vec<Vec<u8>>)
        ensures
            replies@.len() == answers_to(command@, self.uid@).len(),
            forall|i: int|
                0 <= i < replies@.len() ==> (#[trigger] replies@[i])@ == answers_to(
                    command@,
                    self.uid@,
                )[i] + seq![13u8, 10u8],
    {
        proof {
            reveal_strlit("+OK");
            reveal_strlit("+RESET");
            reveal_strlit("+READY");
            reveal_strlit("+UID=");
            reveal_strlit("+IPR=");
            reveal_strlit("+ERR=-1");
        }
        let mut line: Vec<u8> = Vec::new();
        let mut replies: Vec<Vec<u8>> = Vec::new();
        match command {
            Command::Reset => {
                push_text(&mut line, "+RESET");
                assert(line@ =~= ascii("+RESET"@));
                push_line_end(&mut line);
                replies.push(line);
                let mut ready: Vec<u8> = Vec::new();
                push_text(&mut ready, "+READY");
                assert(ready@ =~= ascii("+READY"@));
                push_line_end(&mut ready);
                replies.push(ready);
                return replies;
            },
            Command::ModuleId => {
                push_text(&mut line, "+UID=");
                assert(line@ =~= ascii("+UID="@));
                push_bytes(&mut line, self.uid.as_slice());
            },
            Command::BaudRate(n) => {
                push_text(&mut line, "+IPR=");
                assert(line@ =~= ascii("+IPR="@));
                push_decimal(&mut line, *n as u64);
            },
            Command::Malformed => {
                push_text(&mut line, "+ERR=-1");
                assert(line@ =~= ascii("+ERR=-1"@));
            },
            _ => {
                push_text(&mut line, "+OK");
                assert(line@ =~= ascii("+OK"@));
            },
        }
        push_line_end(&mut line);
        replies.push(line);
        replies
    }
}

/// Whether a module in a given state hears a packet: it shares the sender's
/// network and frequency, is awake, is not the sender, and is addressed.
pub open spec fn hears(node: NodeState, packet: OnAir) -> bool {
    &&& node.network_id == packet.network_id
    &&& node.frequency == packet.frequency
    &&& node.mode == 0
    &&& node.address != packet.source_address
    &&& packet.target_address == 0 || node.address == packet.target_address
}

/// A directed link as a number: the sender's address, then the receiver's.
pub open spec fn link_key(from: u16, to: u16) -> u32 {
    (from * 0x1_0000 + to) as u32
}

/// Two links with the same number are the same.
pub proof fn link_key_injective(a: u16, b: u16, c: u16, d: u16)
    requires
        link_key(a, b) == link_key(c, d),
    ensures
        a == c,
        b == d,
{
}

/// The quality of a link: its own, or the default where none was set.
pub open spec fn quality_of(
    links: Map<u32, LinkQuality>,
    default_quality: LinkQuality,
    from: u16,
    to: u16,
) -> LinkQuality {
    if links.contains_key(link_key(from, to)) {
        links[link_key(from, to)]
    } else {
        default_quality
    }
}

/// A report line to hand to one module.
#[derive(Debug)]
pub struct Delivery {
    /// The module's place among those attached.
    pub node: usize,
    /// The line, with its line end.
    pub line: Vec<u8>,
}

/// The places of the modules that hear a packet, in order.
pub open spec fn hearers(nodes: Seq<NodeState>, packet: OnAir) -> Seq<int>
    decreases nodes.len(),
{
    if nodes.len() == 0 {
        Seq::empty()
    } else if hears(nodes.last(), packet) {
        hearers(nodes.drop_last(), packet).push(nodes.len() - 1)
    } else {
        hearers(nodes.drop_last(), packet)
    }
}

/// The simulated air between modules.
pub struct LoraSwitch {
    link_quality: HashMap<u32, LinkQuality>,
    default_quality: LinkQuality,
}

impl Default for LoraSwitch {
    /// Air over which every link has the default quality.
    fn default() -> (s: LoraSwitch)
        ensures
            s.links() == Map::<u32, LinkQuality>::empty(),
            s.default_link() == (LinkQuality { rssi: (-60) as i32, snr: 10 }),
    {
        LoraSwitch::new()
    }
}

impl LoraSwitch {
    /// The qualities set, by link.
    pub closed spec fn links(&self) -> Map<u32, LinkQuality> {
        self.link_quality@
    }

    /// The quality of links without one of their own.
    pub closed spec fn default_link(&self) -> LinkQuality {
        self.default_quality
    }

    /// Air over which every link has the default quality.
    pub fn new() -> (s: LoraSwitch)
        ensures
            s.links() == Map::<u32, LinkQuality>::empty(),
            s.default_link() == (LinkQuality { rssi: (-60) as i32, snr: 10 }),
    {
        broadcast use vstd::std_specs::hash::group_hash_axioms;

        LoraSwitch { link_quality: HashMap::new(), default_quality: LinkQuality::default() }
    }

    /// Set the quality of one directed link.
    pub fn set_link_quality(&mut self, from_addr: u16, to_addr: u16, quality: LinkQuality)
        ensures
            final(self).links() == old(self).links().insert(link_key(from_addr, to_addr), quality),
            final(self).default_link() == old(self).default_link(),
    {
        broadcast use vstd::std_specs::hash::group_hash_axioms;

        let key: u32 = from_addr as u32 * 0x1_0000 + to_addr as u32;
        self.link_quality.insert(key, quality);
    }

    /// Set the quality of links without one of their own.
    pub fn set_default_quality(&mut self, quality: LinkQuality)
        ensures
            final(self).links() == old(self).links(),
            final(self).default_link() == quality,
    {
        self.default_quality = quality;
    }

    /// The quality of one directed link.
    pub fn quality(&self, from_addr: u16, to_addr: u16) -> (q: LinkQuality)
        ensures
            q == quality_of(self.links(), self.default_link(), from_addr, to_addr),
    {
        broadcast use vstd::std_specs::hash::group_hash_axioms;

        let key: u32 = from_addr as u32 * 0x1_0000 + to_addr as u32;
        match self.link_quality.get(&key) {
            Some(q) => *q,
            None => self.default_quality,
        }
    }

    /// The report lines that one packet leads to, for the attached modules in
    /// order: one for each that hears it.
    pub fn route(&self, packet: &SentPacket, nodes: &[NodeState]) -> (out: Vec<Delivery>)
        ensures
            out@.len() == hearers(nodes@, packet@).len(),
            forall|i: int|
                0 <= i < out@.len() ==> (#[trigger] out@[i]).node == hearers(nodes@, packet@)[i],
            forall|i: int|
                0 <= i < out@.len() ==> {
                    let node = (#[trigger] out@[i]).node as int;
                    let q = quality_of(
                        self.links(),
                        self.default_link(),
                        packet.source_address,
                        nodes@[node].address,
                    );
                    &&& 0 <= node < nodes@.len()
                    &&& out@[i].line@ == rcv_line(
                        packet.source_address,
                        packet.data@,
                        q.rssi,
                        q.snr,
                    ) + seq![13u8, 10u8]
                },
            forall|i: int|
                0 <= i < out@.len() && packet.data@.len() <= 240 && comma_free(packet.data@) ==> {
                    let q = quality_of(
                        self.links(),
                        self.default_link(),
                        packet.source_address,
                        nodes@[(#[trigger] out@[i]).node as int].address,
                    );
                    packet_of(out@[i].line@.drop_last().drop_last()) == Some(
                        Packet {
                            address: packet.source_address,
                            length: packet.data@.len() as usize,
                            data: packet.data@,
                            rssi: q.rssi,
                            snr: q.snr,
                        },
                    )
                },
    {
        let n: usize = nodes.len();
        let mut out: Vec<Delivery> = Vec::new();
        let mut i: usize = 0;
        while i < n
            invariant
                i <= n,
                n == nodes@.len(),
                out@.len() == hearers(nodes@.take(i as int), packet@).len(),
                forall|j: int|
                    0 <= j < out@.len() ==> (#[trigger] out@[j]).node == hearers(
                        nodes@.take(i as int),
                        packet@,
                    )[j],
                forall|j: int|
                    0 <= j < out@.len() ==> {
                        let node = (#[trigger] out@[j]).node as int;
                        let q = quality_of(
                            self.links(),
                            self.default_link(),
                            packet.source_address,
                            nodes@[node].address,
                        );
                        &&& 0 <= node < nodes@.len()
                        &&& out@[j].line@ == rcv_line(
                            packet.source_address,
                            packet.data@,
                            q.rssi,
                            q.snr,
                        ) + seq![13u8, 10u8]
                    },
            decreases n - i,
        {
            let node = nodes[i];
            assert(nodes@.take(i + 1).drop_last() =~= nodes@.take(i as int));
            assert(nodes@.take(i + 1).last() == node);
            if node.network_id == packet.network_id && node.frequency == packet.frequency
                && node.mode == 0 && node.address != packet.source_address && (
            packet.target_address == 0 || node.address == packet.target_address) {
                let q = self.quality(packet.source_address, node.address);
                let line = report_line(
                    packet.source_address,
                    packet.data.as_slice(),
                    q.rssi,
                    q.snr,
                );
                out.push(Delivery { node: i, line });
            }
            i = i + 1;
        }
        assert(nodes@.take(n as int) =~= nodes@);
        proof {
            if packet.data@.len() <= 240 && comma_free(packet.data@) {
                assert forall|i: int| 0 <= i < out@.len() implies {
                    let q = quality_of(
                        self.links(),
                        self.default_link(),
                        packet.source_address,
                        nodes@[(#[trigger] out@[i]).node as int].address,
                    );
                    packet_of(out@[i].line@.drop_last().drop_last()) == Some(
                        Packet {
                            address: packet.source_address,
                            length: packet.data@.len() as usize,
                            data: packet.data@,
                            rssi: q.rssi,
                            snr: q.snr,
                        },
                    )
                } by {
                    let q = quality_of(
                        self.links(),
                        self.default_link(),
                        packet.source_address,
                        nodes@[out@[i].node as int].address,
                    );
                    let line = rcv_line(packet.source_address, packet.data@, q.rssi, q.snr);
                    assert(out@[i].line@.drop_last().drop_last() =~= line);
                    report_reads_back(packet.source_address, packet.data@, q.rssi, q.snr);
                }
            }
        }
        out
    }
}

/// A module hears a packet exactly when its place is among the hearers.
pub proof fn hearers_are_those_who_hear(nodes: Seq<NodeState>, packet: OnAir, node: int)
    ensures
        hearers(nodes, packet).contains(node) <==> 0 <= node < nodes.len() && hears(
            nodes[node],
            packet,
        ),
    decreases nodes.len(),
{
    if nodes.len() > 0 {
        let before = hearers(nodes.drop_last(), packet);
        hearers_are_those_who_hear(nodes.drop_last(), packet, node);
        if hears(nodes.last(), packet) {
            let all = before.push(nodes.len() - 1);
            assert(all[before.len() as int] == nodes.len() - 1);
            if before.contains(node) {
                let k = before.index_of(node);
                assert(all[k] == node);
            }
        }
    }
}

/// No module hears its own packet, one of another network or frequency, or one
/// sent while it sleeps.
pub proof fn isolation(node: NodeState, packet: OnAir)
    requires
        node.address == packet.source_address || node.network_id != packet.network_id
            || node.frequency != packet.frequency || node.mode != 0,
    ensures
        !hears(node, packet),
{
}

/// A prefix stands at the front of what it begins, and the rest follows it.
proof fn prefixed(prefix: Seq<u8>, rest: Seq<u8>)
    ensures
        has_prefix(prefix + rest, prefix),
        behind(prefix + rest, prefix) == rest,
{
    assert((prefix + rest).subrange(0, prefix.len() as int) =~= prefix);
    assert(behind(prefix + rest, prefix) =~= rest);
}

/// Every command of the client without an argument means to the module what the
/// client means by it.
pub proof fn module_understands_plain_commands()
    ensures
        meaning_of(ascii("AT"@)) == Meaning::Ping,
        meaning_of(ascii("AT+RESET"@)) == Meaning::Reset,
        meaning_of(ascii("AT+UID?"@)) == Meaning::ModuleId,
{
    reveal_strlit("AT");
    reveal_strlit("AT+RESET");
    reveal_strlit("AT+UID?");
    assert(ascii("AT+RESET"@).len() != ascii("AT"@).len());
    assert(ascii("AT+UID?"@).len() != ascii("AT"@).len());
    assert(ascii("AT+UID?"@).len() != ascii("AT+RESET"@).len());
}

/// The number behind a prefix, written in decimal, reads back.
proof fn number_reads_back(prefix: Seq<u8>, n: nat, max: nat)
    requires
        n <= max,
    ensures
        has_prefix(prefix + decimal(n), prefix),
        number_behind(prefix + decimal(n), prefix, max) == Some(n),
{
    prefixed(prefix, decimal(n));
    unsigned_reads_back(n, max);
}

/// The mode command sets the mode.
pub proof fn module_understands_mode(n: u8)
    ensures
        meaning_of(ascii("AT+MODE="@) + decimal(n as nat)) == Meaning::Mode(n),
{
    command_letters();
    number_reads_back(ascii("AT+MODE="@), n as nat, 0xff);
    let cmd = ascii("AT+MODE="@) + decimal(n as nat);
    assert(cmd[3] == 77);
}

/// The baud rate command sets the baud rate.
pub proof fn module_understands_baud_rate(n: u32)
    ensures
        meaning_of(ascii("AT+IPR="@) + decimal(n as nat)) == Meaning::BaudRate(n),
{
    command_letters();
    number_reads_back(ascii("AT+IPR="@), n as nat, 0xffff_ffff);
    let cmd = ascii("AT+IPR="@) + decimal(n as nat);
    assert(cmd[3] == 73);
}

/// The frequency command sets the frequency, with or without the mark.
pub proof fn module_understands_band(n: u32)
    ensures
        meaning_of(ascii("AT+BAND="@) + decimal(n as nat)) == Meaning::Band(n),
        meaning_of(ascii("AT+BAND="@) + decimal(n as nat) + ascii(",M"@)) == Meaning::Band(n),
{
    command_letters();
    reveal_strlit(",M");
    let prefix = ascii("AT+BAND="@);
    let d = decimal(n as nat);
    prefixed(prefix, d);
    prefixed(prefix, d + ascii(",M"@));
    assert(prefix + d + ascii(",M"@) =~= prefix + (d + ascii(",M"@)));
    unsigned_reads_back(n as nat, 0xffff_ffff);
    decimal_spells(n as nat);
    assert((prefix + d)[3] == 66);
    assert((prefix + d + ascii(",M"@))[3] == 66);
    assert(is_digit(d[d.len() - 1]));
    let marked = d + ascii(",M"@);
    assert(marked[marked.len() - 2] == 44 && marked[marked.len() - 1] == 77);
    assert(without_mark(marked) =~= d);
}

/// The parameter command is taken, whatever the parameters.
pub proof fn module_understands_parameters(
    sf: SpreadingFactory,
    bw: Bandwidth,
    cr: CodingRate,
    preamble: u8,
)
    ensures
        meaning_of(
            ascii("AT+PARAMETER="@) + decimal(sf.number() as nat) + seq![44u8] + decimal(
                bw.number() as nat,
            ) + seq![44u8] + decimal(cr.number() as nat) + seq![44u8] + decimal(preamble as nat),
        ) == Meaning::Parameters,
{
    command_letters();
    let prefix = ascii("AT+PARAMETER="@);
    let rest = decimal(sf.number() as nat) + seq![44u8] + decimal(bw.number() as nat)
        + seq![44u8] + decimal(cr.number() as nat) + seq![44u8] + decimal(preamble as nat);
    prefixed(prefix, rest);
    assert(prefix + decimal(sf.number() as nat) + seq![44u8] + decimal(bw.number() as nat)
        + seq![44u8] + decimal(cr.number() as nat) + seq![44u8] + decimal(preamble as nat)
        =~= prefix + rest);
    assert((prefix + rest)[3] == 80);
}

/// The address command sets the address.
pub proof fn module_understands_address(n: u16)
    ensures
        meaning_of(ascii("AT+ADDRESS="@) + decimal(n as nat)) == Meaning::Address(n),
{
    command_letters();
    number_reads_back(ascii("AT+ADDRESS="@), n as nat, 0xffff);
    let cmd = ascii("AT+ADDRESS="@) + decimal(n as nat);
    assert(cmd[3] == 65);
}

/// The network command sets the network.
pub proof fn module_understands_network_id(n: u8)
    ensures
        meaning_of(ascii("AT+NETWORKID="@) + decimal(n as nat)) == Meaning::NetworkId(n),
{
    command_letters();
    number_reads_back(ascii("AT+NETWORKID="@), n as nat, 0xff);
    let cmd = ascii("AT+NETWORKID="@) + decimal(n as nat);
    assert(cmd[3] == 78);
}

/// The output power command is taken.
pub proof fn module_understands_output_power(n: u8)
    ensures
        meaning_of(ascii("AT+CRFOP="@) + decimal(n as nat)) == Meaning::OutputPower(n),
{
    command_letters();
    number_reads_back(ascii("AT+CRFOP="@), n as nat, 0xff);
    let cmd = ascii("AT+CRFOP="@) + decimal(n as nat);
    assert(cmd[3] == 67);
}

/// The send command puts its data on the air unchanged, commas and all.
pub proof fn module_understands_send(target: u16, data: Seq<u8>)
    ensures
        meaning_of(send_text(target, data)) == Meaning::Send(target, data),
{
    let prefix = ascii("AT+SEND="@);
    let rest = decimal(target as nat) + seq![44u8] + decimal(data.len()) + seq![44u8] + data;
    assert(send_text(target, data) =~= prefix + rest);
    send_is_told_by_its_start(rest);
    sending_reads_back(target, data);
}

/// A command that starts as a send command does asks to send what follows.
proof fn send_is_told_by_its_start(rest: Seq<u8>)
    ensures
        meaning_of(ascii("AT+SEND="@) + rest) == sending(rest),
{
    command_letters();
    let prefix = ascii("AT+SEND="@);
    prefixed(prefix, rest);
    assert((prefix + rest)[3] == 83);
}

/// What is asked to be sent reads back from the command's fields.
proof fn sending_reads_back(target: u16, data: Seq<u8>)
    ensures
        sending(
            decimal(target as nat) + seq![44u8] + decimal(data.len()) + seq![44u8] + data,
        ) == Meaning::Send(target, data),
{
    let a = decimal(target as nat);
    let l = decimal(data.len());
    let rest = a + seq![44u8] + l + seq![44u8] + data;
    decimal_spells(target as nat);
    decimal_spells(data.len());
    let first = a.len() as int;
    let second = first + 1 + l.len();
    assert forall|i: int| 0 <= i < first implies #[trigger] rest[i] != 44 by {
        assert(is_digit(a[i]));
        assert(rest[i] == a[i]);
    }
    next_at_is(rest, 44, 0, first);
    assert forall|i: int| first + 1 <= i < second implies #[trigger] rest[i] != 44 by {
        assert(is_digit(l[i - first - 1]));
        assert(rest[i] == l[i - first - 1]);
    }
    next_at_is(rest, 44, first + 1, second);
    assert(rest.subrange(0, first) =~= a);
    assert(rest.subrange(second + 1, rest.len() as int) =~= data);
    unsigned_reads_back(target as nat, 0xffff);
}

/// The letters by which commands differ.
proof fn command_letters()
    ensures
        ascii("AT"@) == seq![65u8, 84u8],
        ascii("AT+RESET"@) == seq![65u8, 84, 43, 82, 69, 83, 69, 84],
        ascii("AT+UID?"@) == seq![65u8, 84, 43, 85, 73, 68, 63],
        ascii("AT+MODE="@) == seq![65u8, 84, 43, 77, 79, 68, 69, 61],
        ascii("AT+IPR="@) == seq![65u8, 84, 43, 73, 80, 82, 61],
        ascii("AT+BAND="@) == seq![65u8, 84, 43, 66, 65, 78, 68, 61],
        ascii("AT+PARAMETER="@) == seq![65u8, 84, 43, 80, 65, 82, 65, 77, 69, 84, 69, 82, 61],
        ascii("AT+ADDRESS="@) == seq![65u8, 84, 43, 65, 68, 68, 82, 69, 83, 83, 61],
        ascii("AT+NETWORKID="@) == seq![65u8, 84, 43, 78, 69, 84, 87, 79, 82, 75, 73, 68, 61],
        ascii("AT+CRFOP="@) == seq![65u8, 84, 43, 67, 82, 70, 79, 80, 61],
        ascii("AT+SEND="@) == seq![65u8, 84, 43, 83, 69, 78, 68, 61],
        forall|cmd: Seq<u8>, prefix: Seq<u8>|
            cmd.len() > 3 && prefix.len() > 3 && #[trigger] has_prefix(cmd, prefix) ==> cmd[3]
                == prefix[3],
{
    reveal_strlit("AT");
    reveal_strlit("AT+RESET");
    reveal_strlit("AT+UID?");
    reveal_strlit("AT+MODE=");
    reveal_strlit("AT+IPR=");
    reveal_strlit("AT+BAND=");
    reveal_strlit("AT+PARAMETER=");
    reveal_strlit("AT+ADDRESS=");
    reveal_strlit("AT+NETWORKID=");
    reveal_strlit("AT+CRFOP=");
    reveal_strlit("AT+SEND=");
    assert(ascii("AT"@) =~= seq![65u8, 84u8]);
    assert(ascii("AT+RESET"@) =~= seq![65u8, 84, 43, 82, 69, 83, 69, 84]);
    assert(ascii("AT+UID?"@) =~= seq![65u8, 84, 43, 85, 73, 68, 63]);
    assert(ascii("AT+MODE="@) =~= seq![65u8, 84, 43, 77, 79, 68, 69, 61]);
    assert(ascii("AT+IPR="@) =~= seq![65u8, 84, 43, 73, 80, 82, 61]);
    assert(ascii("AT+BAND="@) =~= seq![65u8, 84, 43, 66, 65, 78, 68, 61]);
    assert(ascii("AT+PARAMETER="@) =~= seq![
        65u8, 84, 43, 80, 65, 82, 65, 77, 69, 84, 69, 82, 61,
    ]);
    assert(ascii("AT+ADDRESS="@) =~= seq![65u8, 84, 43, 65, 68, 68, 82, 69, 83, 83, 61]);
    assert(ascii("AT+NETWORKID="@) =~= seq![
        65u8, 84, 43, 78, 69, 84, 87, 79, 82, 75, 73, 68, 61,
    ]);
    assert(ascii("AT+CRFOP="@) =~= seq![65u8, 84, 43, 67, 82, 70, 79, 80, 61]);
    assert(ascii("AT+SEND="@) =~= seq![65u8, 84, 43, 83, 69, 78, 68, 61]);
    assert forall|cmd: Seq<u8>, prefix: Seq<u8>|
        cmd.len() > 3 && prefix.len() > 3 && #[trigger] has_prefix(cmd, prefix) implies cmd[3]
        == prefix[3] by {
        assert(cmd.subrange(0, prefix.len() as int)[3] == prefix[3]);
    }
}

/// The module's answers are the ones the client awaits: a command it understands
/// is matched in every one of its lines, and one it does not is an error.
pub proof fn module_answers_as_awaited(n: u32)
    ensures
        answer_to(ascii("+OK"@), ascii("+OK"@)) == Answer::Matched,
        answer_to(ascii("+RESET"@), ascii("+RESET"@)) == Answer::Matched,
        answer_to(ascii("+READY"@), ascii("+READY"@)) == Answer::Matched,
        answer_to(ascii("+IPR="@) + decimal(n as nat), ascii("+IPR="@) + decimal(n as nat))
            == Answer::Matched,
{
    reveal_strlit("+OK");
    reveal_strlit("+RESET");
    reveal_strlit("+READY");
    reveal_strlit("+IPR=");
    trim_keeps_bare(ascii("+OK"@));
    trim_keeps_bare(ascii("+RESET"@));
    trim_keeps_bare(ascii("+READY"@));
    decimal_spells(n as nat);
    let d = decimal(n as nat);
    let ipr = ascii("+IPR="@) + d;
    assert(is_digit(d[d.len() - 1]));
    assert(ipr.last() == d[d.len() - 1]);
    trim_keeps_bare(ipr);
    assert(ascii("+OK"@).subrange(0, 3) =~= ascii("+OK"@));
    assert(ascii("+RESET"@).subrange(0, 6) =~= ascii("+RESET"@));
    assert(ascii("+READY"@).subrange(0, 6) =~= ascii("+READY"@));
    assert(ipr.subrange(0, ipr.len() as int) =~= ipr);
}

/// An error the module reports reaches the client with its code, whatever answer
/// it awaits, unless that answer starts like an error.
pub proof fn error_code_reaches_the_client(code: i32, expected: Seq<u8>)
    requires
        !has_prefix(ascii("+ERR="@) + signed_decimal(code as int), expected),
    ensures
        answer_to(ascii("+ERR="@) + signed_decimal(code as int), expected) == Answer::Refused(
            LoraError::ModuleError(code),
        ),
{
    reveal_strlit("+ERR=");
    let prefix = ascii("+ERR="@);
    let d = signed_decimal(code as int);
    let line = prefix + d;
    prefixed(prefix, d);
    signed_reads_back(code);
    if code < 0 {
        decimal_spells((-code) as nat);
        let m = decimal((-code) as nat);
        assert(d.last() == m[m.len() - 1]);
        assert(is_digit(m[m.len() - 1]));
    } else {
        decimal_spells(code as nat);
        assert(is_digit(d[d.len() - 1]));
    }
    assert(line.last() == d.last());
    trim_keeps_bare(line);
}

/// A setting command sets what it names and nothing else; every other command
/// leaves the configuration as it is.
pub proof fn settings_set_what_they_name(state: NodeState, n: u16, b: u8, hz: u32, m: Meaning)
    ensures
        ({
            let s = configured(state, Meaning::Mode(b));
            s.mode == b && s.address == state.address && s.network_id == state.network_id
                && s.frequency == state.frequency
        }),
        ({
            let s = configured(state, Meaning::Band(hz));
            s.frequency == hz && s.address == state.address && s.network_id == state.network_id
                && s.mode == state.mode
        }),
        ({
            let s = configured(state, Meaning::Address(n));
            s.address == n && s.frequency == state.frequency && s.network_id == state.network_id
                && s.mode == state.mode
        }),
        ({
            let s = configured(state, Meaning::NetworkId(b));
            s.network_id == b && s.address == state.address && s.frequency == state.frequency
                && s.mode == state.mode
        }),
        !(m is Mode || m is Band || m is Address || m is NetworkId) ==> configured(state, m)
            == state,
{
}

/// Only a send command puts a packet on the air: its data, to whom it names, from
/// the module as it is configured.
pub proof fn only_sending_goes_on_air(state: NodeState, m: Meaning)
    ensures
        put_on_air(state, m) is Some <==> m is Send,
        m matches Meaning::Send(to, data) ==> {
            let p = put_on_air(state, m)->0;
            &&& p.data == data
            &&& p.target_address == to
            &&& p.source_address == state.address
            &&& p.network_id == state.network_id
            &&& p.frequency == state.frequency
        },
{
}

/// A packet on the air reaches exactly the modules that share the sender's network
/// and frequency, are awake, are not the sender, and are addressed, by the packet's
/// own address or by none; one sent on a module's own settings is heard by its
/// neighbour on the same.
pub proof fn packets_reach_their_neighbours(node: NodeState, packet: OnAir)
    ensures
        hears(node, packet) <==> {
            &&& node.network_id == packet.network_id
            &&& node.frequency == packet.frequency
            &&& node.mode == 0
            &&& node.address != packet.source_address
            &&& (packet.target_address != 0 ==> node.address == packet.target_address)
        },
{
}

/// The hearers of a packet are listed in the order of the modules, each once.
pub proof fn hearers_are_in_order(nodes: Seq<NodeState>, packet: OnAir)
    ensures
        forall|i: int, j: int|
            0 <= i < j < hearers(nodes, packet).len() ==> #[trigger] hearers(nodes, packet)[i]
                < #[trigger] hearers(nodes, packet)[j],
        forall|i: int|
            0 <= i < hearers(nodes, packet).len() ==> 0 <= #[trigger] hearers(nodes, packet)[i]
                < nodes.len(),
    decreases nodes.len(),
{
    if nodes.len() > 0 {
        let t = nodes.drop_last();
        let before = hearers(t, packet);
        let all = hearers(nodes, packet);
        hearers_are_in_order(t, packet);
        assert forall|i: int| 0 <= i < all.len() implies 0 <= #[trigger] all[i]
            < nodes.len() by {
            if i < before.len() {
                assert(all[i] == before[i]);
            }
        }
        assert forall|i: int, j: int| 0 <= i < j < all.len() implies #[trigger] all[i]
            < #[trigger] all[j] by {
            assert(all[i] == before[i]);
            if j < before.len() {
                assert(all[j] == before[j]);
            }
        }
    }
}

/// A link's quality is the one set for it, from the one module to the other and not
/// the other way; setting one leaves every other as it was, and a link none was set
/// for has the default.
pub proof fn links_have_the_quality_set(
    links: Map<u32, LinkQuality>,
    fallback: LinkQuality,
    q: LinkQuality,
    from: u16,
    to: u16,
    a: u16,
    b: u16,
)
    ensures
        quality_of(links.insert(link_key(from, to), q), fallback, from, to) == q,
        (a, b) != (from, to) ==> quality_of(
            links.insert(link_key(from, to), q),
            fallback,
            a,
            b,
        ) == quality_of(links, fallback, a, b),
        quality_of(Map::empty(), fallback, a, b) == fallback,
{
    if link_key(a, b) == link_key(from, to) {
        link_key_injective(a, b, from, to);
    }
}

/// A command is answered by an error exactly where the module does not understand
/// it; a restart is answered twice and every other command once; and what was asked
/// for stands in the answer.
pub proof fn answers_fit_their_commands(m: Meaning, uid: Seq<u8>)
    ensures
        answers_to(m, uid).len() == (if m is Reset { 2int } else { 1 }),
        m is Malformed ==> answers_to(m, uid)[0] == seq![43u8, 69, 82, 82, 61, 45, 49],
        m is ModuleId ==> answers_to(m, uid)[0] == seq![43u8, 85, 73, 68, 61] + uid,
        m matches Meaning::BaudRate(n) ==> answers_to(m, uid)[0] == seq![43u8, 73, 80, 82, 61]
            + decimal(n as nat),
        m is Reset ==> answers_to(m, uid)[0] == seq![43u8, 82, 69, 83, 69, 84] && answers_to(
            m,
            uid,
        )[1] == seq![43u8, 82, 69, 65, 68, 89],
        !(m is Malformed || m is ModuleId || m is BaudRate || m is Reset) ==> answers_to(m, uid)[0]
            == seq![43u8, 79, 75],
{
    reveal_strlit("+OK");
    reveal_strlit("+RESET");
    reveal_strlit("+READY");
    reveal_strlit("+UID=");
    reveal_strlit("+IPR=");
    reveal_strlit("+ERR=-1");
    assert(ascii("+OK"@) =~= seq![43u8, 79, 75]);
    assert(ascii("+RESET"@) =~= seq![43u8, 82, 69, 83, 69, 84]);
    assert(ascii("+READY"@) =~= seq![43u8, 82, 69, 65, 68, 89]);
    assert(ascii("+UID="@) =~= seq![43u8, 85, 73, 68, 61]);
    assert(ascii("+IPR="@) =~= seq![43u8, 73, 80, 82, 61]);
    assert(ascii("+ERR=-1"@) =~= seq![43u8, 69, 82, 82, 61, 45, 49]);
}

/// Whether the answers a client awaits are the starts of the lines the module
/// answers a command with, whatever its identifier.
pub open spec fn awaits_the_answers(expects: Seq<Vec<u8>>, m: Meaning) -> bool {
    forall|uid: Seq<u8>|
        {
            let lines = #[trigger] answers_to(m, uid);
            &&& expects.len() == lines.len()
            &&& expects.len() > 0 ==> has_prefix(lines[0], expects[0]@)
            &&& expects.len() > 1 ==> has_prefix(lines[1], expects[1]@)
        }
}

/// A client that awaits `+OK` awaits what the module answers to any command that
/// sets or sends something.
pub(crate) proof fn ok_is_awaited(expects: Seq<Vec<u8>>, m: Meaning)
    requires
        expects.len() == 1,
        expects[0]@ == ascii("+OK"@),
        !(m is Malformed || m is ModuleId || m is BaudRate || m is Reset),
    ensures
        awaits_the_answers(expects, m),
{
    assert(ascii("+OK"@).subrange(0, ascii("+OK"@).len() as int) =~= ascii("+OK"@));
}

/// A client that awaits the baud rate, the identifier or a restart awaits what the
/// module answers to those.
pub(crate) proof fn others_are_awaited(expects: Seq<Vec<u8>>, n: u32)
    ensures
        expects.len() == 1 && expects[0]@ == ascii("+IPR="@) + decimal(n as nat)
            ==> awaits_the_answers(expects, Meaning::BaudRate(n)),
        expects.len() == 1 && expects[0]@ == ascii("+UID="@) ==> awaits_the_answers(
            expects,
            Meaning::ModuleId,
        ),
        expects.len() == 2 && expects[0]@ == ascii("+RESET"@) && expects[1]@ == ascii("+READY"@)
            ==> awaits_the_answers(expects, Meaning::Reset),
{
    let rate = ascii("+IPR="@) + decimal(n as nat);
    assert(rate.subrange(0, rate.len() as int) =~= rate);
    let id = ascii("+UID="@);
    assert forall|uid: Seq<u8>| has_prefix(#[trigger] (id + uid), id) by {
        assert((id + uid).subrange(0, id.len() as int) =~= id);
    }
    let restart = ascii("+RESET"@);
    let ready = ascii("+READY"@);
    assert(restart.subrange(0, restart.len() as int) =~= restart);
    assert(ready.subrange(0, ready.len() as int) =~= ready);
}

} // verus!
