//! The module's report of a received packet:
//! `+RCV=<Address>,<Length>,<Data>,<RSSI>,<SNR>`.

use vstd::prelude::*;

use crate::bounded::BoundedVec;
use crate::rylr998::client::LoraError;
use crate::ascii::ascii;
use crate::ascii::decimal;
use crate::ascii::decimal_spells;
use crate::ascii::find_byte;
use crate::ascii::has_prefix;
use crate::ascii::is_digit;
use crate::ascii::next_at;
use crate::ascii::next_at_is;
use crate::ascii::parse_signed;
use crate::ascii::parse_unsigned;
use crate::ascii::parsed_signed;
use crate::ascii::parsed_unsigned;
use crate::ascii::push_decimal;
use crate::ascii::push_signed;
use crate::ascii::push_text;
use crate::ascii::signed_decimal;
use crate::ascii::signed_reads_back;
use crate::ascii::starts_with;
use crate::ascii::unsigned_reads_back;

verus! {

/// Longest data field the module delivers.
pub const MAX_DATA_LEN: usize = 240;

/// A packet received over the air.
pub struct ReceivedPacket {
    /// Source module address the packet was sent from.
    pub address: u16,
    /// Length of the payload in bytes, as reported.
    pub length: usize,
    /// Payload text as received.
    pub data: BoundedVec<u8, 240>,
    /// Received signal strength indicator, in dBm.
    pub rssi: i32,
    /// Signal-to-noise ratio, in dB.
    pub snr: i32,
}

/// A received packet, seen as plain values.
#[verifier::ext_equal]
pub struct Packet {
    pub address: u16,
    pub length: usize,
    pub data: Seq<u8>,
    pub rssi: i32,
    pub snr: i32,
}

impl View for ReceivedPacket {
    type V = Packet;

    open spec fn view(&self) -> Packet {
        Packet {
            address: self.address,
            length: self.length,
            data: self.data@,
            rssi: self.rssi,
            snr: self.snr,
        }
    }
}

/// The `n`-th comma-separated field of `s` from `start` on, if there is one.
pub open spec fn field_from(s: Seq<u8>, start: int, n: nat) -> Option<Seq<u8>>
    decreases n,
{
    let end = next_at(s, 44, start);
    if n == 0 {
        Some(s.subrange(start, end))
    } else if end < s.len() {
        field_from(s, end + 1, (n - 1) as nat)
    } else {
        None
    }
}

/// The packet a report line means, if it is well formed.
pub open spec fn packet_of(line: Seq<u8>) -> Option<Packet> {
    let start = ascii("+RCV="@).len() as int;
    if !has_prefix(line, ascii("+RCV="@)) {
        None
    } else {
        match (
            field_from(line, start, 0),
            field_from(line, start, 1),
            field_from(line, start, 2),
            field_from(line, start, 3),
            field_from(line, start, 4),
        ) {
            (Some(a), Some(l), Some(d), Some(r), Some(s)) => match (
                parsed_unsigned(a, 0xffff),
                parsed_unsigned(l, usize::MAX as nat),
                parsed_signed(r),
                parsed_signed(s),
            ) {
                (Some(address), Some(length), Some(rssi), Some(snr)) => if d.len()
                    <= MAX_DATA_LEN {
                    Some(
                        Packet {
                            address: address as u16,
                            length: length as usize,
                            data: d,
                            rssi: rssi as i32,
                            snr: snr as i32,
                        },
                    )
                } else {
                    None
                },
                _ => None,
            },
            _ => None,
        }
    }
}

/// The `n`-th comma-separated field of `s` from `start` on, if there is one.
fn field<'a>(s: &'a [u8], start: usize, n: usize) -> (f: Option<&'a [u8]>)
    requires
        start <= s@.len(),
    ensures
        match f {
            Some(text) => field_from(s@, start as int, n as nat) == Some(text@),
            None => field_from(s@, start as int, n as nat) is None,
        },
    decreases n,
{
    let end: usize = find_byte(s, 44, start);
    if n == 0 {
        Some(&s[start..end])
    } else if end < s.len() {
        field(s, end + 1, n - 1)
    } else {
        None
    }
}

/// Read a report line into the packet it means.
pub fn parse_rcv(line: &[u8]) -> (r: Result<ReceivedPacket, LoraError>)
    ensures
        match r {
            Ok(packet) => packet_of(line@) == Some(packet@),
            Err(e) => e == LoraError::InvalidResponse && packet_of(line@) is None,
        },
{
    let mut prefix: Vec<u8> = Vec::new();
    proof {
        reveal_strlit("+RCV=");
    }
    push_text(&mut prefix, "+RCV=");
    assert(prefix@ =~= ascii("+RCV="@));
    if !starts_with(line, prefix.as_slice()) {
        return Err(LoraError::InvalidResponse);
    }
    let start: usize = prefix.len();
    let address_text = field(line, start, 0);
    let length_text = field(line, start, 1);
    let data_text = field(line, start, 2);
    let rssi_text = field(line, start, 3);
    let snr_text = field(line, start, 4);
    match (address_text, length_text, data_text, rssi_text, snr_text) {
        (Some(a), Some(l), Some(d), Some(r), Some(s)) => {
            let address = parse_unsigned(a, 0xffff);
            let length = parse_unsigned(l, usize::MAX as u64);
            let rssi = parse_signed(r);
            let snr = parse_signed(s);
            if d.len() > MAX_DATA_LEN {
                return Err(LoraError::InvalidResponse);
            }
            match (address, length, rssi, snr) {
                (Some(address), Some(length), Some(rssi), Some(snr)) => {
                    let data: BoundedVec<u8, 240> = copied(d);
                    let packet = ReceivedPacket {
                        address: address as u16,
                        length: length as usize,
                        data,
                        rssi,
                        snr,
                    };
                    Ok(packet)
                },
                _ => Err(LoraError::InvalidResponse),
            }
        },
        _ => Err(LoraError::InvalidResponse),
    }
}

/// A bounded copy of bytes that fit.
pub(crate) fn copied<const N: usize>(s: &[u8]) -> (v: BoundedVec<u8, N>)
    requires
        s@.len() <= N,
    ensures
        v@ == s@,
{
    let n: usize = s.len();
    let mut v: BoundedVec<u8, N> = BoundedVec::new();
    let mut i: usize = 0;
    while i < n
        invariant
            i <= n,
            n == s@.len(),
            n <= N,
            v@ == s@.take(i as int),
        decreases n - i,
    {
        let kept: bool = v.push(s[i]);
        i = i + 1;
        assert(v@ =~= s@.take(i as int));
    }
    assert(s@.take(n as int) =~= s@);
    v
}

/// Fields joined by commas.
pub open spec fn comma_joined(fields: Seq<Seq<u8>>) -> Seq<u8>
    decreases fields.len(),
{
    if fields.len() == 0 {
        Seq::empty()
    } else if fields.len() == 1 {
        fields[0]
    } else {
        fields[0] + seq![44u8] + comma_joined(fields.drop_first())
    }
}

/// The line that reports a packet.
pub open spec fn rcv_line(address: u16, data: Seq<u8>, rssi: i32, snr: i32) -> Seq<u8> {
    ascii("+RCV="@) + decimal(address as nat) + seq![44u8] + decimal(data.len()) + seq![44u8] + data
        + seq![44u8] + signed_decimal(rssi as int) + seq![44u8] + signed_decimal(snr as int)
}

/// Five fields after a prefix, written out and joined.
proof fn five_joined(p: Seq<u8>, a: Seq<u8>, b: Seq<u8>, c: Seq<u8>, d: Seq<u8>, e: Seq<u8>)
    ensures
        p + a + seq![44u8] + b + seq![44u8] + c + seq![44u8] + d + seq![44u8] + e == p
            + comma_joined(seq![a, b, c, d, e]),
{
    let f5 = seq![a, b, c, d, e];
    let f4 = seq![b, c, d, e];
    let f3 = seq![c, d, e];
    let f2 = seq![d, e];
    let f1 = seq![e];
    assert(f5.drop_first() =~= f4);
    assert(f4.drop_first() =~= f3);
    assert(f3.drop_first() =~= f2);
    assert(f2.drop_first() =~= f1);
    assert(comma_joined(f1) == e);
    assert(comma_joined(f2) == d + seq![44u8] + comma_joined(f1));
    assert(comma_joined(f3) == c + seq![44u8] + comma_joined(f2));
    assert(comma_joined(f4) == b + seq![44u8] + comma_joined(f3));
    assert(comma_joined(f5) == a + seq![44u8] + comma_joined(f4));
    let w = p + a + seq![44u8] + b + seq![44u8] + c + seq![44u8] + d + seq![44u8] + e;
    let w3 = p + a + seq![44u8] + b + seq![44u8] + c + seq![44u8];
    assert(w =~= w3 + comma_joined(f2));
    let w2 = p + a + seq![44u8] + b + seq![44u8];
    assert(w3 + comma_joined(f2) =~= w2 + comma_joined(f3));
    let w1 = p + a + seq![44u8];
    assert(w2 + comma_joined(f3) =~= w1 + comma_joined(f4));
    assert(w1 + comma_joined(f4) =~= p + comma_joined(f5));
}

/// Append a comma.
pub(crate) fn push_comma(line: &mut Vec<u8>)
    ensures
        final(line)@ == old(line)@ + seq![44u8],
{
    line.push(44);
    assert(line@ =~= old(line)@ + seq![44u8]);
}

/// Append bytes.
pub(crate) fn push_bytes(line: &mut Vec<u8>, bytes: &[u8])
    ensures
        final(line)@ == old(line)@ + bytes@,
{
    line.extend_from_slice(bytes);
    assert(line@ =~= old(line)@ + bytes@);
}

/// Append carriage return and line feed.
pub(crate) fn push_line_end(line: &mut Vec<u8>)
    ensures
        final(line)@ == old(line)@ + seq![13u8, 10u8],
{
    line.push(13);
    line.push(10);
    assert(line@ =~= old(line)@ + seq![13u8, 10u8]);
}

/// Write the line that reports a packet, ended by carriage return and line feed.
pub fn report_line(address: u16, data: &[u8], rssi: i32, snr: i32) -> (line: Vec<u8>)
    ensures
        line@ == rcv_line(address, data@, rssi, snr) + seq![13u8, 10u8],
{
    let mut line: Vec<u8> = Vec::new();
    proof {
        reveal_strlit("+RCV=");
    }
    push_text(&mut line, "+RCV=");
    assert(line@ =~= ascii("+RCV="@));
    push_decimal(&mut line, address as u64);
    push_comma(&mut line);
    push_decimal(&mut line, data.len() as u64);
    push_comma(&mut line);
    push_bytes(&mut line, data);
    push_comma(&mut line);
    push_signed(&mut line, rssi);
    push_comma(&mut line);
    push_signed(&mut line, snr);
    push_line_end(&mut line);
    line
}

/// Whether a field holds no comma.
pub open spec fn comma_free(s: Seq<u8>) -> bool {
    forall|i: int| 0 <= i < s.len() ==> #[trigger] s[i] != 44
}

/// Joined fields come apart again.
proof fn fields_come_apart(prefix: Seq<u8>, fields: Seq<Seq<u8>>, n: nat)
    requires
        n < fields.len(),
        forall|i: int| 0 <= i < fields.len() ==> comma_free(#[trigger] fields[i]),
    ensures
        field_from(prefix + comma_joined(fields), prefix.len() as int, n) == Some(
            fields[n as int],
        ),
    decreases n,
{
    let s = prefix + comma_joined(fields);
    let start = prefix.len() as int;
    let end = start + fields[0].len();
    assert(comma_free(fields[0]));
    if fields.len() == 1 {
        assert(s.len() == end);
        assert forall|i: int| start <= i < end implies #[trigger] s[i] != 44 by {
            assert(s[i] == fields[0][i - start]);
        }
        next_at_is(s, 44, start, end);
        assert(s.subrange(start, end) =~= fields[0]);
    } else {
        let rest = fields.drop_first();
        assert(s[end] == 44);
        assert forall|i: int| start <= i < end implies #[trigger] s[i] != 44 by {
            assert(s[i] == fields[0][i - start]);
        }
        next_at_is(s, 44, start, end);
        assert(s.subrange(start, end) =~= fields[0]);
        if n > 0 {
            let longer = prefix + fields[0] + seq![44u8];
            assert(longer + comma_joined(rest) =~= s);
            assert forall|i: int| 0 <= i < rest.len() implies comma_free(#[trigger] rest[i]) by {
                assert(rest[i] == fields[i + 1]);
            }
            fields_come_apart(longer, rest, (n - 1) as nat);
        }
    }
}

/// A packet reads back from the line that reports it, where its data is no
/// longer than the module delivers and holds no comma.
pub proof fn report_reads_back(address: u16, data: Seq<u8>, rssi: i32, snr: i32)
    requires
        data.len() <= MAX_DATA_LEN,
        comma_free(data),
    ensures
        packet_of(rcv_line(address, data, rssi, snr)) == Some(
            Packet { address, length: data.len() as usize, data, rssi, snr },
        ),
{
    let prefix = ascii("+RCV="@);
    let f = seq![
        decimal(address as nat),
        decimal(data.len()),
        data,
        signed_decimal(rssi as int),
        signed_decimal(snr as int),
    ];
    decimal_spells(address as nat);
    decimal_spells(data.len());
    signed_is_comma_free(rssi as int);
    signed_is_comma_free(snr as int);
    assert forall|i: int| 0 <= i < f.len() implies comma_free(#[trigger] f[i]) by {
        if i == 0 {
            digits_are_comma_free(f[0]);
        } else if i == 1 {
            digits_are_comma_free(f[1]);
        }
    }
    five_joined(prefix, f[0], f[1], f[2], f[3], f[4]);
    let line = prefix + comma_joined(f);
    assert(line == rcv_line(address, data, rssi, snr));
    assert(line.subrange(0, prefix.len() as int) =~= prefix);
    fields_come_apart(prefix, f, 0);
    fields_come_apart(prefix, f, 1);
    fields_come_apart(prefix, f, 2);
    fields_come_apart(prefix, f, 3);
    fields_come_apart(prefix, f, 4);
    unsigned_reads_back(address as nat, 0xffff);
    unsigned_reads_back(data.len(), usize::MAX as nat);
    signed_reads_back(rssi);
    signed_reads_back(snr);
}

/// Digits are not commas.
proof fn digits_are_comma_free(s: Seq<u8>)
    requires
        forall|i: int| 0 <= i < s.len() ==> is_digit(#[trigger] s[i]),
    ensures
        comma_free(s),
{
    assert forall|i: int| 0 <= i < s.len() implies #[trigger] s[i] != 44 by {
        assert(is_digit(s[i]));
    }
}

/// The decimal form of a signed number holds no comma.
proof fn signed_is_comma_free(n: int)
    ensures
        comma_free(signed_decimal(n)),
{
    if n < 0 {
        let d = decimal((-n) as nat);
        decimal_spells((-n) as nat);
        digits_are_comma_free(d);
        let s = signed_decimal(n);
        assert forall|i: int| 0 <= i < s.len() implies #[trigger] s[i] != 44 by {
            if i > 0 {
                assert(s[i] == d[i - 1]);
            }
        }
    } else {
        decimal_spells(n as nat);
        digits_are_comma_free(decimal(n as nat));
    }
}

/// A report's five fields are the sender's address, the length, the data, the
/// signal strength and the signal-to-noise ratio, in that order.
pub proof fn report_fields_in_order(
    a: Seq<u8>,
    l: Seq<u8>,
    d: Seq<u8>,
    r: Seq<u8>,
    n: Seq<u8>,
    address: u16,
    length: usize,
    rssi: i32,
    snr: i32,
)
    requires
        comma_free(a),
        comma_free(l),
        comma_free(d),
        comma_free(r),
        comma_free(n),
        d.len() <= 240,
        parsed_unsigned(a, 0xffff) == Some(address as nat),
        parsed_unsigned(l, usize::MAX as nat) == Some(length as nat),
        parsed_signed(r) == Some(rssi as int),
        parsed_signed(n) == Some(snr as int),
    ensures
        packet_of(
            seq![43u8, 82, 67, 86, 61] + a + seq![44u8] + l + seq![44u8] + d + seq![44u8] + r
                + seq![44u8] + n,
        ) == Some(Packet { address, length, data: d, rssi, snr }),
{
    reveal_strlit("+RCV=");
    let prefix = seq![43u8, 82, 67, 86, 61];
    assert(ascii("+RCV="@) =~= prefix);
    let f = seq![a, l, d, r, n];
    five_joined(prefix, a, l, d, r, n);
    let line = prefix + comma_joined(f);
    assert(line.subrange(0, 5) =~= prefix);
    assert forall|i: int| 0 <= i < f.len() implies comma_free(#[trigger] f[i]) by {}
    fields_come_apart(prefix, f, 0);
    fields_come_apart(prefix, f, 1);
    fields_come_apart(prefix, f, 2);
    fields_come_apart(prefix, f, 3);
    fields_come_apart(prefix, f, 4);
}

/// A line that does not start as a report does, or whose data is over what the
/// module delivers, is no report.
pub proof fn other_lines_are_no_reports(line: Seq<u8>)
    ensures
        line.len() < 5 || line.subrange(0, 5) != seq![43u8, 82, 67, 86, 61] ==> packet_of(
            line,
        ) is None,
        packet_of(line) matches Some(p) ==> p.data.len() <= 240,
{
    reveal_strlit("+RCV=");
    assert(ascii("+RCV="@) =~= seq![43u8, 82, 67, 86, 61]);
}

} // verus!
