//! Bytes as hexadecimal text.

use vstd::prelude::*;

use crate::bounded::BoundedVec;
use crate::codec::overlay;
use crate::link::LinkError;

verus! {

/// The lowercase ASCII digit of a value below sixteen.
pub open spec fn hex_char(n: u8) -> u8 {
    if n < 10 {
        (48 + n) as u8
    } else {
        (87 + n) as u8
    }
}

/// The hexadecimal text of `bytes`: two lowercase digits each.
pub open spec fn hex_text(bytes: Seq<u8>) -> Seq<u8> {
    Seq::new(
        2 * bytes.len(),
        |i: int|
            hex_char(
                if i % 2 == 0 {
                    bytes[i / 2] / 16
                } else {
                    bytes[i / 2] % 16
                },
            ),
    )
}

/// The value of an ASCII hexadecimal digit of either case.
pub open spec fn nibble_value(c: u8) -> Option<u8> {
    if 48 <= c <= 57 {
        Some((c - 48) as u8)
    } else if 97 <= c <= 102 {
        Some((c - 87) as u8)
    } else if 65 <= c <= 70 {
        Some((c - 55) as u8)
    } else {
        None
    }
}

/// The byte that two hexadecimal digits spell.
pub open spec fn pair_value(hi: u8, lo: u8) -> Option<u8> {
    match (nibble_value(hi), nibble_value(lo)) {
        (Some(h), Some(l)) => Some((h * 16 + l) as u8),
        _ => None,
    }
}

/// The bytes that the digit pairs of `s` spell, up to the first pair that is not
/// hexadecimal.
pub open spec fn decoded(s: Seq<u8>, pairs: int) -> Seq<u8>
    decreases pairs,
{
    if pairs <= 0 {
        Seq::empty()
    } else {
        let before = decoded(s, pairs - 1);
        match pair_value(s[2 * (pairs - 1)], s[2 * (pairs - 1) + 1]) {
            Some(b) => if before.len() == pairs - 1 {
                before.push(b)
            } else {
                before
            },
            None => before,
        }
    }
}

/// Append the hexadecimal text of `bytes`; text that does not fit is cut off and
/// refused.
pub fn push_hex<const N: usize>(out: &mut BoundedVec<u8, N>, bytes: &[u8]) -> (r: Result<
    (),
    LinkError,
>)
    requires
        old(out)@.len() <= N,
    ensures
        ({
            let whole = old(out)@ + hex_text(bytes@);
            match r {
                Ok(_) => whole.len() <= N && final(out)@ == whole,
                Err(e) => e == LinkError::BufferFull && whole.len() > N && final(out)@
                    == whole.subrange(0, N as int),
            }
        }),
{
    let ghost before = out@;
    let ghost whole = before + hex_text(bytes@);
    let n: usize = bytes.len();
    let mut i: usize = 0;
    assert(before =~= whole.subrange(0, before.len() as int));
    while i < n
        invariant
            i <= n,
            n == bytes@.len(),
            before == old(out)@,
            whole == before + hex_text(bytes@),
            before.len() + 2 * i <= N,
            out@ == whole.subrange(0, before.len() + 2 * i),
        decreases n - i,
    {
        let b: u8 = bytes[i];
        let hi: u8 = b / 16;
        let lo: u8 = b % 16;
        let hi_char: u8 = if hi < 10 { 48 + hi } else { 87 + hi };
        let lo_char: u8 = if lo < 10 { 48 + lo } else { 87 + lo };
        assert(whole[before.len() + 2 * i] == hi_char) by {
            assert((2 * i as int) % 2 == 0 && (2 * i as int) / 2 == i);
        }
        assert(whole[before.len() + 2 * i + 1] == lo_char) by {
            assert((2 * i as int + 1) % 2 == 1 && (2 * i as int + 1) / 2 == i);
        }
        if !out.push(hi_char) {
            assert(out@ =~= whole.subrange(0, N as int));
            return Err(LinkError::BufferFull);
        }
        assert(out@ =~= whole.subrange(0, before.len() + 2 * i + 1));
        if !out.push(lo_char) {
            assert(out@ =~= whole.subrange(0, N as int));
            return Err(LinkError::BufferFull);
        }
        i = i + 1;
        assert(out@ =~= whole.subrange(0, before.len() + 2 * i));
    }
    assert(out@ =~= whole);
    Ok(())
}

/// The value of an ASCII hexadecimal digit of either case.
pub fn nibble(c: u8) -> (r: Result<u8, LinkError>)
    ensures
        match r {
            Ok(v) => nibble_value(c) == Some(v) && v < 16,
            Err(e) => e == LinkError::InvalidPacket && nibble_value(c) is None,
        },
{
    if 48 <= c && c <= 57 {
        Ok(c - 48)
    } else if 97 <= c && c <= 102 {
        Ok(c - 87)
    } else if 65 <= c && c <= 70 {
        Ok(c - 55)
    } else {
        Err(LinkError::InvalidPacket)
    }
}

/// Decode hexadecimal text into `out`, returning the number of bytes.  Text of
/// odd length or with a byte that is no digit is refused, and so is one that
/// `out` is too small for; what was decoded before a bad digit stays in `out`.
pub fn decode_hex(s: &[u8], out: &mut [u8]) -> (r: Result<usize, LinkError>)
    ensures
        ({
            let n = s@.len() as int / 2;
            match r {
                Ok(len) => {
                    &&& s@.len() % 2 == 0
                    &&& len == n
                    &&& n <= old(out)@.len()
                    &&& decoded(s@, n).len() == n
                    &&& final(out)@ == overlay(old(out)@, 0, decoded(s@, n))
                },
                Err(e) => if s@.len() % 2 != 0 {
                    e == LinkError::InvalidPacket && final(out)@ == old(out)@
                } else if n > old(out)@.len() {
                    e == LinkError::BufferFull && final(out)@ == old(out)@
                } else {
                    &&& e == LinkError::InvalidPacket
                    &&& decoded(s@, n).len() < n
                    &&& final(out)@ == overlay(old(out)@, 0, decoded(s@, n))
                },
            }
        }),
{
    let len: usize = s.len();
    if len % 2 != 0 {
        return Err(LinkError::InvalidPacket);
    }
    let n: usize = len / 2;
    if n > out.len() {
        return Err(LinkError::BufferFull);
    }
    let ghost before = out@;
    let mut i: usize = 0;
    assert(out@ =~= overlay(before, 0, decoded(s@, 0)));
    while i < n
        invariant
            i <= n,
            n == len / 2,
            len == s@.len(),
            len % 2 == 0,
            n <= before.len(),
            before == old(out)@,
            out@.len() == before.len(),
            decoded(s@, i as int).len() == i,
            out@ == overlay(before, 0, decoded(s@, i as int)),
        decreases n - i,
    {
        let hi = nibble(s[2 * i]);
        let lo = nibble(s[2 * i + 1]);
        match (hi, lo) {
            (Ok(h), Ok(l)) => {
                assert((h << 4) | l == h * 16 + l) by (bit_vector)
                    requires
                        h < 16,
                        l < 16,
                ;
                out[i] = (h << 4) | l;
                i = i + 1;
                assert(out@ =~= overlay(before, 0, decoded(s@, i as int)));
            },
            _ => {
                proof {
                    decoded_stops(s@, i as int + 1, n as int);
                    assert(decoded(s@, i as int + 1) == decoded(s@, i as int));
                }
                return Err(LinkError::InvalidPacket);
            },
        }
    }
    Ok(n)
}

/// Once a pair is bad, nothing more is decoded.
proof fn decoded_stops(s: Seq<u8>, pairs: int, more: int)
    requires
        0 < pairs <= more,
        decoded(s, pairs).len() < pairs,
    ensures
        decoded(s, more) == decoded(s, pairs),
    decreases more - pairs,
{
    if pairs < more {
        decoded_stops(s, pairs, more - 1);
    }
}

/// Hexadecimal text decodes to the bytes it was made from.
pub proof fn hex_decodes(bytes: Seq<u8>, n: int)
    requires
        0 <= n <= bytes.len(),
    ensures
        decoded(hex_text(bytes), n) == bytes.subrange(0, n),
    decreases n,
{
    if n > 0 {
        hex_decodes(bytes, n - 1);
        let s = hex_text(bytes);
        let i = n - 1;
        assert((2 * i) % 2 == 0 && (2 * i) / 2 == i);
        assert((2 * i + 1) % 2 == 1 && (2 * i + 1) / 2 == i);
        assert(s[2 * i] == hex_char(bytes[i] / 16));
        assert(s[2 * i + 1] == hex_char(bytes[i] % 16));
        assert(pair_value(s[2 * i], s[2 * i + 1]) == Some(bytes[i]));
        assert(bytes.subrange(0, n) =~= bytes.subrange(0, i).push(bytes[i]));
    } else {
        assert(bytes.subrange(0, 0) =~= Seq::<u8>::empty());
    }
}

/// A hexadecimal digit's value, written as the digits are: nought to nine, then
/// `a` to `f` or `A` to `F`.  No other character has one.
pub proof fn digits_have_their_values(c: u8, n: u8)
    ensures
        n < 10 ==> nibble_value((48 + n) as u8) == Some(n),
        n < 6 ==> nibble_value((97 + n) as u8) == Some((10 + n) as u8),
        n < 6 ==> nibble_value((65 + n) as u8) == Some((10 + n) as u8),
        !(48 <= c <= 57) && !(97 <= c <= 102) && !(65 <= c <= 70) ==> nibble_value(c) is None,
{
}

/// Text is written two digits to the byte, the higher first, in lower case.
pub proof fn text_spells_bytes(bytes: Seq<u8>, i: int)
    requires
        0 <= i < bytes.len(),
    ensures
        hex_text(bytes).len() == 2 * bytes.len(),
        nibble_value(hex_text(bytes)[2 * i]) == Some((bytes[i] / 16) as u8),
        nibble_value(hex_text(bytes)[2 * i + 1]) == Some((bytes[i] % 16) as u8),
        !(65 <= hex_text(bytes)[2 * i] <= 70),
        !(65 <= hex_text(bytes)[2 * i + 1] <= 70),
{
    assert((2 * i) / 2 == i && (2 * i) % 2 == 0);
    assert((2 * i + 1) / 2 == i && (2 * i + 1) % 2 == 1);
}

/// Text decodes to the bytes its digits spell, whichever case each has.
pub proof fn either_case_decodes(s: Seq<u8>, bytes: Seq<u8>, n: int)
    requires
        0 <= n <= bytes.len(),
        s.len() == 2 * bytes.len(),
        forall|i: int|
            0 <= i < bytes.len() ==> nibble_value(s[2 * i]) == Some(
                (#[trigger] bytes[i] / 16) as u8,
            ) && nibble_value(s[2 * i + 1]) == Some((bytes[i] % 16) as u8),
    ensures
        decoded(s, n) == bytes.take(n),
    decreases n,
{
    if n > 0 {
        either_case_decodes(s, bytes, n - 1);
        let b = bytes[n - 1];
        assert(pair_value(s[2 * (n - 1)], s[2 * (n - 1) + 1]) == Some(b));
        assert(bytes.take(n) =~= bytes.take(n - 1).push(b));
    } else {
        assert(bytes.take(0) =~= Seq::<u8>::empty());
    }
}

/// Text with a character that is no digit decodes no further than that.
pub proof fn decoding_stops_at_no_digit(s: Seq<u8>, n: int, k: int)
    requires
        0 <= k < n,
        2 * n <= s.len(),
        nibble_value(s[2 * k]) is None || nibble_value(s[2 * k + 1]) is None,
    ensures
        decoded(s, n).len() <= k,
    decreases n,
{
    decoded_no_more(s, n - 1);
    if k < n - 1 {
        decoding_stops_at_no_digit(s, n - 1, k);
    }
}

/// No more bytes are decoded than there are pairs.
proof fn decoded_no_more(s: Seq<u8>, n: int)
    requires
        0 <= n,
    ensures
        decoded(s, n).len() <= n,
    decreases n,
{
    if n > 0 {
        decoded_no_more(s, n - 1);
    }
}

} // verus!
