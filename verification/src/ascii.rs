//! Text as bytes: decimal numbers, prefixes, fields and surrounding space.

use vstd::prelude::*;
use vstd::string::StringSliceAdditionalSpecFns;

verus! {

/// The bytes of a piece of ASCII text, one per character.
pub open spec fn ascii(s: Seq<char>) -> Seq<u8> {
    s.map_values(|c: char| c as u8)
}

/// Append the bytes of a piece of ASCII text.
pub fn push_text(out: &mut Vec<u8>, text: &str)
    requires
        vstd::string::is_ascii(text),
    ensures
        final(out)@ == old(out)@ + ascii(text@),
{
    broadcast use vstd::string::is_ascii_spec_bytes;

    out.extend_from_slice(text.as_bytes());
    assert(text.spec_bytes() =~= ascii(text@));
    assert(out@ =~= old(out)@ + ascii(text@));
}

/// The decimal digits of `n`, as ASCII.
pub open spec fn decimal(n: nat) -> Seq<u8>
    decreases n,
{
    if n < 10 {
        seq![(48 + n) as u8]
    } else {
        decimal(n / 10).push((48 + n % 10) as u8)
    }
}

/// Append the decimal digits of `n`.
pub fn push_decimal(out: &mut Vec<u8>, n: u64)
    ensures
        final(out)@ == old(out)@ + decimal(n as nat),
    decreases n,
{
    if n >= 10 {
        push_decimal(out, n / 10);
    }
    out.push(48 + (n % 10) as u8);
    assert(out@ =~= old(out)@ + decimal(n as nat));
}

/// The decimal form of a signed number: a minus sign where it is below zero.
pub open spec fn signed_decimal(n: int) -> Seq<u8> {
    if n < 0 {
        seq![45u8] + decimal((-n) as nat)
    } else {
        decimal(n as nat)
    }
}

/// Append the decimal form of a signed number.
pub fn push_signed(out: &mut Vec<u8>, n: i32)
    ensures
        final(out)@ == old(out)@ + signed_decimal(n as int),
{
    let wide: i64 = n as i64;
    if wide < 0 {
        out.push(45);
        push_decimal(out, (-wide) as u64);
    } else {
        push_decimal(out, wide as u64);
    }
    assert(out@ =~= old(out)@ + signed_decimal(n as int));
}

/// Whether a byte is an ASCII decimal digit.
pub open spec fn is_digit(b: u8) -> bool {
    48 <= b <= 57
}

/// Whether bytes are one or more decimal digits.
pub open spec fn all_digits(s: Seq<u8>) -> bool {
    s.len() > 0 && forall|i: int| 0 <= i < s.len() ==> is_digit(#[trigger] s[i])
}

/// The number that decimal digits spell.
pub open spec fn digits_value(s: Seq<u8>) -> nat
    decreases s.len(),
{
    if s.len() == 0 {
        0
    } else {
        digits_value(s.drop_last()) * 10 + (s.last() - 48) as nat
    }
}

/// The bytes behind a leading plus sign, if there is one.
pub open spec fn unsigned_part(s: Seq<u8>) -> Seq<u8> {
    if s.len() > 0 && s[0] == 43 {
        s.subrange(1, s.len() as int)
    } else {
        s
    }
}

/// The number an unsigned decimal text means: digits, with an optional plus sign
/// in front, no greater than `max`.
pub open spec fn parsed_unsigned(s: Seq<u8>, max: nat) -> Option<nat> {
    let d = unsigned_part(s);
    if all_digits(d) && digits_value(d) <= max {
        Some(digits_value(d))
    } else {
        None
    }
}

/// The number a signed 32-bit decimal text means: digits, with an optional sign
/// in front, within range.
pub open spec fn parsed_signed(s: Seq<u8>) -> Option<int> {
    if s.len() > 0 && s[0] == 45 {
        let d = s.subrange(1, s.len() as int);
        if all_digits(d) && digits_value(d) <= 0x8000_0000 {
            Some(-(digits_value(d) as int))
        } else {
            None
        }
    } else {
        match parsed_unsigned(s, 0x7fff_ffff) {
            Some(v) => Some(v as int),
            None => None,
        }
    }
}

/// Longer digits never spell a smaller number.
proof fn digits_value_grows(s: Seq<u8>, n: int)
    requires
        0 <= n <= s.len(),
        forall|i: int| 0 <= i < s.len() ==> is_digit(#[trigger] s[i]),
    ensures
        digits_value(s.take(n)) <= digits_value(s),
    decreases s.len() - n,
{
    if n < s.len() {
        digits_value_grows(s, n + 1);
        assert(s.take(n + 1).drop_last() =~= s.take(n));
    } else {
        assert(s.take(n) =~= s);
    }
}

/// The number that the digits of `s` from `from` on spell, where they are digits
/// and it is no greater than `max`.
fn parse_digits(s: &[u8], from: usize, max: u64) -> (r: Option<u64>)
    requires
        from <= s@.len(),
    ensures
        ({
            let d = s@.subrange(from as int, s@.len() as int);
            match r {
                Some(v) => all_digits(d) && v == digits_value(d) && v <= max,
                None => !all_digits(d) || digits_value(d) > max,
            }
        }),
{
    let ghost d = s@.subrange(from as int, s@.len() as int);
    let n: usize = s.len();
    if from == n {
        return None;
    }
    let mut value: u128 = 0;
    let mut i: usize = from;
    while i < n
        invariant
            from <= i <= n,
            n == s@.len(),
            d == s@.subrange(from as int, s@.len() as int),
            value <= max,
            value == digits_value(d.take(i - from)),
            forall|j: int| 0 <= j < i - from ==> is_digit(#[trigger] d[j]),
        decreases n - i,
    {
        let b: u8 = s[i];
        assert(b == d[i - from]);
        if b < 48 || b > 57 {
            return None;
        }
        assert(d.take(i - from + 1).drop_last() =~= d.take(i - from));
        value = value * 10 + (b - 48) as u128;
        i = i + 1;
        if value > max as u128 {
            proof {
                if all_digits(d) {
                    digits_value_grows(d, i - from);
                }
            }
            return None;
        }
    }
    assert(d.take(n - from) =~= d);
    Some(value as u64)
}

/// Read an unsigned decimal number no greater than `max`.
pub fn parse_unsigned(s: &[u8], max: u64) -> (r: Option<u64>)
    ensures
        match r {
            Some(v) => parsed_unsigned(s@, max as nat) == Some(v as nat),
            None => parsed_unsigned(s@, max as nat) is None,
        },
{
    if s.len() > 0 && s[0] == 43 {
        parse_digits(s, 1, max)
    } else {
        assert(s@.subrange(0, s@.len() as int) =~= s@);
        parse_digits(s, 0, max)
    }
}

/// Read a signed 32-bit decimal number.
pub fn parse_signed(s: &[u8]) -> (r: Option<i32>)
    ensures
        match r {
            Some(v) => parsed_signed(s@) == Some(v as int),
            None => parsed_signed(s@) is None,
        },
{
    if s.len() > 0 && s[0] == 45 {
        match parse_digits(s, 1, 0x8000_0000) {
            Some(v) => Some((-(v as i64)) as i32),
            None => None,
        }
    } else {
        match parse_unsigned(s, 0x7fff_ffff) {
            Some(v) => Some(v as i32),
            None => None,
        }
    }
}

/// The decimal form of a number is digits that spell it.
pub proof fn decimal_spells(n: nat)
    ensures
        all_digits(decimal(n)),
        digits_value(decimal(n)) == n,
    decreases n,
{
    if n < 10 {
        let s = decimal(n);
        assert(s.drop_last() =~= Seq::<u8>::empty());
        assert(digits_value(s.drop_last()) == 0);
    } else {
        decimal_spells(n / 10);
        let s = decimal(n);
        assert(s.drop_last() =~= decimal(n / 10));
    }
}

/// An unsigned number reads back from its decimal form.
pub proof fn unsigned_reads_back(n: nat, max: nat)
    requires
        n <= max,
    ensures
        parsed_unsigned(decimal(n), max) == Some(n),
{
    decimal_spells(n);
    assert(is_digit(decimal(n)[0]));
}

/// A signed number reads back from its decimal form.
pub proof fn signed_reads_back(n: i32)
    ensures
        parsed_signed(signed_decimal(n as int)) == Some(n as int),
{
    if n < 0 {
        let d = decimal((-n) as nat);
        decimal_spells((-n) as nat);
        assert((seq![45u8] + d).subrange(1, d.len() as int + 1) =~= d);
    } else {
        decimal_spells(n as nat);
        assert(is_digit(decimal(n as nat)[0]));
        unsigned_reads_back(n as nat, 0x7fff_ffff);
    }
}

/// Whether `s` starts with `prefix`.
pub open spec fn has_prefix(s: Seq<u8>, prefix: Seq<u8>) -> bool {
    s.len() >= prefix.len() && s.subrange(0, prefix.len() as int) == prefix
}

/// Whether `s` starts with `prefix`.
pub fn starts_with(s: &[u8], prefix: &[u8]) -> (b: bool)
    ensures
        b == has_prefix(s@, prefix@),
{
    let n: usize = prefix.len();
    if s.len() < n {
        return false;
    }
    let mut i: usize = 0;
    while i < n
        invariant
            i <= n,
            n == prefix@.len(),
            n <= s@.len(),
            forall|j: int| 0 <= j < i ==> s@[j] == #[trigger] prefix@[j],
        decreases n - i,
    {
        if s[i] != prefix[i] {
            assert(s@.subrange(0, n as int)[i as int] == s@[i as int]);
            return false;
        }
        i = i + 1;
    }
    assert(s@.subrange(0, n as int) =~= prefix@);
    true
}

/// The place of the first byte `b` in `s` from `from` on, or the end of `s`.
pub open spec fn next_at(s: Seq<u8>, b: u8, from: int) -> int
    decreases s.len() - from,
{
    if from < 0 || from >= s.len() {
        s.len() as int
    } else if s[from] == b {
        from
    } else {
        next_at(s, b, from + 1)
    }
}

/// The next place lies ahead, and nothing before it matches.
pub proof fn next_at_is_next(s: Seq<u8>, b: u8, from: int)
    requires
        0 <= from <= s.len(),
    ensures
        from <= next_at(s, b, from) <= s.len(),
        next_at(s, b, from) < s.len() ==> s[next_at(s, b, from)] == b,
        forall|i: int| from <= i < next_at(s, b, from) ==> #[trigger] s[i] != b,
    decreases s.len() - from,
{
    if from < s.len() && s[from] != b {
        next_at_is_next(s, b, from + 1);
    }
}

/// The first match, given where it is.
pub proof fn next_at_is(s: Seq<u8>, b: u8, from: int, at: int)
    requires
        0 <= from <= at <= s.len(),
        at < s.len() ==> s[at] == b,
        forall|i: int| from <= i < at ==> #[trigger] s[i] != b,
    ensures
        next_at(s, b, from) == at,
    decreases at - from,
{
    if from < at {
        assert(s[from] != b);
        next_at_is(s, b, from + 1, at);
    }
}

/// The place of the first byte `b` in `s` from `from` on, or the end of `s`.
pub fn find_byte(s: &[u8], b: u8, from: usize) -> (at: usize)
    requires
        from <= s@.len(),
    ensures
        at == next_at(s@, b, from as int),
        from <= at <= s@.len(),
        at < s@.len() ==> s@[at as int] == b,
{
    let n: usize = s.len();
    let mut i: usize = from;
    while i < n && s[i] != b
        invariant
            from <= i <= n,
            n == s@.len(),
            next_at(s@, b, from as int) == next_at(s@, b, i as int),
        decreases n - i,
    {
        i = i + 1;
    }
    i
}

/// Whether a byte alone is white space: tab, line feed, vertical tab, form feed,
/// carriage return or space.
pub open spec fn is_space(b: u8) -> bool {
    9 <= b <= 13 || b == 32
}

/// Whether two bytes together are white space: a next line or no-break space in
/// UTF-8.
pub open spec fn is_wide_space(a: u8, b: u8) -> bool {
    a == 0xc2 && (b == 0x85 || b == 0xa0)
}

/// The place of the first character from `from` on that is not white space.
pub open spec fn skip_space(s: Seq<u8>, from: int) -> int
    decreases s.len() - from,
{
    if 0 <= from < s.len() && is_space(s[from]) {
        skip_space(s, from + 1)
    } else if 0 <= from < s.len() - 1 && is_wide_space(s[from], s[from + 1]) {
        skip_space(s, from + 2)
    } else {
        from
    }
}

/// The place behind the last character before `to` that is not white space.
pub open spec fn back_over_space(s: Seq<u8>, to: int) -> int
    decreases to,
{
    if 0 < to <= s.len() && is_space(s[to - 1]) {
        back_over_space(s, to - 1)
    } else if 1 < to <= s.len() && is_wide_space(s[to - 2], s[to - 1]) {
        back_over_space(s, to - 2)
    } else {
        to
    }
}

/// `s` without white space at either end.
pub open spec fn trimmed(s: Seq<u8>) -> Seq<u8> {
    let start = skip_space(s, 0);
    let end = back_over_space(s, s.len() as int);
    if start < end {
        s.subrange(start, end)
    } else {
        Seq::empty()
    }
}

/// Whether a byte alone is white space.
fn space(b: u8) -> (w: bool)
    ensures
        w == is_space(b),
{
    (9 <= b && b <= 13) || b == 32
}

/// Whether two bytes together are white space.
fn wide_space(a: u8, b: u8) -> (w: bool)
    ensures
        w == is_wide_space(a, b),
{
    a == 0xc2 && (b == 0x85 || b == 0xa0)
}

/// `s` without white space at either end.
pub fn trim<'a>(s: &'a [u8]) -> (t: &'a [u8])
    ensures
        t@ == trimmed(s@),
{
    let n: usize = s.len();
    let mut start: usize = 0;
    loop
        invariant
            start <= n,
            n == s@.len(),
            skip_space(s@, 0) == skip_space(s@, start as int),
        ensures
            start <= n,
            start == skip_space(s@, 0),
        decreases n - start,
    {
        if start < n && space(s[start]) {
            start = start + 1;
        } else if start < n && n - start > 1 && wide_space(s[start], s[start + 1]) {
            start = start + 2;
        } else {
            break;
        }
    }
    let mut end: usize = n;
    loop
        invariant
            end <= n,
            n == s@.len(),
            back_over_space(s@, n as int) == back_over_space(s@, end as int),
        ensures
            end <= n,
            end == back_over_space(s@, n as int),
        decreases end,
    {
        if end > 0 && space(s[end - 1]) {
            end = end - 1;
        } else if end > 1 && wide_space(s[end - 2], s[end - 1]) {
            end = end - 2;
        } else {
            break;
        }
    }
    if start < end {
        &s[start..end]
    } else {
        assert(s@.subrange(0, 0) =~= Seq::<u8>::empty());
        &s[0..0]
    }
}

/// ASCII text that neither starts nor ends with white space is left as it is.
pub proof fn trim_keeps_bare(s: Seq<u8>)
    requires
        s.len() > 0,
        !is_space(s[0]),
        s[0] < 0x80,
        !is_space(s.last()),
        s.last() < 0x80,
    ensures
        trimmed(s) == s,
{
    assert(s.subrange(0, s.len() as int) =~= s);
}

/// White space in front of a text and behind it is taken off, and nothing else.
pub proof fn trim_takes_off_the_space_around(front: Seq<u8>, text: Seq<u8>, back: Seq<u8>)
    requires
        forall|i: int| 0 <= i < front.len() ==> is_space(#[trigger] front[i]),
        forall|i: int| 0 <= i < back.len() ==> is_space(#[trigger] back[i]),
        text.len() > 0,
        !is_space(text[0]),
        text[0] < 0x80,
        !is_space(text.last()),
        text.last() < 0x80,
    ensures
        trimmed(front + text + back) == text,
{
    let s = front + text + back;
    let start = front.len() as int;
    let end = start + text.len();
    assert(s[start] == text[0]);
    assert(s[end - 1] == text.last());
    skips_all_space(s, 0, start);
    backs_over_all_space(s, end, s.len() as int);
    assert(s.subrange(start, end) =~= text);
}

/// A text of white space alone comes to nothing.
pub proof fn space_alone_comes_to_nothing(s: Seq<u8>)
    requires
        forall|i: int| 0 <= i < s.len() ==> is_space(#[trigger] s[i]),
    ensures
        trimmed(s) == Seq::<u8>::empty(),
{
    skips_all_space(s, 0, s.len() as int);
    backs_no_further(s, s.len() as int);
}

/// Going back never passes the end.
proof fn backs_no_further(s: Seq<u8>, to: int)
    ensures
        back_over_space(s, to) <= to,
    decreases to,
{
    if 0 < to <= s.len() && is_space(s[to - 1]) {
        backs_no_further(s, to - 1);
    } else if 1 < to <= s.len() && is_wide_space(s[to - 2], s[to - 1]) {
        backs_no_further(s, to - 2);
    }
}

/// Skipping goes over white space up to where it ends.
proof fn skips_all_space(s: Seq<u8>, from: int, end: int)
    requires
        0 <= from <= end <= s.len(),
        forall|i: int| from <= i < end ==> is_space(#[trigger] s[i]),
        end < s.len() ==> !is_space(s[end]) && s[end] < 0x80,
    ensures
        skip_space(s, from) == end,
    decreases end - from,
{
    if from < end {
        assert(is_space(s[from]));
        skips_all_space(s, from + 1, end);
    }
}

/// Going back goes over white space down to where it begins.
proof fn backs_over_all_space(s: Seq<u8>, start: int, to: int)
    requires
        0 < start <= to <= s.len(),
        forall|i: int| start <= i < to ==> is_space(#[trigger] s[i]),
        !is_space(s[start - 1]) && s[start - 1] < 0x80,
    ensures
        back_over_space(s, to) == start,
    decreases to,
{
    if start < to {
        assert(is_space(s[to - 1]));
        backs_over_all_space(s, start, to - 1);
    }
}

/// White space is the blank and the five controls from tab to carriage return, and
/// no printable character else.
pub proof fn space_is_blank_or_control(b: u8)
    ensures
        is_space(b) == (b == 32 || b == 9 || b == 10 || b == 11 || b == 12 || b == 13),
{
}

/// A text has a prefix exactly where it is that prefix with something behind it.
pub proof fn prefix_is_the_front(s: Seq<u8>, prefix: Seq<u8>, rest: Seq<u8>)
    ensures
        has_prefix(prefix + rest, prefix),
        has_prefix(s, prefix) ==> s == prefix + s.subrange(prefix.len() as int, s.len() as int),
        s.len() < prefix.len() ==> !has_prefix(s, prefix),
{
    assert((prefix + rest).subrange(0, prefix.len() as int) =~= prefix);
    if has_prefix(s, prefix) {
        assert(s =~= s.subrange(0, prefix.len() as int) + s.subrange(
            prefix.len() as int,
            s.len() as int,
        ));
    }
}

/// A number read is within its bounds, and one within them is read whatever its
/// sign says: a plus sign changes nothing, a minus sign turns it round.
pub proof fn numbers_are_within_bounds(s: Seq<u8>, max: nat, n: nat)
    ensures
        parsed_unsigned(s, max) matches Some(v) ==> v <= max,
        parsed_signed(s) matches Some(v) ==> -0x8000_0000 <= v <= 0x7fff_ffff,
        n <= max ==> parsed_unsigned(seq![43u8] + decimal(n), max) == Some(n),
        n > max ==> parsed_unsigned(decimal(n), max) is None,
        n <= 0x8000_0000 ==> parsed_signed(seq![45u8] + decimal(n)) == Some(-(n as int)),
        n <= 0x7fff_ffff ==> parsed_signed(seq![43u8] + decimal(n)) == Some(n as int),
{
    decimal_spells(n);
    let d = decimal(n);
    let plus = seq![43u8] + d;
    let minus = seq![45u8] + d;
    assert(plus.subrange(1, plus.len() as int) =~= d);
    assert(minus.subrange(1, minus.len() as int) =~= d);
    assert(is_digit(d[0]));
}

/// A number is refused where a character of it is no digit, but for a sign in
/// front.
pub proof fn only_numbers_are_read(s: Seq<u8>, max: nat, i: int)
    requires
        0 <= i < s.len(),
        !is_digit(s[i]),
    ensures
        i > 0 ==> parsed_unsigned(s, max) is None && parsed_signed(s) is None,
        s[i] != 43 ==> parsed_unsigned(s, max) is None,
        s[i] != 43 && s[i] != 45 ==> parsed_signed(s) is None,
{
    if i > 0 {
        if s[0] == 43 || s[0] == 45 {
            assert(s.subrange(1, s.len() as int)[i - 1] == s[i]);
        }
    } else if s[0] != 43 {
        assert(s[0] == s[i]);
    }
}

} // verus!
