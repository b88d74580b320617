//! Building text a character at a time.

use vstd::prelude::*;

verus! {

/// `String::push` appends one character and leaves the rest as it was.
pub assume_specification[ String::push ](s: &mut String, c: char)
    ensures
        final(s)@ == old(s)@.push(c),
;

/// The lowercase hex digit of a value below sixteen.
pub open spec fn hex_digit(n: u8) -> char {
    if n < 10 {
        ((0x30 + n) as u8) as char
    } else {
        ((0x57 + n) as u8) as char
    }
}

/// The two lowercase hex digits of a byte.
pub open spec fn hex_pair(b: u8) -> Seq<char> {
    seq![hex_digit(b / 16), hex_digit(b % 16)]
}

/// Append the two lowercase hex digits of `b`.
pub fn push_hex_pair(s: &mut String, b: u8)
    ensures
        final(s)@ == old(s)@ + hex_pair(b),
{
    let hi: u8 = b / 16;
    let lo: u8 = b % 16;
    s.push(if hi < 10 { (0x30 + hi) as char } else { (0x57 + hi) as char });
    s.push(if lo < 10 { (0x30 + lo) as char } else { (0x57 + lo) as char });
    assert(s@ =~= old(s)@ + hex_pair(b));
}

/// The value of a lowercase hex digit.
pub open spec fn hex_value(c: char) -> int {
    if '0' <= c <= '9' {
        c as int - '0' as int
    } else if 'a' <= c <= 'f' {
        c as int - 'a' as int + 10
    } else {
        -1
    }
}

/// A byte's two hex digits spell it, the higher first.
pub proof fn hex_pair_spells(b: u8)
    ensures
        hex_pair(b).len() == 2,
        0 <= hex_value(hex_pair(b)[0]) < 16,
        0 <= hex_value(hex_pair(b)[1]) < 16,
        16 * hex_value(hex_pair(b)[0]) + hex_value(hex_pair(b)[1]) == b,
{
}

} // verus!
