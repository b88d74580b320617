//! Reading a 32-byte key from hexadecimal text, colon-delimited or bare.

use vstd::prelude::*;
use vstd::string::StringSliceAdditionalSpecFns;

use crate::ascii::find_byte;
use crate::ascii::next_at;
use crate::ascii::next_at_is;
use crate::ascii::next_at_is_next;

verus! {

/// Length of a key in bytes.
pub const KEY_LEN: usize = 32;

/// Why a text is not a key.
#[derive(Debug, Clone, Copy, PartialEq, Eq, Structural)]
pub enum KeyError {
    /// A colon-delimited field is not a byte in hexadecimal.
    NotColonHex,
    /// A bare text has an odd number of digits.
    OddLength,
    /// A bare text has a pair that is not a byte in hexadecimal.
    NotHex,
    /// The key is not 32 bytes; carries its length.
    WrongLength(usize),
}

/// The value of a hexadecimal digit of either case.
pub open spec fn digit_value(c: u8) -> Option<nat> {
    if 48 <= c <= 57 {
        Some((c - 48) as nat)
    } else if 97 <= c <= 102 {
        Some((c - 87) as nat)
    } else if 65 <= c <= 70 {
        Some((c - 55) as nat)
    } else {
        None
    }
}

/// The number that hexadecimal digits spell, if they are digits.
pub open spec fn digits_spell(s: Seq<u8>) -> Option<nat>
    decreases s.len(),
{
    if s.len() == 0 {
        Some(0)
    } else {
        match (digits_spell(s.drop_last()), digit_value(s.last())) {
            (Some(n), Some(d)) => Some(n * 16 + d),
            _ => None,
        }
    }
}

/// The byte a field spells: one or more hexadecimal digits, with an optional plus
/// sign in front, up to 255.
pub open spec fn byte_spelled(s: Seq<u8>) -> Option<u8> {
    let d = if s.len() > 1 && s[0] == 43 {
        s.subrange(1, s.len() as int)
    } else {
        s
    };
    match digits_spell(d) {
        Some(n) => if d.len() > 0 && n <= 255 {
            Some(n as u8)
        } else {
            None
        },
        None => None,
    }
}

/// The bytes that the colon-delimited fields from `from` on spell, if all do.
pub open spec fn colon_bytes(s: Seq<u8>, from: int) -> Option<Seq<u8>>
    decreases s.len() - from,
    when 0 <= from <= s.len()
{
    let end = next_at(s, 58, from);
    match byte_spelled(s.subrange(from, end)) {
        None => None,
        Some(b) => if from <= end < s.len() {
            match colon_bytes(s, end + 1) {
                None => None,
                Some(rest) => Some(seq![b] + rest),
            }
        } else {
            Some(seq![b])
        },
    }
}

/// The bytes that the first `n` pairs spell, if all do.
pub open spec fn pair_bytes(s: Seq<u8>, n: nat) -> Option<Seq<u8>>
    decreases n,
{
    if n == 0 {
        Some(Seq::empty())
    } else {
        let at = 2 * (n - 1);
        match (pair_bytes(s, (n - 1) as nat), byte_spelled(s.subrange(at, at + 2))) {
            (Some(before), Some(b)) => Some(before.push(b)),
            _ => None,
        }
    }
}

/// The key a text means, or why it means none.
pub open spec fn key_of(s: Seq<u8>) -> Result<Seq<u8>, KeyError> {
    let read = if next_at(s, 58, 0) < s.len() {
        match colon_bytes(s, 0) {
            Some(bytes) => Ok(bytes),
            None => Err(KeyError::NotColonHex),
        }
    } else if s.len() % 2 != 0 {
        Err(KeyError::OddLength)
    } else {
        match pair_bytes(s, s.len() / 2) {
            Some(bytes) => Ok(bytes),
            None => Err(KeyError::NotHex),
        }
    };
    match read {
        Ok(bytes) => if bytes.len() == KEY_LEN {
            Ok(bytes)
        } else {
            Err(KeyError::WrongLength(bytes.len() as usize))
        },
        Err(e) => Err(e),
    }
}

/// The value of a hexadecimal digit of either case.
fn digit(c: u8) -> (d: Option<u8>)
    ensures
        match d {
            Some(v) => digit_value(c) == Some(v as nat) && v < 16,
            None => digit_value(c) is None,
        },
{
    if 48 <= c && c <= 57 {
        Some(c - 48)
    } else if 97 <= c && c <= 102 {
        Some(c - 87)
    } else if 65 <= c && c <= 70 {
        Some(c - 55)
    } else {
        None
    }
}

/// Once the digits spell more than a byte holds, or are not digits, more digits
/// change neither.
proof fn digits_never_recover(s: Seq<u8>, n: int)
    requires
        0 <= n <= s.len(),
        match digits_spell(s.take(n)) {
            Some(v) => v > 255,
            None => true,
        },
    ensures
        match digits_spell(s) {
            Some(v) => v > 255,
            None => true,
        },
    decreases s.len() - n,
{
    if n < s.len() {
        assert(s.take(n + 1).drop_last() =~= s.take(n));
        digits_never_recover(s, n + 1);
    } else {
        assert(s.take(n) =~= s);
    }
}

/// The byte a field spells.
fn spelled(s: &[u8]) -> (b: Option<u8>)
    ensures
        b == byte_spelled(s@),
{
    let len: usize = s.len();
    let from: usize = if len > 1 && s[0] == 43 { 1 } else { 0 };
    let ghost d = s@.subrange(from as int, len as int);
    assert(from == 0 ==> d =~= s@);
    if from == len {
        return None;
    }
    let mut value: u64 = 0;
    let mut i: usize = from;
    assert(d.take(0) =~= Seq::empty());
    while i < len
        invariant
            from <= i <= len,
            len == s@.len(),
            d == s@.subrange(from as int, len as int),
            value <= 255,
            digits_spell(d.take(i - from)) == Some(value as nat),
            d.len() > 0,
            byte_spelled(s@) == (match digits_spell(d) {
                Some(n) => if n <= 255 {
                    Some(n as u8)
                } else {
                    None
                },
                None => None,
            }),
        decreases len - i,
    {
        let ghost n = i - from;
        assert(d.take(n + 1).drop_last() =~= d.take(n));
        assert(d.take(n + 1).last() == s@[i as int]);
        match digit(s[i]) {
            Some(v) => {
                value = value * 16 + v as u64;
                if value > 255 {
                    proof {
                        digits_never_recover(d, n + 1);
                    }
                    return None;
                }
            },
            None => {
                proof {
                    digits_never_recover(d, n + 1);
                }
                return None;
            },
        }
        i = i + 1;
    }
    assert(d.take(len - from) =~= d);
    Some(value as u8)
}

/// The bytes of the colon-delimited fields of a text.
fn read_colons(s: &[u8]) -> (r: Option<Vec<u8>>)
    ensures
        match r {
            Some(bytes) => colon_bytes(s@, 0) == Some(bytes@),
            None => colon_bytes(s@, 0) is None,
        },
{
    let len: usize = s.len();
    let mut bytes: Vec<u8> = Vec::new();
    let mut from: usize = 0;
    loop
        invariant
            from <= len,
            len == s@.len(),
            colon_bytes(s@, 0) == (match colon_bytes(s@, from as int) {
                Some(rest) => Some(bytes@ + rest),
                None => None,
            }),
        decreases len - from,
    {
        let end: usize = find_byte(s, 58, from);
        let ghost before = bytes@;
        match spelled(&s[from..end]) {
            None => {
                return None;
            },
            Some(b) => {
                bytes.push(b);
                assert(bytes@ =~= before + seq![b]);
                if end >= len {
                    return Some(bytes);
                }
                proof {
                    if let Some(rest) = colon_bytes(s@, end + 1) {
                        assert(before + (seq![b] + rest) =~= bytes@ + rest);
                    }
                }
                from = end + 1;
            },
        }
    }
}

/// Once a pair is not a byte, more pairs do not mend it.
proof fn bad_pair_stays_bad(s: Seq<u8>, n: nat, more: nat)
    requires
        n <= more,
        pair_bytes(s, n) is None,
    ensures
        pair_bytes(s, more) is None,
    decreases more - n,
{
    if n < more {
        bad_pair_stays_bad(s, n, (more - 1) as nat);
    }
}

/// The bytes of the pairs of a text.
fn read_pairs(s: &[u8]) -> (r: Option<Vec<u8>>)
    requires
        s@.len() % 2 == 0,
    ensures
        match r {
            Some(bytes) => pair_bytes(s@, s@.len() / 2) == Some(bytes@),
            None => pair_bytes(s@, s@.len() / 2) is None,
        },
{
    let len: usize = s.len();
    let n: usize = len / 2;
    let mut bytes: Vec<u8> = Vec::new();
    let mut i: usize = 0;
    while i < n
        invariant
            i <= n,
            2 * n == len,
            len == s@.len(),
            pair_bytes(s@, i as nat) == Some(bytes@),
        decreases n - i,
    {
        match spelled(&s[2 * i..2 * i + 2]) {
            Some(b) => {
                bytes.push(b);
            },
            None => {
                proof {
                    bad_pair_stays_bad(s@, (i + 1) as nat, n as nat);
                }
                return None;
            },
        }
        i = i + 1;
    }
    Some(bytes)
}

/// Read a 32-byte key from text, colon-delimited or bare hexadecimal.
pub fn parse_key32(s: &str) -> (r: Result<[u8; 32], KeyError>)
    ensures
        match r {
            Ok(key) => key_of(s.spec_bytes()) == Ok::<Seq<u8>, KeyError>(key@),
            Err(e) => key_of(s.spec_bytes()) == Err::<Seq<u8>, KeyError>(e),
        },
{
    let text = s.as_bytes();
    let len: usize = text.len();
    let bytes: Vec<u8> = if find_byte(text, 58, 0) < len {
        match read_colons(text) {
            Some(bytes) => bytes,
            None => {
                return Err(KeyError::NotColonHex);
            },
        }
    } else {
        if len % 2 != 0 {
            return Err(KeyError::OddLength);
        }
        match read_pairs(text) {
            Some(bytes) => bytes,
            None => {
                return Err(KeyError::NotHex);
            },
        }
    };
    if bytes.len() != KEY_LEN {
        return Err(KeyError::WrongLength(bytes.len()));
    }
    let mut key: [u8; 32] = [0u8; 32];
    let mut i: usize = 0;
    while i < KEY_LEN
        invariant
            i <= 32,
            bytes@.len() == 32,
            forall|j: int| 0 <= j < i ==> (#[trigger] key@[j]) == bytes@[j],
        decreases 32 - i,
    {
        key[i] = bytes[i];
        i = i + 1;
    }
    assert(key@ =~= bytes@);
    Ok(key)
}

/// Whether the two characters at `at` are the digits of `b`, each of either case.
pub open spec fn digits_at(s: Seq<u8>, at: int, b: u8) -> bool {
    digit_value(s[at]) == Some((b / 16) as nat) && digit_value(s[at + 1]) == Some((b % 16) as nat)
}

/// Whether `s` is a key written bare: two digits for each byte.
pub open spec fn is_bare_text(s: Seq<u8>, key: Seq<u8>) -> bool {
    &&& s.len() == 2 * key.len()
    &&& forall|i: int| 0 <= i < key.len() ==> digits_at(s, 2 * i, #[trigger] key[i])
}

/// Whether `s` is a key written with colons: two digits for each byte, a colon
/// between bytes.
pub open spec fn is_colon_text(s: Seq<u8>, key: Seq<u8>) -> bool {
    &&& s.len() == 3 * key.len() - 1
    &&& forall|i: int| 0 <= i < key.len() ==> digits_at(s, 3 * i, #[trigger] key[i])
    &&& forall|i: int| 0 < i < key.len() ==> #[trigger] s[3 * i - 1] == 58
}

/// Two digits spell their byte.
proof fn two_digits_spell(b: u8, s: Seq<u8>)
    requires
        s.len() == 2,
        digits_at(s, 0, b),
    ensures
        byte_spelled(s) == Some(b),
{
    let one = s.drop_last();
    assert(one.drop_last() =~= Seq::empty());
    assert(digits_spell(one.drop_last()) == Some(0nat));
    assert(one.last() == s[0]);
    assert(digits_spell(one) == Some((b / 16) as nat));
    assert(digits_spell(s) == Some(b as nat));
}

/// The pairs of a key written bare spell the key.
proof fn bare_pairs_spell(s: Seq<u8>, key: Seq<u8>, n: nat)
    requires
        is_bare_text(s, key),
        n <= key.len(),
    ensures
        pair_bytes(s, n) == Some(key.take(n as int)),
    decreases n,
{
    if n == 0 {
        assert(key.take(0) =~= Seq::empty());
    } else {
        let i = n - 1;
        bare_pairs_spell(s, key, i as nat);
        let pair = s.subrange(2 * i, 2 * i + 2);
        assert(digits_at(s, 2 * i, key[i]));
        two_digits_spell(key[i], pair);
        assert(key.take(n as int) =~= key.take(i).push(key[i]));
    }
}

/// A key reads back from its bare text, whichever case each digit has.
pub proof fn bare_key_reads_back(s: Seq<u8>, key: Seq<u8>)
    requires
        key.len() == KEY_LEN,
        is_bare_text(s, key),
    ensures
        key_of(s) == Ok::<Seq<u8>, KeyError>(key),
{
    assert forall|j: int| 0 <= j < s.len() implies #[trigger] s[j] != 58 by {
        assert(digits_at(s, 2 * (j / 2), key[j / 2]));
    }
    next_at_is(s, 58, 0, s.len() as int);
    bare_pairs_spell(s, key, key.len());
    assert(key.take(key.len() as int) =~= key);
}

/// The fields of a key written with colons spell the key, from byte `n` on.
proof fn colon_fields_spell(s: Seq<u8>, key: Seq<u8>, n: int)
    requires
        is_colon_text(s, key),
        0 <= n < key.len(),
    ensures
        colon_bytes(s, 3 * n) == Some(key.skip(n)),
    decreases key.len() - n,
{
    let from = 3 * n;
    assert(digits_at(s, from, key[n]));
    if n + 1 < key.len() {
        assert(s[3 * (n + 1) - 1] == 58);
    }
    next_at_is(s, 58, from, from + 2);
    two_digits_spell(key[n], s.subrange(from, from + 2));
    if n + 1 < key.len() {
        colon_fields_spell(s, key, n + 1);
        assert(seq![key[n]] + key.skip(n + 1) =~= key.skip(n));
    } else {
        assert(seq![key[n]] =~= key.skip(n));
    }
}

/// A key reads back from its colon-delimited text, whichever case each digit has.
pub proof fn colon_key_reads_back(s: Seq<u8>, key: Seq<u8>)
    requires
        key.len() == KEY_LEN,
        is_colon_text(s, key),
    ensures
        key_of(s) == Ok::<Seq<u8>, KeyError>(key),
{
    colon_fields_spell(s, key, 0);
    assert(key.skip(0) =~= key);
    assert(s[3 * 1 - 1] == 58);
    next_at_is_next(s, 58, 0);
}

/// A digit's value, written as the digits are: nought to nine, then `a` to `f` or
/// `A` to `F`.  No other character has one.
pub proof fn key_digits_have_their_values(c: u8, n: u8)
    ensures
        n < 10 ==> digit_value((48 + n) as u8) == Some(n as nat),
        n < 6 ==> digit_value((97 + n) as u8) == Some((10 + n) as nat),
        n < 6 ==> digit_value((65 + n) as u8) == Some((10 + n) as nat),
        !(48 <= c <= 57) && !(97 <= c <= 102) && !(65 <= c <= 70) ==> digit_value(c) is None,
{
}

/// Whatever is read as a key is 32 bytes.
pub proof fn keys_are_of_their_length(s: Seq<u8>)
    ensures
        key_of(s) matches Ok(key) ==> key.len() == 32,
{
}

} // verus!
