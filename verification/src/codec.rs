//! Fixed-width integers as bytes, in both byte orders, and copying into a buffer.

use vstd::prelude::*;

verus! {

/// The two bytes of `x`, most significant first.
pub open spec fn be16(x: u16) -> Seq<u8> {
    seq![(x / 256) as u8, (x % 256) as u8]
}

/// The four bytes of `x`, most significant first.
pub open spec fn be32(x: u32) -> Seq<u8> {
    be16((x / 0x1_0000) as u16) + be16((x % 0x1_0000) as u16)
}

/// The eight bytes of `x`, most significant first.
pub open spec fn be64(x: u64) -> Seq<u8> {
    be32((x / 0x1_0000_0000) as u32) + be32((x % 0x1_0000_0000) as u32)
}

/// The two bytes of `x`, least significant first.
pub open spec fn le16(x: u16) -> Seq<u8> {
    seq![(x % 256) as u8, (x / 256) as u8]
}

/// The number whose two bytes, most significant first, stand in `s` at `at`.
pub open spec fn be16_at(s: Seq<u8>, at: int) -> u16 {
    (s[at] * 256 + s[at + 1]) as u16
}

/// The number whose four bytes, most significant first, stand in `s` at `at`.
pub open spec fn be32_at(s: Seq<u8>, at: int) -> u32 {
    (be16_at(s, at) * 0x1_0000 + be16_at(s, at + 2)) as u32
}

/// The number whose eight bytes, most significant first, stand in `s` at `at`.
pub open spec fn be64_at(s: Seq<u8>, at: int) -> u64 {
    (be32_at(s, at) * 0x1_0000_0000 + be32_at(s, at + 4)) as u64
}

/// The number whose two bytes, least significant first, stand in `s` at `at`.
pub open spec fn le16_at(s: Seq<u8>, at: int) -> u16 {
    (s[at] + s[at + 1] * 256) as u16
}

/// `buf` with `bytes` laid over it from `at` on.
pub open spec fn overlay(buf: Seq<u8>, at: int, bytes: Seq<u8>) -> Seq<u8> {
    buf.subrange(0, at) + bytes + buf.subrange(at + bytes.len(), buf.len() as int)
}

/// A 16-bit number reads back from its big-endian bytes.
pub proof fn be16_reads_back(x: u16, s: Seq<u8>, at: int)
    requires
        0 <= at,
        at + 2 <= s.len(),
        s.subrange(at, at + 2) == be16(x),
    ensures
        be16_at(s, at) == x,
{
    assert(s.subrange(at, at + 2)[0] == s[at]);
    assert(s.subrange(at, at + 2)[1] == s[at + 1]);
}

/// A 32-bit number reads back from its big-endian bytes.
pub proof fn be32_reads_back(x: u32, s: Seq<u8>, at: int)
    requires
        0 <= at,
        at + 4 <= s.len(),
        s.subrange(at, at + 4) == be32(x),
    ensures
        be32_at(s, at) == x,
{
    let b = s.subrange(at, at + 4);
    assert(s.subrange(at, at + 2) =~= be16((x / 0x1_0000) as u16)) by {
        assert(s[at] == b[0] && s[at + 1] == b[1]);
    }
    assert(s.subrange(at + 2, at + 4) =~= be16((x % 0x1_0000) as u16)) by {
        assert(s[at + 2] == b[2] && s[at + 3] == b[3]);
    }
    be16_reads_back((x / 0x1_0000) as u16, s, at);
    be16_reads_back((x % 0x1_0000) as u16, s, at + 2);
}

/// A 64-bit number reads back from its big-endian bytes.
pub proof fn be64_reads_back(x: u64, s: Seq<u8>, at: int)
    requires
        0 <= at,
        at + 8 <= s.len(),
        s.subrange(at, at + 8) == be64(x),
    ensures
        be64_at(s, at) == x,
{
    let b = s.subrange(at, at + 8);
    let hi = be32((x / 0x1_0000_0000) as u32);
    let lo = be32((x % 0x1_0000_0000) as u32);
    assert(b == hi + lo);
    assert(s.subrange(at, at + 4) =~= hi) by {
        assert forall|i: int| 0 <= i < 4 implies s[at + i] == #[trigger] hi[i] by {
            assert(b[i] == s[at + i]);
        }
    }
    assert(s.subrange(at + 4, at + 8) =~= lo) by {
        assert forall|i: int| 0 <= i < 4 implies s[at + 4 + i] == #[trigger] lo[i] by {
            assert(b[i + 4] == s[at + 4 + i]);
        }
    }
    be32_reads_back((x / 0x1_0000_0000) as u32, s, at);
    be32_reads_back((x % 0x1_0000_0000) as u32, s, at + 4);
}

/// A 16-bit number reads back from its little-endian bytes.
pub proof fn le16_reads_back(x: u16, s: Seq<u8>, at: int)
    requires
        0 <= at,
        at + 2 <= s.len(),
        s.subrange(at, at + 2) == le16(x),
    ensures
        le16_at(s, at) == x,
{
    assert(s.subrange(at, at + 2)[0] == s[at]);
    assert(s.subrange(at, at + 2)[1] == s[at + 1]);
}

/// Two bytes are the big-endian bytes of the number they spell.
pub proof fn be16_of_bytes(s: Seq<u8>, at: int)
    requires
        0 <= at,
        at + 2 <= s.len(),
    ensures
        be16(be16_at(s, at)) =~= s.subrange(at, at + 2),
{
}

/// Four bytes are the big-endian bytes of the number they spell.
pub proof fn be32_of_bytes(s: Seq<u8>, at: int)
    requires
        0 <= at,
        at + 4 <= s.len(),
    ensures
        be32(be32_at(s, at)) =~= s.subrange(at, at + 4),
{
    be16_of_bytes(s, at);
    be16_of_bytes(s, at + 2);
    let x = be32_at(s, at);
    assert((x / 0x1_0000) as u16 == be16_at(s, at));
    assert((x % 0x1_0000) as u16 == be16_at(s, at + 2));
    assert(s.subrange(at, at + 4) =~= s.subrange(at, at + 2) + s.subrange(at + 2, at + 4));
}

/// Eight bytes are the big-endian bytes of the number they spell.
pub proof fn be64_of_bytes(s: Seq<u8>, at: int)
    requires
        0 <= at,
        at + 8 <= s.len(),
    ensures
        be64(be64_at(s, at)) =~= s.subrange(at, at + 8),
{
    be32_of_bytes(s, at);
    be32_of_bytes(s, at + 4);
    let x = be64_at(s, at);
    assert((x / 0x1_0000_0000) as u32 == be32_at(s, at));
    assert((x % 0x1_0000_0000) as u32 == be32_at(s, at + 4));
    assert(s.subrange(at, at + 8) =~= s.subrange(at, at + 4) + s.subrange(at + 4, at + 8));
}

/// The big-endian bytes of a 16-bit number.
pub fn u16_be(x: u16) -> (b: [u8; 2])
    ensures
        b@ == be16(x),
{
    let b: [u8; 2] = [(x / 256) as u8, (x % 256) as u8];
    assert(b@ =~= be16(x));
    b
}

/// The big-endian bytes of a 32-bit number.
pub fn u32_be(x: u32) -> (b: [u8; 4])
    ensures
        b@ == be32(x),
{
    let hi: [u8; 2] = u16_be((x / 0x1_0000) as u16);
    let lo: [u8; 2] = u16_be((x % 0x1_0000) as u16);
    let b: [u8; 4] = [hi[0], hi[1], lo[0], lo[1]];
    assert(b@ =~= be32(x));
    b
}

/// The big-endian bytes of a 64-bit number.
pub fn u64_be(x: u64) -> (b: [u8; 8])
    ensures
        b@ == be64(x),
{
    let hi: [u8; 4] = u32_be((x / 0x1_0000_0000) as u32);
    let lo: [u8; 4] = u32_be((x % 0x1_0000_0000) as u32);
    let b: [u8; 8] = [hi[0], hi[1], hi[2], hi[3], lo[0], lo[1], lo[2], lo[3]];
    assert(b@ =~= be64(x));
    b
}

/// The little-endian bytes of a 16-bit number.
pub fn u16_le(x: u16) -> (b: [u8; 2])
    ensures
        b@ == le16(x),
{
    let b: [u8; 2] = [(x % 256) as u8, (x / 256) as u8];
    assert(b@ =~= le16(x));
    b
}

/// Read a big-endian 16-bit number.
pub fn read_u16_be(s: &[u8], at: usize) -> (x: u16)
    requires
        at + 2 <= s@.len(),
    ensures
        x == be16_at(s@, at as int),
{
    s[at] as u16 * 256 + s[at + 1] as u16
}

/// Read a big-endian 32-bit number.
pub fn read_u32_be(s: &[u8], at: usize) -> (x: u32)
    requires
        at + 4 <= s@.len(),
    ensures
        x == be32_at(s@, at as int),
{
    assert(s.len() == s@.len());
    read_u16_be(s, at) as u32 * 0x1_0000 + read_u16_be(s, at + 2) as u32
}

/// Read a big-endian 64-bit number.
pub fn read_u64_be(s: &[u8], at: usize) -> (x: u64)
    requires
        at + 8 <= s@.len(),
    ensures
        x == be64_at(s@, at as int),
{
    assert(s.len() == s@.len());
    read_u32_be(s, at) as u64 * 0x1_0000_0000 + read_u32_be(s, at + 4) as u64
}

/// Read a little-endian 16-bit number.
pub fn read_u16_le(s: &[u8], at: usize) -> (x: u16)
    requires
        at + 2 <= s@.len(),
    ensures
        x == le16_at(s@, at as int),
{
    s[at] as u16 + s[at + 1] as u16 * 256
}

/// The `N` bytes of `bytes` from `at` on.
pub fn read_array<const N: usize>(bytes: &[u8], at: usize) -> (a: [u8; N])
    requires
        at + N <= bytes@.len(),
    ensures
        a@ == bytes@.subrange(at as int, at + N),
{
    assert(bytes.len() == bytes@.len());
    let mut a: [u8; N] = [0u8; N];
    let mut i: usize = 0;
    while i < N
        invariant
            i <= N,
            at + N <= bytes@.len(),
            bytes@.len() <= usize::MAX,
            forall|j: int| 0 <= j < i ==> (#[trigger] a@[j]) == bytes@[at + j],
        decreases N - i,
    {
        a[i] = bytes[at + i];
        i = i + 1;
    }
    assert(a@ =~= bytes@.subrange(at as int, at + N));
    a
}

/// Copy `src` over `buf` from `at` on.
pub fn write_at(buf: &mut [u8], at: usize, src: &[u8])
    requires
        at + src@.len() <= old(buf)@.len(),
    ensures
        final(buf)@ == overlay(old(buf)@, at as int, src@),
{
    let ghost before = buf@;
    let n: usize = src.len();
    let room: usize = buf.len();
    let mut i: usize = 0;
    while i < n
        invariant
            i <= n,
            n == src@.len(),
            at + n <= room,
            room == before.len(),
            buf@.len() == before.len(),
            buf@ == overlay(before, at as int, src@.subrange(0, i as int)),
        decreases n - i,
    {
        buf[at + i] = src[i];
        i = i + 1;
        assert(buf@ =~= overlay(before, at as int, src@.subrange(0, i as int)));
    }
    assert(src@.subrange(0, n as int) =~= src@);
}

/// The most significant byte of a big-endian number comes first, the least
/// significant of a little-endian one.
pub proof fn byte_orders(x: u16, y: u32, z: u64)
    ensures
        be16(x)[0] * 0x100 + be16(x)[1] == x,
        le16(x)[0] + le16(x)[1] * 0x100 == x,
        be32(y)[0] * 0x100_0000 + be32(y)[1] * 0x1_0000 + be32(y)[2] * 0x100 + be32(y)[3] == y,
        be64(z)[0] * 0x100_0000_0000_0000 + be64(z)[1] * 0x1_0000_0000_0000 + be64(z)[2]
            * 0x100_0000_0000 + be64(z)[3] * 0x1_0000_0000 + be64(z)[4] * 0x100_0000 + be64(z)[5]
            * 0x1_0000 + be64(z)[6] * 0x100 + be64(z)[7] == z,
        be16(x).len() == 2,
        le16(x).len() == 2,
        be32(y).len() == 4,
        be64(z).len() == 8,
{
    let hi = (z / 0x1_0000_0000) as u32;
    let lo = (z % 0x1_0000_0000) as u32;
    assert(be32(hi)[0] * 0x100_0000 + be32(hi)[1] * 0x1_0000 + be32(hi)[2] * 0x100 + be32(hi)[3]
        == hi);
    assert(be32(lo)[0] * 0x100_0000 + be32(lo)[1] * 0x1_0000 + be32(lo)[2] * 0x100 + be32(lo)[3]
        == lo);
    assert(be64(z)[0] == be32(hi)[0] && be64(z)[1] == be32(hi)[1] && be64(z)[2] == be32(hi)[2]
        && be64(z)[3] == be32(hi)[3]);
    assert(be64(z)[4] == be32(lo)[0] && be64(z)[5] == be32(lo)[1] && be64(z)[6] == be32(lo)[2]
        && be64(z)[7] == be32(lo)[3]);
}

/// Numbers are read most or least significant byte first, as they are written.
pub proof fn reading_orders(s: Seq<u8>, at: int)
    requires
        0 <= at,
        at + 8 <= s.len(),
    ensures
        be16_at(s, at) == s[at] * 0x100 + s[at + 1],
        le16_at(s, at) == s[at] + s[at + 1] * 0x100,
        be32_at(s, at) == s[at] * 0x100_0000 + s[at + 1] * 0x1_0000 + s[at + 2] * 0x100 + s[at + 3],
        be64_at(s, at) == be32_at(s, at) * 0x1_0000_0000 + be32_at(s, at + 4),
{
}

/// Laying bytes over a buffer changes those bytes of it and no other.
pub proof fn overlay_changes_only_its_span(buf: Seq<u8>, at: int, bytes: Seq<u8>, i: int)
    requires
        0 <= at,
        at + bytes.len() <= buf.len(),
        0 <= i < buf.len(),
    ensures
        overlay(buf, at, bytes).len() == buf.len(),
        overlay(buf, at, bytes)[i] == (if at <= i < at + bytes.len() {
            bytes[i - at]
        } else {
            buf[i]
        }),
{
}

} // verus!
