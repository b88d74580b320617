//! The per-frame authentication tag of the directed data plane.

use vstd::prelude::*;

use crate::auth::crypto::digest;
use crate::auth::crypto::tags_equal;
use crate::auth::names::blake2s;
use crate::codec::be32;
use crate::codec::be32_reads_back;
use crate::codec::be64;
use crate::codec::be64_reads_back;
use crate::codec::u32_be;
use crate::codec::u64_be;
use vstd::utf8::encode_utf8;
use vstd::utf8::is_ascii_chars_encode_utf8;

verus! {

/// Length in bytes of the authentication tag on the wire.
pub const TAG_LEN: usize = 16;

/// What a tag is a digest of: a label, the key, the counter, the length of the
/// context and the context itself, then the frame.
pub open spec fn tag_input(
    key: Seq<u8>,
    counter: u64,
    context: Seq<u8>,
    frame: Seq<u8>,
) -> Seq<u8> {
    encode_utf8("wayfinder-tag-v2"@) + key + be64(counter) + be32(
        (context.len() % 0x1_0000_0000) as u32,
    ) + context + frame
}

/// The tag of a frame: the start of the digest.
pub open spec fn tag_of(key: Seq<u8>, counter: u64, context: Seq<u8>, frame: Seq<u8>) -> Seq<u8> {
    blake2s(tag_input(key, counter, context, frame)).subrange(0, 16)
}

/// Compute the authentication tag of one directed frame.  `context` names the
/// sender, so that a frame cannot be reflected back to its author.
pub fn frame_tag(key: &[u8; 32], counter: u64, context: &[u8], frame: &[u8]) -> (tag: [u8; 16])
    ensures
        tag@ == tag_of(key@, counter, context@, frame@),
{
    let mut input: Vec<u8> = Vec::new();
    input.extend_from_slice("wayfinder-tag-v2".as_bytes());
    input.extend_from_slice(key);
    input.extend_from_slice(&u64_be(counter));
    let len: u32 = (context.len() as u64 % 0x1_0000_0000) as u32;
    input.extend_from_slice(&u32_be(len));
    input.extend_from_slice(context);
    input.extend_from_slice(frame);
    assert(input@ =~= tag_input(key@, counter, context@, frame@));
    let d: [u8; 32] = digest(input.as_slice());
    let tag: [u8; 16] = [
        d[0], d[1], d[2], d[3], d[4], d[5], d[6], d[7], d[8], d[9], d[10], d[11], d[12], d[13],
        d[14], d[15],
    ];
    assert(tag@ =~= d@.subrange(0, 16));
    tag
}

/// Whether `tag` is the tag of the frame under the key, counter and context.
pub fn verify_frame_tag(
    key: &[u8; 32],
    counter: u64,
    context: &[u8],
    frame: &[u8],
    tag: &[u8; 16],
) -> (ok: bool)
    ensures
        ok == (tag@ == tag_of(key@, counter, context@, frame@)),
{
    let expected: [u8; 16] = frame_tag(key, counter, context, frame);
    tags_equal(&expected, tag)
}

/// What is hashed determines the key, the counter, the context and the frame:
/// no two of them can be confused with one another.
pub proof fn tag_input_injective(
    k1: Seq<u8>,
    c1: u64,
    x1: Seq<u8>,
    f1: Seq<u8>,
    k2: Seq<u8>,
    c2: u64,
    x2: Seq<u8>,
    f2: Seq<u8>,
)
    requires
        k1.len() == 32,
        k2.len() == 32,
        x1.len() < 0x1_0000_0000,
        x2.len() < 0x1_0000_0000,
        tag_input(k1, c1, x1, f1) == tag_input(k2, c2, x2, f2),
    ensures
        k1 == k2,
        c1 == c2,
        x1 == x2,
        f1 == f2,
{
    let t = tag_input(k1, c1, x1, f1);
    let n = encode_utf8("wayfinder-tag-v2"@).len() as int;
    assert(t.subrange(n, n + 32) =~= k1);
    assert(t.subrange(n, n + 32) =~= k2);
    assert(t.subrange(n + 32, n + 40) =~= be64(c1));
    assert(t.subrange(n + 32, n + 40) =~= be64(c2));
    be64_reads_back(c1, t, n + 32);
    be64_reads_back(c2, t, n + 32);
    assert(t.subrange(n + 40, n + 44) =~= be32(x1.len() as u32));
    assert(t.subrange(n + 40, n + 44) =~= be32(x2.len() as u32));
    be32_reads_back(x1.len() as u32, t, n + 40);
    be32_reads_back(x2.len() as u32, t, n + 40);
    assert(x1.len() == x2.len());
    let e = n + 44 + x1.len();
    assert(t.subrange(n + 44, e) =~= x1);
    assert(t.subrange(n + 44, e) =~= x2);
    assert(t.subrange(e, t.len() as int) =~= f1);
    assert(t.subrange(e, t.len() as int) =~= f2);
}

/// A tag is the first sixteen bytes of the digest of the purpose, in ASCII, the
/// key, the counter, the context behind its length, and the frame.
pub proof fn tag_is_the_digests_start(
    key: Seq<u8>,
    counter: u64,
    context: Seq<u8>,
    frame: Seq<u8>,
    i: int,
)
    requires
        context.len() < 0x1_0000_0000,
        0 <= i < 16,
        blake2s(tag_input(key, counter, context, frame)).len() == 32,
    ensures
        tag_of(key, counter, context, frame).len() == 16,
        tag_of(key, counter, context, frame)[i] == blake2s(seq![
        119u8, 97, 121, 102, 105, 110, 100, 101, 114, 45, 116, 97, 103, 45,
        118, 50,
    ] + key + be64(counter) + be32(
            context.len() as u32,
        ) + context + frame)[i],
{
    reveal_strlit("wayfinder-tag-v2");
    is_ascii_chars_encode_utf8("wayfinder-tag-v2"@);
    assert(encode_utf8("wayfinder-tag-v2"@) =~= seq![
        119u8, 97, 121, 102, 105, 110, 100, 101, 114, 45, 116, 97, 103, 45,
        118, 50,
    ]);
}

} // verus!
