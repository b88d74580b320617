//! Splitting a frame across small packets: the two-byte header in front of each
//! fragment.

use vstd::prelude::*;

verus! {

/// Length in bytes of the header in front of each fragment.
pub const FRAG_HDR_LEN: usize = 2;

/// Most fragments a frame can be split into: the count has four bits.
pub const MAX_FRAGMENTS: usize = 15;

/// Which fragment of which message a packet carries.
#[derive(Debug, Clone, Copy, PartialEq, Eq, Structural)]
pub struct FragHeader {
    /// The sender's number of the message.
    pub msg_id: u8,
    /// The fragment's place in the message, from zero.
    pub index: u8,
    /// How many fragments the message has.
    pub count: u8,
}

impl FragHeader {
    /// The header's bytes: the message number, then the place in the high four
    /// bits and the count in the low four.
    pub open spec fn bytes(self) -> Seq<u8> {
        seq![self.msg_id, (self.index * 16 + self.count) as u8]
    }

    /// Place and count fit four bits each, and the place is below the count.
    pub open spec fn wf(self) -> bool {
        self.index < self.count <= MAX_FRAGMENTS
    }
}

/// The header of fragment `index` of `count` of message `msg_id`.
pub fn pack_header(msg_id: u8, index: usize, count: usize) -> (b: [u8; 2])
    requires
        index <= MAX_FRAGMENTS,
        count <= MAX_FRAGMENTS,
    ensures
        b@ == (FragHeader { msg_id, index: index as u8, count: count as u8 }).bytes(),
{
    let b: [u8; 2] = [msg_id, (index * 16 + count) as u8];
    assert(b@ =~= (FragHeader { msg_id, index: index as u8, count: count as u8 }).bytes());
    b
}

/// Read the header off the front of a packet, with the fragment behind it;
/// `None` when the packet is too short, or names a place that its count does not
/// have.
pub fn parse_fragment<'a>(bytes: &'a [u8]) -> (r: Option<(FragHeader, &'a [u8])>)
    ensures
        match r {
            Some((hdr, body)) => {
                &&& bytes@.len() >= FRAG_HDR_LEN
                &&& hdr.wf()
                &&& hdr.bytes() == bytes@.subrange(0, FRAG_HDR_LEN as int)
                &&& body@ == bytes@.subrange(FRAG_HDR_LEN as int, bytes@.len() as int)
            },
            None => bytes@.len() < FRAG_HDR_LEN || bytes@[1] / 16 >= bytes@[1] % 16,
        },
{
    if bytes.len() < FRAG_HDR_LEN {
        return None;
    }
    let packed: u8 = bytes[1];
    let hdr = FragHeader { msg_id: bytes[0], index: packed / 16, count: packed % 16 };
    if hdr.index >= hdr.count {
        return None;
    }
    assert(hdr.bytes() =~= bytes@.subrange(0, 2));
    Some((hdr, &bytes[FRAG_HDR_LEN..bytes.len()]))
}

/// A sound header is determined by its bytes.
pub proof fn frag_header_injective(a: FragHeader, b: FragHeader)
    requires
        a.wf(),
        b.wf(),
        a.bytes() == b.bytes(),
    ensures
        a == b,
{
    let x = a.bytes();
    assert(x[0] == a.msg_id && x[0] == b.msg_id);
    assert(x[1] == a.index * 16 + a.count && x[1] == b.index * 16 + b.count);
}

/// The bytes of fragment `index` when `frame` is split into pieces of `piece`
/// bytes; the last piece may be shorter.
pub open spec fn piece_of(frame: Seq<u8>, piece: nat, index: nat) -> Seq<u8> {
    let start = index * piece;
    let end = if start + piece <= frame.len() {
        start + piece
    } else {
        frame.len()
    };
    frame.subrange(start as int, end as int)
}

/// The first `n` pieces of a frame, back to back.
pub open spec fn pieces_joined(frame: Seq<u8>, piece: nat, n: nat) -> Seq<u8>
    decreases n,
{
    if n == 0 {
        Seq::empty()
    } else {
        pieces_joined(frame, piece, (n - 1) as nat) + piece_of(frame, piece, (n - 1) as nat)
    }
}

/// How many pieces of `piece` bytes a frame of `len` bytes splits into.
pub open spec fn piece_count(len: nat, piece: nat) -> nat {
    if len % piece == 0 {
        len / piece
    } else {
        len / piece + 1
    }
}

/// The pieces of a frame, back to back, are the frame.
pub proof fn pieces_make_the_frame(frame: Seq<u8>, piece: nat)
    requires
        piece > 0,
    ensures
        pieces_joined(frame, piece, piece_count(frame.len(), piece)) == frame,
{
    let len = frame.len();
    let q = len / piece;
    let r = len % piece;
    vstd::arithmetic::div_mod::lemma_fundamental_div_mod(len as int, piece as int);
    vstd::arithmetic::mul::lemma_mul_is_commutative(piece as int, q as int);
    whole_pieces(frame, piece, q);
    if r == 0 {
        assert(frame.subrange(0, (q * piece) as int) =~= frame);
    } else {
        assert(piece_of(frame, piece, q) =~= frame.subrange((q * piece) as int, len as int));
        assert(frame.subrange(0, (q * piece) as int) + frame.subrange(
            (q * piece) as int,
            len as int,
        ) =~= frame);
    }
}

/// The first `n` pieces, all whole, are the front of the frame.
proof fn whole_pieces(frame: Seq<u8>, piece: nat, n: nat)
    requires
        n * piece <= frame.len(),
    ensures
        pieces_joined(frame, piece, n) == frame.subrange(0, (n * piece) as int),
    decreases n,
{
    if n == 0 {
        assert(n * piece == 0) by (nonlinear_arith)
            requires
                n == 0,
        ;
        assert(frame.subrange(0, 0) =~= Seq::empty());
    } else {
        let m = (n - 1) as nat;
        assert(m * piece + piece == n * piece) by (nonlinear_arith)
            requires
                m == n - 1,
        ;
        whole_pieces(frame, piece, m);
        assert(frame.subrange(0, (m * piece) as int) + frame.subrange(
            (m * piece) as int,
            (n * piece) as int,
        ) =~= frame.subrange(0, (n * piece) as int));
    }
}

/// A frame splits into as many pieces as hold it and no more: all but the last are
/// whole, and the last is not empty.
pub proof fn pieces_are_as_many_as_needed(len: nat, piece: nat)
    requires
        piece > 0,
    ensures
        len <= piece_count(len, piece) * piece,
        len > 0 ==> (piece_count(len, piece) - 1) * piece < len,
        len == 0 ==> piece_count(len, piece) == 0,
{
    vstd::arithmetic::div_mod::lemma_fundamental_div_mod(len as int, piece as int);
    vstd::arithmetic::div_mod::lemma_mod_bound(len as int, piece as int);
    let q = len / piece;
    let r = len % piece;
    assert(piece * q == q * piece) by (nonlinear_arith);
    assert((q + 1) * piece == q * piece + piece) by (nonlinear_arith);
    assert((q - 1) * piece == q * piece - piece) by (nonlinear_arith);
    if len == 0 {
        vstd::arithmetic::div_mod::lemma_div_basics(piece as int);
    }
}

/// A piece holds the frame's bytes from its place on.
pub proof fn piece_is_in_its_place(frame: Seq<u8>, piece: nat, index: nat, i: int)
    requires
        index * piece <= frame.len(),
        0 <= i < piece_of(frame, piece, index).len(),
    ensures
        piece_of(frame, piece, index)[i] == frame[index * piece + i],
        piece_of(frame, piece, index).len() <= piece,
        (index + 1) * piece <= frame.len() ==> piece_of(frame, piece, index).len() == piece,
{
    assert((index + 1) * piece == index * piece + piece) by (nonlinear_arith);
}

/// A header is the message number, then the place in the high four bits and the
/// count in the low four.
pub proof fn header_layout(hdr: FragHeader)
    requires
        hdr.wf(),
    ensures
        hdr.bytes().len() == 2,
        hdr.bytes()[0] == hdr.msg_id,
        hdr.bytes()[1] / 16 == hdr.index,
        hdr.bytes()[1] % 16 == hdr.count,
{
}

} // verus!
