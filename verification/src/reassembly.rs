//! Putting split frames back together: a bounded table of messages in flight.

use vstd::prelude::*;

use crate::bounded::BoundedVec;
use crate::codec::overlay;
use crate::codec::write_at;
use crate::frag::parse_fragment;
use crate::frag::piece_count;
use crate::frag::piece_of;
use crate::frag::pieces_joined;
use crate::frag::pieces_make_the_frame;
use crate::frag::FragHeader;
use crate::frag::FRAG_HDR_LEN;
use crate::frag::MAX_FRAGMENTS;
use crate::link::LinkMetrics;

verus! {

/// What tells messages in flight apart: who sent them, and the sender's number.
#[derive(Debug, Clone, Copy, PartialEq, Eq, Structural)]
pub struct FragKey {
    /// The sender's address on the medium.
    pub addr: u64,
    /// The message number the sender chose.
    pub msg_id: u8,
}

/// A message in flight, and which of its fragments have arrived.
pub struct Assembly {
    key: FragKey,
    parts: Vec<Option<Vec<u8>>>,
}

/// A message in flight, seen as plain values: one entry of `parts` for each of
/// its fragments, filled once that fragment has arrived.
#[verifier::ext_equal]
pub struct InFlight {
    pub key: FragKey,
    pub parts: Seq<Option<Seq<u8>>>,
}

/// The bytes of an arrived fragment.
pub open spec fn part_bytes(part: Option<Vec<u8>>) -> Option<Seq<u8>> {
    match part {
        Some(bytes) => Some(bytes@),
        None => None,
    }
}

impl View for Assembly {
    type V = InFlight;

    closed spec fn view(&self) -> InFlight {
        InFlight {
            key: self.key,
            parts: Seq::new(self.parts@.len(), |i: int| part_bytes(self.parts@[i])),
        }
    }
}

/// A fragment fits its message when every piece but the last is whole, and the
/// message stays within `max_len` bytes.
pub open spec fn fragment_fits(hdr: FragHeader, len: nat, piece: nat, max_len: nat) -> bool {
    &&& hdr.wf()
    &&& if hdr.index + 1 < hdr.count {
        len == piece
    } else {
        len <= piece
    }
    &&& hdr.index * piece + len <= max_len
}

/// The place of the message `key` in the table, or the table's length.
pub open spec fn slot_of(slots: Seq<InFlight>, key: FragKey) -> nat
    decreases slots.len(),
{
    if slots.len() == 0 {
        0
    } else if slots[0].key == key {
        0
    } else {
        1 + slot_of(slots.drop_first(), key)
    }
}

/// A message none of whose fragments has arrived.
pub open spec fn unheard(key: FragKey, count: nat) -> InFlight {
    InFlight { key, parts: Seq::new(count, |i: int| None::<Seq<u8>>) }
}

/// The table with a place for the message `key` of `count` fragments, and that
/// place.  A message of that key but another count is given up for the new one,
/// and a full table gives up its oldest message.
pub open spec fn seated(slots: Seq<InFlight>, capacity: nat, key: FragKey, count: nat) -> (
    Seq<InFlight>,
    int,
) {
    let at = slot_of(slots, key) as int;
    if at < slots.len() && slots[at].parts.len() == count {
        (slots, at)
    } else {
        let kept = if at < slots.len() {
            slots.remove(at)
        } else {
            slots
        };
        let room = if kept.len() >= capacity {
            kept.remove(0)
        } else {
            kept
        };
        (room.push(unheard(key, count)), room.len() as int)
    }
}

/// Whether every fragment has arrived.
pub open spec fn all_here(parts: Seq<Option<Seq<u8>>>) -> bool {
    forall|i: int| 0 <= i < parts.len() ==> (#[trigger] parts[i]) is Some
}

/// The arrived fragments, back to back.
pub open spec fn parts_joined(parts: Seq<Option<Seq<u8>>>) -> Seq<u8>
    decreases parts.len(),
{
    if parts.len() == 0 {
        Seq::empty()
    } else {
        parts_joined(parts.drop_last()) + match parts.last() {
            Some(bytes) => bytes,
            None => Seq::empty(),
        }
    }
}

/// The table after a fragment that fits, and the message it completed.
pub open spec fn accepted(
    slots: Seq<InFlight>,
    capacity: nat,
    key: FragKey,
    hdr: FragHeader,
    body: Seq<u8>,
) -> (Seq<InFlight>, Option<Seq<u8>>) {
    let (table, at) = seated(slots, capacity, key, hdr.count as nat);
    let parts = table[at].parts.update(hdr.index as int, Some(body));
    if all_here(parts) {
        (table.remove(at), Some(parts_joined(parts)))
    } else {
        (table.update(at, InFlight { key, parts }), None)
    }
}

/// A bounded table of messages in flight: at most `SLOTS` messages of pieces of
/// `PIECE` bytes, each of at most `MAX_LEN` bytes.
pub struct Reassembler<const SLOTS: usize, const PIECE: usize, const MAX_LEN: usize> {
    slots: BoundedVec<Assembly, SLOTS>,
}

/// Every arrived fragment of a message fits it.
pub open spec fn parts_fit(parts: Seq<Option<Seq<u8>>>, piece: nat, max_len: nat) -> bool {
    &&& 0 < parts.len() <= MAX_FRAGMENTS
    &&& forall|i: int|
        0 <= i < parts.len() && (#[trigger] parts[i]) is Some ==> fragment_fits(
            FragHeader { msg_id: 0, index: i as u8, count: parts.len() as u8 },
            parts[i]->Some_0.len(),
            piece,
            max_len,
        )
}

impl<const SLOTS: usize, const PIECE: usize, const MAX_LEN: usize> View for Reassembler<
    SLOTS,
    PIECE,
    MAX_LEN,
> {
    type V = Seq<InFlight>;

    closed spec fn view(&self) -> Seq<InFlight> {
        Seq::new(self.slots@.len(), |i: int| self.slots@[i]@)
    }
}

impl<const SLOTS: usize, const PIECE: usize, const MAX_LEN: usize> Reassembler<
    SLOTS,
    PIECE,
    MAX_LEN,
> {
    /// The table is within its capacity, and what has arrived fits.
    pub open spec fn wf(self) -> bool {
        &&& 0 < SLOTS
        &&& self@.len() <= SLOTS
        &&& forall|i: int|
            0 <= i < self@.len() ==> parts_fit(
                (#[trigger] self@[i]).parts,
                PIECE as nat,
                MAX_LEN as nat,
            )
    }

    /// An empty table.
    pub fn new() -> (r: Self)
        requires
            0 < SLOTS,
        ensures
            r.wf(),
            r@ == Seq::<InFlight>::empty(),
    {
        let r = Reassembler { slots: BoundedVec::new() };
        assert(r@ =~= Seq::<InFlight>::empty());
        r
    }

    /// The place of the message `key`, or the table's length.
    fn find(&self, key: FragKey) -> (at: usize)
        ensures
            at == slot_of(self@, key),
            at <= self@.len(),
    {
        let items = self.slots.items();
        let n: usize = items.len();
        let mut i: usize = 0;
        proof {
            assert(self@.skip(0) =~= self@);
        }
        while i < n
            invariant
                i <= n,
                n == items@.len(),
                items@ == self.slots@,
                n == self@.len(),
                slot_of(self@, key) == i + slot_of(self@.skip(i as int), key),
            decreases n - i,
        {
            assert(self@.skip(i as int)[0] == items@[i as int]@);
            if items[i].key == key {
                return i;
            }
            assert(self@.skip(i as int).drop_first() =~= self@.skip(i as int + 1));
            i = i + 1;
        }
        i
    }

    /// Make a place for the message `key` of `count` fragments.
    fn seat(&mut self, key: FragKey, count: u8) -> (at: usize)
        requires
            old(self).wf(),
            0 < count <= MAX_FRAGMENTS,
        ensures
            final(self).wf(),
            (final(self)@, at as int) == seated(old(self)@, SLOTS as nat, key, count as nat),
            at < final(self)@.len(),
            final(self)@[at as int].parts.len() == count,
            final(self)@[at as int].key == key,
    {
        let at: usize = self.find(key);
        let n: usize = self.slots.items().len();
        proof {
            slot_of_is_slot(self@, key);
        }
        if at < n {
            if self.slots.items()[at].parts.len() == count as usize {
                return at;
            }
            let dropped = self.slots.remove(at);
            assert(self@ =~= old(self)@.remove(at as int));
        }
        let ghost kept = self@;
        if self.slots.items().len() >= SLOTS {
            let dropped = self.slots.remove(0);
            assert(self@ =~= kept.remove(0));
        }
        let ghost room = self@;
        let mut parts: Vec<Option<Vec<u8>>> = Vec::new();
        let mut i: u8 = 0;
        while i < count
            invariant
                i <= count,
                parts@.len() == i,
                forall|j: int| 0 <= j < i ==> (#[trigger] parts@[j]) is None,
            decreases count - i,
        {
            parts.push(None);
            i = i + 1;
        }
        let fresh = Assembly { key, parts };
        assert(fresh@ =~= unheard(key, count as nat));
        let place: usize = self.slots.items().len();
        let pushed: bool = self.slots.push(fresh);
        assert(self@ =~= room.push(unheard(key, count as nat)));
        place
    }

    /// Take one fragment in.  When it completes its message, the message is
    /// written to the front of `out`, its length and the completing fragment's
    /// metrics are returned, and the message leaves the table.  A fragment that
    /// does not fit its message is dropped.
    pub fn accept(
        &mut self,
        key: FragKey,
        hdr: &FragHeader,
        body: &[u8],
        metrics: LinkMetrics,
        out: &mut [u8],
    ) -> (r: Option<(usize, LinkMetrics)>)
        requires
            old(self).wf(),
            old(out)@.len() >= MAX_LEN,
            MAX_FRAGMENTS * PIECE <= usize::MAX,
        ensures
            final(self).wf(),
            if fragment_fits(*hdr, body@.len(), PIECE as nat, MAX_LEN as nat) {
                let (table, done) = accepted(old(self)@, SLOTS as nat, key, *hdr, body@);
                &&& final(self)@ == table
                &&& match done {
                    Some(frame) => {
                        &&& r == Some((frame.len() as usize, metrics))
                        &&& frame.len() <= MAX_LEN
                        &&& final(out)@ == overlay(old(out)@, 0, frame)
                    },
                    None => r is None && final(out)@ == old(out)@,
                }
            } else {
                r is None && final(self)@ == old(self)@ && final(out)@ == old(out)@
            },
    {
        if hdr.index >= hdr.count || hdr.count as usize > MAX_FRAGMENTS {
            return None;
        }
        let len: usize = body.len();
        let whole: bool = hdr.index + 1 < hdr.count;
        if (whole && len != PIECE) || len > PIECE {
            return None;
        }
        assert(hdr.index * PIECE <= 14 * PIECE) by (nonlinear_arith)
            requires
                hdr.index <= 14,
        ;
        if hdr.index as usize * PIECE > MAX_LEN || len > MAX_LEN - hdr.index as usize * PIECE {
            return None;
        }
        let at: usize = self.seat(key, hdr.count);
        let ghost table = self@;
        let ghost before = self.slots@;
        let mut bytes: Vec<u8> = Vec::new();
        bytes.extend_from_slice(body);
        assert(bytes@ =~= body@);
        let items = self.slots.items_mut();
        items[at].parts[hdr.index as usize] = Some(bytes);
        let ghost parts = table[at as int].parts.update(hdr.index as int, Some(body@));
        proof {
            assert(self.slots@[at as int]@.parts =~= parts);
            assert(self@ =~= table.update(at as int, InFlight { key, parts }));
            assert(parts_fit(table[at as int].parts, PIECE as nat, MAX_LEN as nat));
            assert forall|i: int| 0 <= i < parts.len() && (
            #[trigger] parts[i]) is Some implies fragment_fits(
                FragHeader { msg_id: 0, index: i as u8, count: parts.len() as u8 },
                parts[i]->Some_0.len(),
                PIECE as nat,
                MAX_LEN as nat,
            ) by {
                if i != hdr.index {
                    assert(parts[i] == table[at as int].parts[i]);
                }
            }
            assert(parts_fit(parts, PIECE as nat, MAX_LEN as nat));
        }
        let done: Option<Vec<u8>> = self.slots.items()[at].joined();
        match done {
            None => {
                assert(self@ =~= table.update(at as int, InFlight { key, parts }));
                None
            },
            Some(frame) => {
                let ghost full = self@;
                let finished = self.slots.remove(at);
                proof {
                    joined_fits(parts, PIECE as nat, MAX_LEN as nat);
                    assert(full.remove(at as int) =~= table.remove(at as int));
                    assert(self@ =~= table.remove(at as int));
                }
                let n: usize = frame.len();
                write_at(out, 0, frame.as_slice());
                Some((n, metrics))
            },
        }
    }
}

impl<const SLOTS: usize, const PIECE: usize, const MAX_LEN: usize> Reassembler<
    SLOTS,
    PIECE,
    MAX_LEN,
> {
    /// Take one packet from `addr` in.  When it completes its message, the message
    /// is written to the front of `out`, and its length and the packet's metrics
    /// are returned.
    pub fn take_packet(
        &mut self,
        addr: u64,
        raw: &[u8],
        metrics: LinkMetrics,
        out: &mut [u8],
    ) -> (r: Option<(usize, LinkMetrics)>)
        requires
            old(self).wf(),
            old(out)@.len() >= MAX_LEN,
            MAX_FRAGMENTS * PIECE <= usize::MAX,
        ensures
            final(self).wf(),
            ({
                let (table, done) = arrived(
                    old(self)@,
                    SLOTS as nat,
                    PIECE as nat,
                    MAX_LEN as nat,
                    addr,
                    raw@,
                );
                &&& final(self)@ == table
                &&& match done {
                    Some(frame) => {
                        &&& r == Some((frame.len() as usize, metrics))
                        &&& frame.len() <= MAX_LEN
                        &&& final(out)@ == overlay(old(out)@, 0, frame)
                    },
                    None => r is None && final(out)@ == old(out)@,
                }
            }),
    {
        match parse_fragment(raw) {
            Some((hdr, body)) => {
                proof {
                    let front = raw@.subrange(0, 2);
                    assert(front[0] == raw@[0] && front[1] == raw@[1]);
                    assert(hdr.bytes()[0] == hdr.msg_id);
                    assert(hdr.bytes()[1] == hdr.index * 16 + hdr.count);
                    assert(header_in(raw@) == Some(hdr));
                }
                self.accept(FragKey { addr, msg_id: hdr.msg_id }, &hdr, body, metrics, out)
            },
            None => None,
        }
    }
}

impl Assembly {
    /// The message, once every fragment has arrived.
    fn joined(&self) -> (r: Option<Vec<u8>>)
        ensures
            match r {
                Some(frame) => all_here(self@.parts) && frame@ == parts_joined(self@.parts),
                None => !all_here(self@.parts),
            },
    {
        let n: usize = self.parts.len();
        let mut frame: Vec<u8> = Vec::new();
        let mut i: usize = 0;
        while i < n
            invariant
                i <= n,
                n == self.parts@.len(),
                n == self@.parts.len(),
                forall|j: int| 0 <= j < i ==> (#[trigger] self@.parts[j]) is Some,
                frame@ == parts_joined(self@.parts.take(i as int)),
            decreases n - i,
        {
            match &self.parts[i] {
                Some(bytes) => {
                    frame.extend_from_slice(bytes.as_slice());
                    assert(self@.parts[i as int] == Some(bytes@));
                    assert(self@.parts.take(i + 1).drop_last() =~= self@.parts.take(i as int));
                    assert(frame@ =~= parts_joined(self@.parts.take(i + 1)));
                },
                None => {
                    assert(self@.parts[i as int] is None);
                    return None;
                },
            }
            i = i + 1;
        }
        assert(self@.parts.take(n as int) =~= self@.parts);
        Some(frame)
    }
}

/// The place found holds the message, and none before it does.
proof fn slot_of_is_slot(slots: Seq<InFlight>, key: FragKey)
    ensures
        slot_of(slots, key) <= slots.len(),
        slot_of(slots, key) < slots.len() ==> slots[slot_of(slots, key) as int].key == key,
        forall|j: int| 0 <= j < slot_of(slots, key) ==> (#[trigger] slots[j]).key != key,
    decreases slots.len(),
{
    if slots.len() > 0 && slots[0].key != key {
        let rest = slots.drop_first();
        slot_of_is_slot(rest, key);
        assert forall|j: int| 0 <= j < slot_of(slots, key) implies (
        #[trigger] slots[j]).key != key by {
            if j > 0 {
                assert(rest[j - 1] == slots[j]);
            }
        }
    }
}

/// Whole pieces, back to back, have the length of their number.
proof fn whole_parts_len(parts: Seq<Option<Seq<u8>>>, piece: nat)
    requires
        forall|i: int|
            0 <= i < parts.len() ==> (#[trigger] parts[i]) is Some && parts[i]->Some_0.len()
                == piece,
    ensures
        parts_joined(parts).len() == parts.len() * piece,
    decreases parts.len(),
{
    if parts.len() > 0 {
        let rest = parts.drop_last();
        assert forall|i: int| 0 <= i < rest.len() implies (#[trigger] rest[i]) is Some
            && rest[i]->Some_0.len() == piece by {
            assert(rest[i] == parts[i]);
        }
        whole_parts_len(rest, piece);
        assert(parts[parts.len() - 1] is Some);
        assert(rest.len() * piece + piece == parts.len() * piece) by (nonlinear_arith)
            requires
                rest.len() == parts.len() - 1,
        ;
    } else {
        assert(parts.len() * piece == 0) by (nonlinear_arith)
            requires
                parts.len() == 0,
        ;
    }
}

/// A complete message whose fragments fit is within the length limit.
proof fn joined_fits(parts: Seq<Option<Seq<u8>>>, piece: nat, max_len: nat)
    requires
        parts_fit(parts, piece, max_len),
        all_here(parts),
    ensures
        parts_joined(parts).len() <= max_len,
{
    let n = parts.len();
    let rest = parts.drop_last();
    assert forall|i: int| 0 <= i < rest.len() implies (#[trigger] rest[i]) is Some
        && rest[i]->Some_0.len() == piece by {
        assert(rest[i] == parts[i]);
        assert(parts[i] is Some);
    }
    whole_parts_len(rest, piece);
    assert(parts[n - 1] is Some);
}

/// What has arrived of a message is what `frame` splits into.
pub open spec fn pieces_of(parts: Seq<Option<Seq<u8>>>, frame: Seq<u8>, piece: nat) -> bool {
    &&& parts.len() == piece_count(frame.len(), piece)
    &&& forall|i: int|
        0 <= i < parts.len() && (#[trigger] parts[i]) is Some ==> parts[i] == Some(
            piece_of(frame, piece, i as nat),
        )
}

/// The first `n` parts of a complete message are the first `n` pieces.
proof fn parts_are_pieces(parts: Seq<Option<Seq<u8>>>, frame: Seq<u8>, piece: nat, n: nat)
    requires
        n <= parts.len(),
        pieces_of(parts, frame, piece),
        all_here(parts),
    ensures
        parts_joined(parts.take(n as int)) == pieces_joined(frame, piece, n),
    decreases n,
{
    if n > 0 {
        parts_are_pieces(parts, frame, piece, (n - 1) as nat);
        assert(parts.take(n as int).drop_last() =~= parts.take(n - 1));
        assert(parts.take(n as int).last() == parts[n - 1]);
        assert(parts[n - 1] is Some);
    }
}

/// The header at the front of a packet, if it is sound.
pub open spec fn header_in(raw: Seq<u8>) -> Option<FragHeader> {
    if raw.len() < FRAG_HDR_LEN || raw[1] / 16 >= raw[1] % 16 {
        None
    } else {
        Some(FragHeader { msg_id: raw[0], index: raw[1] / 16, count: raw[1] % 16 })
    }
}

/// The table after a packet from `addr`, and the message it completed: a packet
/// without a sound header, or whose fragment does not fit, is passed over.
pub open spec fn arrived(
    slots: Seq<InFlight>,
    capacity: nat,
    piece: nat,
    max_len: nat,
    addr: u64,
    raw: Seq<u8>,
) -> (Seq<InFlight>, Option<Seq<u8>>) {
    match header_in(raw) {
        Some(hdr) => {
            let body = raw.subrange(FRAG_HDR_LEN as int, raw.len() as int);
            if fragment_fits(hdr, body.len(), piece, max_len) {
                accepted(slots, capacity, FragKey { addr, msg_id: hdr.msg_id }, hdr, body)
            } else {
                (slots, None)
            }
        },
        None => (slots, None),
    }
}

/// A fragment as it travels: its header, then its piece of the frame.
pub open spec fn packet_bytes(frame: Seq<u8>, piece: nat, hdr: FragHeader) -> Seq<u8> {
    hdr.bytes() + piece_of(frame, piece, hdr.index as nat)
}

/// A fragment made from a frame is read back as its header and its piece, and
/// fits.
proof fn own_fragment_fits(frame: Seq<u8>, piece: nat, max_len: nat, hdr: FragHeader)
    requires
        piece > 0,
        hdr.wf(),
        hdr.count == piece_count(frame.len(), piece),
        frame.len() <= max_len,
    ensures
        ({
            let raw = packet_bytes(frame, piece, hdr);
            &&& header_in(raw) == Some(hdr)
            &&& raw.subrange(FRAG_HDR_LEN as int, raw.len() as int) == piece_of(
                frame,
                piece,
                hdr.index as nat,
            )
            &&& fragment_fits(
                hdr,
                piece_of(frame, piece, hdr.index as nat).len(),
                piece,
                max_len,
            )
        }),
{
    let raw = packet_bytes(frame, piece, hdr);
    let len = frame.len() as int;
    let i = hdr.index as int;
    let p = piece as int;
    let q = len / p;
    let body = piece_of(frame, piece, hdr.index as nat);
    assert(raw[0] == hdr.msg_id);
    assert(raw[1] == hdr.index * 16 + hdr.count);
    vstd::arithmetic::div_mod::lemma_fundamental_div_mod(len, p);
    assert(i * p + p == (i + 1) * p) by (nonlinear_arith);
    if i + 1 < hdr.count {
        assert((i + 1) * p <= p * q) by (nonlinear_arith)
            requires
                i + 1 <= q,
                p > 0,
        ;
    } else if i < q {
        assert((i + 1) * p <= p * q) by (nonlinear_arith)
            requires
                i + 1 <= q,
                p > 0,
        ;
    } else {
        assert(i * p == p * q) by (nonlinear_arith)
            requires
                i == q,
        ;
    }
    assert(0 <= i * p) by (nonlinear_arith)
        requires
            0 <= i,
            p > 0,
    ;
    assert(raw.subrange(FRAG_HDR_LEN as int, raw.len() as int) =~= body);
}

/// Fragments may arrive in any order: while what has arrived of a message is
/// what a frame splits into, one more of its pieces either completes the message,
/// and then it is the frame, or is kept beside the others, and then pieces are
/// still missing.
pub proof fn any_order_gives_the_frame(
    slots: Seq<InFlight>,
    capacity: nat,
    max_len: nat,
    addr: u64,
    hdr: FragHeader,
    frame: Seq<u8>,
    piece: nat,
)
    requires
        piece > 0,
        hdr.wf(),
        capacity > 0,
        hdr.count == piece_count(frame.len(), piece),
        frame.len() <= max_len,
        ({
            let key = FragKey { addr, msg_id: hdr.msg_id };
            let (table, at) = seated(slots, capacity, key, hdr.count as nat);
            pieces_of(table[at].parts, frame, piece)
        }),
    ensures
        ({
            let key = FragKey { addr, msg_id: hdr.msg_id };
            let (seats, at) = seated(slots, capacity, key, hdr.count as nat);
            let (table, done) = arrived(
                slots,
                capacity,
                piece,
                max_len,
                addr,
                packet_bytes(frame, piece, hdr),
            );
            match done {
                Some(whole) => whole == frame,
                None => {
                    &&& table.len() == seats.len()
                    &&& table[at].key == key
                    &&& pieces_of(table[at].parts, frame, piece)
                    &&& table[at].parts[hdr.index as int] is Some
                    &&& forall|i: int|
                        0 <= i < table[at].parts.len() && (#[trigger] seats[at].parts[i]) is Some
                            ==> table[at].parts[i] is Some
                    &&& !all_here(table[at].parts)
                },
            }
        }),
{
    let key = FragKey { addr, msg_id: hdr.msg_id };
    own_fragment_fits(frame, piece, max_len, hdr);
    let (seats, at) = seated(slots, capacity, key, hdr.count as nat);
    slot_of_is_slot(slots, key);
    let parts = seats[at].parts.update(
        hdr.index as int,
        Some(piece_of(frame, piece, hdr.index as nat)),
    );
    assert(pieces_of(parts, frame, piece)) by {
        assert forall|i: int| 0 <= i < parts.len() && (
        #[trigger] parts[i]) is Some implies parts[i] == Some(
            piece_of(frame, piece, i as nat),
        ) by {
            if i != hdr.index {
                assert(parts[i] == seats[at].parts[i]);
            }
        }
    }
    if all_here(parts) {
        parts_are_pieces(parts, frame, piece, parts.len());
        assert(parts.take(parts.len() as int) =~= parts);
        pieces_make_the_frame(frame, piece);
    }
}

/// A message of which nothing has arrived yet is ready for the pieces of any
/// frame of its count.
pub proof fn fresh_message_takes_any_frame(
    slots: Seq<InFlight>,
    capacity: nat,
    key: FragKey,
    frame: Seq<u8>,
    piece: nat,
)
    requires
        piece > 0,
        capacity > 0,
        slot_of(slots, key) == slots.len(),
    ensures
        ({
            let (table, at) = seated(slots, capacity, key, piece_count(frame.len(), piece));
            pieces_of(table[at].parts, frame, piece)
        }),
{
}

/// A frame that fits one packet is complete as soon as that packet arrives.
pub proof fn single_packet_is_the_frame(
    slots: Seq<InFlight>,
    capacity: nat,
    max_len: nat,
    addr: u64,
    msg_id: u8,
    frame: Seq<u8>,
    piece: nat,
)
    requires
        0 < frame.len() <= piece,
        frame.len() <= max_len,
        capacity > 0,
        slot_of(slots, FragKey { addr, msg_id }) == slots.len(),
    ensures
        arrived(
            slots,
            capacity,
            piece,
            max_len,
            addr,
            packet_bytes(frame, piece, FragHeader { msg_id, index: 0, count: 1 }),
        ).1 == Some(frame),
{
    let hdr = FragHeader { msg_id, index: 0, count: 1 };
    let key = FragKey { addr, msg_id };
    assert(piece_count(frame.len(), piece) == 1) by {
        if frame.len() == piece {
            vstd::arithmetic::div_mod::lemma_mod_self_0(piece as int);
            vstd::arithmetic::div_mod::lemma_div_by_self(piece as int);
        } else {
            vstd::arithmetic::div_mod::lemma_small_mod(frame.len(), piece);
            vstd::arithmetic::div_mod::lemma_basic_div(frame.len() as int, piece as int);
        }
    }
    fresh_message_takes_any_frame(slots, capacity, key, frame, piece);
    own_fragment_fits(frame, piece, max_len, hdr);
    let (table, at) = seated(slots, capacity, key, 1);
    let parts = table[at].parts.update(0, Some(piece_of(frame, piece, 0)));
    assert(all_here(parts));
    any_order_gives_the_frame(slots, capacity, max_len, addr, hdr, frame, piece);
}

/// A sound header reads back from the front of the packet it was written to.
pub proof fn header_reads_back(hdr: FragHeader, body: Seq<u8>)
    requires
        hdr.wf(),
    ensures
        header_in(hdr.bytes() + body) == Some(hdr),
{
    let raw = hdr.bytes() + body;
    assert(raw[0] == hdr.msg_id);
    assert(raw[1] == hdr.index * 16 + hdr.count);
}

/// The table after the packets of a frame have arrived from `addr` in the given
/// order, and what the last of them completed.
pub open spec fn delivered(
    slots: Seq<InFlight>,
    capacity: nat,
    max_len: nat,
    key: FragKey,
    frame: Seq<u8>,
    piece: nat,
    order: Seq<int>,
) -> (Seq<InFlight>, Option<Seq<u8>>)
    decreases order.len(),
{
    if order.len() == 0 {
        (slots, None)
    } else {
        let (before, _) = delivered(
            slots,
            capacity,
            max_len,
            key,
            frame,
            piece,
            order.drop_last(),
        );
        let hdr = FragHeader {
            msg_id: key.msg_id,
            index: order.last() as u8,
            count: piece_count(frame.len(), piece) as u8,
        };
        arrived(before, capacity, piece, max_len, key.addr, packet_bytes(frame, piece, hdr))
    }
}

/// Every piece once: the places `0..count`, in some order.
pub open spec fn each_once(order: Seq<int>, count: nat) -> bool {
    &&& order.len() == count
    &&& order.no_duplicates()
    &&& forall|i: int| 0 <= i < order.len() ==> 0 <= #[trigger] order[i] < count
}

/// Replacing a message by another of its key moves no place.
proof fn slot_of_keeps(slots: Seq<InFlight>, key: FragKey, at: int, parts: Seq<Option<Seq<u8>>>)
    requires
        0 <= at < slots.len(),
        slots[at].key == key,
        slot_of(slots, key) == at,
    ensures
        slot_of(slots.update(at, InFlight { key, parts }), key) == at,
    decreases slots.len(),
{
    let after = slots.update(at, InFlight { key, parts });
    if at > 0 {
        assert(slots[0].key != key);
        assert(after[0] == slots[0]);
        assert(after.drop_first() =~= slots.drop_first().update(
            at - 1,
            InFlight { key, parts },
        ));
        slot_of_keeps(slots.drop_first(), key, at - 1, parts);
    }
}

/// A message put behind a table that does not hold its key stands last.
proof fn slot_of_pushed(slots: Seq<InFlight>, key: FragKey, m: InFlight)
    requires
        slot_of(slots, key) == slots.len(),
        m.key == key,
    ensures
        slot_of(slots.push(m), key) == slots.len(),
    decreases slots.len(),
{
    let all = slots.push(m);
    if slots.len() > 0 {
        assert(slots[0].key != key);
        assert(all[0] == slots[0]);
        assert(all.drop_first() =~= slots.drop_first().push(m));
        slot_of_pushed(slots.drop_first(), key, m);
    }
}

/// Taking the first message out leaves another key as absent as it was.
proof fn slot_of_without_first(slots: Seq<InFlight>, key: FragKey)
    requires
        slots.len() > 0,
        slot_of(slots, key) == slots.len(),
    ensures
        slot_of(slots.remove(0), key) == slots.len() - 1,
{
    assert(slots[0].key != key);
    assert(slots.remove(0) =~= slots.drop_first());
}

/// While not every piece has arrived, the message stands in the table with just
/// those that have.
proof fn partly_delivered(
    slots: Seq<InFlight>,
    capacity: nat,
    max_len: nat,
    key: FragKey,
    frame: Seq<u8>,
    piece: nat,
    order: Seq<int>,
    n: nat,
)
    requires
        piece > 0,
        capacity > 0,
        frame.len() <= max_len,
        piece_count(frame.len(), piece) <= MAX_FRAGMENTS,
        each_once(order, piece_count(frame.len(), piece)),
        slot_of(slots, key) == slots.len(),
        0 < n < order.len(),
    ensures
        ({
            let (table, done) = delivered(
                slots,
                capacity,
                max_len,
                key,
                frame,
                piece,
                order.take(n as int),
            );
            let at = slot_of(table, key) as int;
            &&& done is None
            &&& at < table.len()
            &&& table[at].key == key
            &&& pieces_of(table[at].parts, frame, piece)
            &&& forall|i: int|
                0 <= i < table[at].parts.len() ==> ((#[trigger] table[at].parts[i]) is Some
                    <==> order.take(n as int).contains(i))
        }),
    decreases n,
{
    let count = piece_count(frame.len(), piece);
    let so_far = order.take(n as int);
    let earlier = order.take(n - 1);
    assert(so_far.drop_last() =~= earlier);
    let last = order[n - 1];
    assert(so_far.last() == last);
    let hdr = FragHeader { msg_id: key.msg_id, index: last as u8, count: count as u8 };
    let (before, _) = delivered(slots, capacity, max_len, key, frame, piece, earlier);
    let (seats, at) = seated(before, capacity, key, count);
    if n == 1 {
        assert(earlier =~= Seq::empty());
        assert(before == slots);
        let room = if slots.len() >= capacity {
            slots.remove(0)
        } else {
            slots
        };
        if slots.len() >= capacity {
            slot_of_without_first(slots, key);
        }
        slot_of_pushed(room, key, unheard(key, count));
        fresh_message_takes_any_frame(slots, capacity, key, frame, piece);
        assert(forall|i: int| 0 <= i < count ==> (#[trigger] seats[at].parts[i]) is None);
    } else {
        partly_delivered(slots, capacity, max_len, key, frame, piece, order, (n - 1) as nat);
        slot_of_is_slot(before, key);
    }
    assert(slot_of(seats, key) == at);
    assert(pieces_of(seats[at].parts, frame, piece));
    assert forall|i: int| 0 <= i < count implies ((#[trigger] seats[at].parts[i]) is Some
        <==> earlier.contains(i)) by {
        if n == 1 {
            assert(!earlier.contains(i));
        }
    }
    own_fragment_fits(frame, piece, max_len, hdr);
    any_order_gives_the_frame(before, capacity, max_len, key.addr, hdr, frame, piece);
    let parts = seats[at].parts.update(last, Some(piece_of(frame, piece, last as nat)));
    let missing = order[n as int];
    assert(!earlier.contains(missing)) by {
        if earlier.contains(missing) {
            let k = earlier.index_of(missing);
            assert(order[k] == order[n as int]);
        }
    }
    assert(missing != last);
    assert(parts[missing] is None);
    assert(!all_here(parts));
    slot_of_keeps(seats, key, at, parts);
    assert forall|i: int| 0 <= i < parts.len() implies ((#[trigger] parts[i]) is Some
        <==> so_far.contains(i)) by {
        if i == last {
            assert(so_far[n - 1] == i);
        } else {
            if earlier.contains(i) {
                let k = earlier.index_of(i);
                assert(so_far[k] == i);
            }
            if so_far.contains(i) {
                let k = so_far.index_of(i);
                assert(k < n - 1);
                assert(earlier[k] == i);
            }
        }
    }
}

/// Places that come once each, as many as there are, are all there.
proof fn all_places_come(order: Seq<int>, count: nat, i: int)
    requires
        each_once(order, count),
        0 <= i < count,
    ensures
        order.contains(i),
{
    let places = vstd::set_lib::set_int_range(0, count as int);
    vstd::set_lib::lemma_int_range(0, count as int);
    order.unique_seq_to_set();
    let come = order.to_set();
    assert forall|j: int| come.contains(j) implies places.contains(j) by {
        let k = order.index_of(j);
        assert(order[k] == j);
    }
    assert(come.subset_of(places));
    vstd::set_lib::lemma_subset_equality(come, places);
    assert(come.contains(i));
}

/// A split frame arrives whole: once each of its pieces has come, in any order,
/// the last of them gives the frame, and none before it gives anything.  The
/// sender's number must not already be in flight.
pub proof fn frame_arrives_whole(
    slots: Seq<InFlight>,
    capacity: nat,
    max_len: nat,
    key: FragKey,
    frame: Seq<u8>,
    piece: nat,
    order: Seq<int>,
)
    requires
        piece > 0,
        capacity > 0,
        0 < frame.len() <= max_len,
        piece_count(frame.len(), piece) <= MAX_FRAGMENTS,
        each_once(order, piece_count(frame.len(), piece)),
        slot_of(slots, key) == slots.len(),
    ensures
        delivered(slots, capacity, max_len, key, frame, piece, order).1 == Some(frame),
        forall|n: int|
            0 <= n < order.len() ==> (#[trigger] delivered(
                slots,
                capacity,
                max_len,
                key,
                frame,
                piece,
                order.take(n),
            )).1 is None,
{
    let count = piece_count(frame.len(), piece);
    assert forall|n: int| 0 <= n < order.len() implies (#[trigger] delivered(
        slots,
        capacity,
        max_len,
        key,
        frame,
        piece,
        order.take(n),
    )).1 is None by {
        if n > 0 {
            partly_delivered(slots, capacity, max_len, key, frame, piece, order, n as nat);
        }
    }
    assert(count > 0) by {
        if frame.len() < piece {
            vstd::arithmetic::div_mod::lemma_small_mod(frame.len(), piece);
        } else {
            vstd::arithmetic::div_mod::lemma_div_is_ordered(
                piece as int,
                frame.len() as int,
                piece as int,
            );
            vstd::arithmetic::div_mod::lemma_div_by_self(piece as int);
        }
    }
    let earlier = order.drop_last();
    assert(earlier =~= order.take(count - 1));
    let last = order.last();
    let hdr = FragHeader { msg_id: key.msg_id, index: last as u8, count: count as u8 };
    let (before, _) = delivered(slots, capacity, max_len, key, frame, piece, earlier);
    let (seats, at) = seated(before, capacity, key, count);
    if count == 1 {
        assert(earlier =~= Seq::empty());
        fresh_message_takes_any_frame(slots, capacity, key, frame, piece);
    } else {
        partly_delivered(slots, capacity, max_len, key, frame, piece, order, (count - 1) as nat);
        slot_of_is_slot(before, key);
    }
    own_fragment_fits(frame, piece, max_len, hdr);
    any_order_gives_the_frame(before, capacity, max_len, key.addr, hdr, frame, piece);
    let parts = seats[at].parts.update(last, Some(piece_of(frame, piece, last as nat)));
    assert forall|i: int| 0 <= i < parts.len() implies (#[trigger] parts[i]) is Some by {
        all_places_come(order, count, i);
        if i != last {
            let k = order.index_of(i);
            assert(earlier[k] == i);
            assert(earlier.contains(i));
        }
    }
    assert(all_here(parts));
}

/// A fragment of one message leaves every other message in flight as it is, but
/// that a full table gives up the one longest in flight to make room for a message
/// it has no place for.
pub proof fn other_messages_stay(
    slots: Seq<InFlight>,
    capacity: nat,
    key: FragKey,
    hdr: FragHeader,
    body: Seq<u8>,
    i: int,
)
    requires
        0 <= i < slots.len(),
        slots[i].key != key,
        hdr.wf(),
        !accepted(slots, capacity, key, hdr, body).0.contains(slots[i]),
    ensures
        slots.len() >= capacity,
        forall|j: int| 0 <= j < i ==> (#[trigger] slots[j]).key == key,
        forall|j: int|
            0 <= j < slots.len() && (#[trigger] slots[j]).key == key && slots[j].parts.len()
                == hdr.count ==> exists|k: int|
                0 <= k < j && (#[trigger] slots[k]).key == key && slots[k].parts.len() != hdr.count,
{
    let count = hdr.count as nat;
    let at = slot_of(slots, key) as int;
    let (table, place) = seated(slots, capacity, key, count);
    let parts = table[place].parts.update(hdr.index as int, Some(body));
    let left = accepted(slots, capacity, key, hdr, body).0;
    slot_of_is_slot(slots, key);
    assert(table[place].key == key && 0 <= place < table.len());
    assert(!table.contains(slots[i])) by {
        if table.contains(slots[i]) {
            let k = choose|k: int| 0 <= k < table.len() && table[k] == slots[i];
            assert(k != place);
            if all_here(parts) {
                let m = if k < place { k } else { k - 1 };
                assert(left[m] == slots[i]);
            } else {
                assert(left[k] == slots[i]);
            }
        }
    }
    if at < slots.len() && slots[at].parts.len() == count {
        assert(table[i] == slots[i]);
    } else {
        let kept = if at < slots.len() {
            slots.remove(at)
        } else {
            slots
        };
        let k = if at < slots.len() && i > at { i - 1 } else { i };
        assert(kept[k] == slots[i]);
        if kept.len() >= capacity {
            if k > 0 {
                assert(table[k - 1] == slots[i]);
            }
        } else {
            assert(table[k] == slots[i]);
        }
        assert(k == 0);
        assert forall|j: int|
            0 <= j < slots.len() && (#[trigger] slots[j]).key == key && slots[j].parts.len()
                == hdr.count implies exists|m: int|
            0 <= m < j && (#[trigger] slots[m]).key == key && slots[m].parts.len()
                != hdr.count by {
            assert(at <= j);
            assert(slots[at].key == key && at != j);
        }
    }
}

/// A message is handed over only once every one of its fragments has arrived: each
/// but the one just arrived was there already, under the same sender and number.
/// What is handed over then leaves the table.
pub proof fn messages_are_handed_over_whole(
    slots: Seq<InFlight>,
    capacity: nat,
    key: FragKey,
    hdr: FragHeader,
    body: Seq<u8>,
)
    requires
        hdr.wf(),
        capacity > 0,
        accepted(slots, capacity, key, hdr, body).1 is Some,
    ensures
        hdr.count == 1 || exists|i: int|
            0 <= i < slots.len() && (#[trigger] slots[i]).key == key && slots[i].parts.len()
                == hdr.count && forall|j: int|
                0 <= j < hdr.count && j != hdr.index ==> (#[trigger] slots[i].parts[j]) is Some,
        accepted(slots, capacity, key, hdr, body).0.len() <= slots.len(),
{
    let count = hdr.count as nat;
    let at = slot_of(slots, key) as int;
    let (table, place) = seated(slots, capacity, key, count);
    let parts = table[place].parts.update(hdr.index as int, Some(body));
    slot_of_is_slot(slots, key);
    if at < slots.len() && slots[at].parts.len() == count {
        assert forall|j: int| 0 <= j < hdr.count && j != hdr.index implies (
        #[trigger] slots[at].parts[j]) is Some by {
            assert(parts[j] is Some);
        }
    } else if hdr.count > 1 {
        let j: int = if hdr.index == 0 { 1 } else { 0 };
        assert(parts[j] is None);
    }
}

/// A fragment that does not complete its message is kept under its sender, number
/// and place.
pub proof fn fragments_are_kept(
    slots: Seq<InFlight>,
    capacity: nat,
    key: FragKey,
    hdr: FragHeader,
    body: Seq<u8>,
)
    requires
        hdr.wf(),
        accepted(slots, capacity, key, hdr, body).1 is None,
    ensures
        exists|i: int|
            0 <= i < accepted(slots, capacity, key, hdr, body).0.len() && {
                let slot = #[trigger] accepted(slots, capacity, key, hdr, body).0[i];
                slot.key == key && slot.parts.len() == hdr.count && slot.parts[hdr.index as int]
                    == Some(body)
            },
{
    let (table, place) = seated(slots, capacity, key, hdr.count as nat);
    slot_of_is_slot(slots, key);
    let left = accepted(slots, capacity, key, hdr, body).0;
    assert(left[place].key == key);
}

/// A packet that is no sound fragment is passed over: one too short for a header,
/// one whose place its count does not have, one in the middle of its message that
/// is not a whole piece, one at its end that is more than a piece, and one that
/// would take its message past the longest allowed.
pub proof fn unsound_fragments_are_passed_over(
    slots: Seq<InFlight>,
    capacity: nat,
    piece: nat,
    max_len: nat,
    addr: u64,
    raw: Seq<u8>,
)
    requires
        ({
            ||| raw.len() < 2
            ||| raw[1] / 16 >= raw[1] % 16
            ||| raw[1] / 16 + 1 < raw[1] % 16 && raw.len() != piece + 2
            ||| raw.len() > piece + 2
            ||| (raw[1] / 16) * piece + raw.len() - 2 > max_len
        }),
    ensures
        arrived(slots, capacity, piece, max_len, addr, raw) == (slots, None::<Seq<u8>>),
{
}

} // verus!
