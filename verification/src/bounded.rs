//! Fixed-capacity tables held without a heap: lists, address-keyed maps and
//! queues over the `heapless` crate's storage.
//!
//! Each type pairs the `heapless` value with a ghost record of its contents.
//! Both are private: only the methods that hand on to `heapless` change either,
//! and each says how the contents move.

use vstd::prelude::*;

use crate::frame::Mac;

verus! {

/// A `heapless` vector, opaque to proofs.
#[verifier::external_body]
#[verifier::reject_recursive_types(T)]
struct RawVec<T, const N: usize> {
    items: heapless::Vec<T, N>,
}

/// A list of at most `N` items, viewed as the sequence of its items.
#[verifier::reject_recursive_types(T)]
pub struct BoundedVec<T, const N: usize> {
    raw: RawVec<T, N>,
    contents: Ghost<Seq<T>>,
}

/// `s` with the item at `i` replaced by the last one, which leaves its place.
pub open spec fn swap_removed<T>(s: Seq<T>, i: int) -> Seq<T> {
    s.update(i, s.last()).drop_last()
}

impl<T, const N: usize> View for BoundedVec<T, N> {
    type V = Seq<T>;

    closed spec fn view(&self) -> Seq<T> {
        self.contents@
    }
}

impl<T, const N: usize> BoundedVec<T, N> {
    /// `heapless::Vec::new` makes an empty vector.
    #[verifier::external_body]
    pub(crate) fn new() -> (v: Self)
        ensures
            v@ == Seq::<T>::empty(),
    {
        BoundedVec { raw: RawVec { items: heapless::Vec::new() }, contents: Ghost(Seq::empty()) }
    }

    /// `heapless::Vec::push` appends the item, or, when `N` items are held,
    /// refuses it and changes nothing.
    #[verifier::external_body]
    pub(crate) fn push(&mut self, item: T) -> (ok: bool)
        ensures
            ok == (old(self)@.len() < N),
            final(self)@ == (if ok {
                old(self)@.push(item)
            } else {
                old(self)@
            }),
    {
        self.raw.items.push(item).is_ok()
    }

    /// `heapless::Vec::as_slice` gives the items in order.
    #[verifier::external_body]
    pub(crate) fn items(&self) -> (s: &[T])
        ensures
            s@ == self@,
    {
        self.raw.items.as_slice()
    }

    /// `heapless::Vec::as_mut_slice` gives the items in order, to change in place.
    #[verifier::external_body]
    pub(crate) fn items_mut(&mut self) -> (s: &mut [T])
        ensures
            s@ == old(self)@,
            final(self)@ == final(s)@,
    {
        self.raw.items.as_mut_slice()
    }

    /// `heapless::Vec::swap_remove` takes the item at `i` out and puts the last
    /// item in its place; it panics past the end, which `requires` rules out.
    #[verifier::external_body]
    pub(crate) fn swap_remove(&mut self, i: usize) -> (item: T)
        requires
            i < old(self)@.len(),
        ensures
            item == old(self)@[i as int],
            final(self)@ == swap_removed(old(self)@, i as int),
    {
        self.raw.items.swap_remove(i)
    }

    /// `heapless::Vec::remove` takes the item at `i` out and closes the gap,
    /// keeping the order; it panics past the end, which `requires` rules out.
    #[verifier::external_body]
    pub(crate) fn remove(&mut self, i: usize) -> (item: T)
        requires
            i < old(self)@.len(),
        ensures
            item == old(self)@[i as int],
            final(self)@ == old(self)@.remove(i as int),
    {
        self.raw.items.remove(i)
    }

    /// `heapless::Vec::clear` drops every item.
    #[verifier::external_body]
    pub(crate) fn clear(&mut self)
        ensures
            final(self)@ == Seq::<T>::empty(),
    {
        self.raw.items.clear()
    }

    /// A list without items.
    pub fn empty() -> (v: Self)
        ensures
            v@ == Seq::<T>::empty(),
    {
        BoundedVec::new()
    }

    /// How many items are held.
    pub fn len(&self) -> (n: usize)
        ensures
            n == self@.len(),
    {
        self.items().len()
    }

    /// The items in order.
    pub fn as_slice(&self) -> (s: &[T])
        ensures
            s@ == self@,
    {
        self.items()
    }
}

/// A `heapless` double-ended queue, opaque to proofs.
#[verifier::external_body]
#[verifier::reject_recursive_types(T)]
struct RawQueue<T, const N: usize> {
    items: heapless::Deque<T, N>,
}

/// A queue of at most `N` items, viewed as the sequence of its items, the next
/// to leave first.  `N` must be above zero: `heapless` refuses zero at compile
/// time.
#[verifier::reject_recursive_types(T)]
pub struct BoundedQueue<T, const N: usize> {
    raw: RawQueue<T, N>,
    contents: Ghost<Seq<T>>,
}

impl<T, const N: usize> View for BoundedQueue<T, N> {
    type V = Seq<T>;

    closed spec fn view(&self) -> Seq<T> {
        self.contents@
    }
}

impl<T, const N: usize> BoundedQueue<T, N> {
    /// `heapless::Deque::new` makes an empty queue.
    #[verifier::external_body]
    pub(crate) fn new() -> (q: Self)
        ensures
            q@ == Seq::<T>::empty(),
    {
        BoundedQueue { raw: RawQueue { items: heapless::Deque::new() }, contents: Ghost(Seq::empty()) }
    }

    /// `heapless::Deque::push_back` appends the item, or, when `N` items are
    /// held, refuses it and changes nothing.
    #[verifier::external_body]
    pub(crate) fn push_back(&mut self, item: T) -> (ok: bool)
        ensures
            ok == (old(self)@.len() < N),
            final(self)@ == (if ok {
                old(self)@.push(item)
            } else {
                old(self)@
            }),
    {
        self.raw.items.push_back(item).is_ok()
    }

    /// `heapless::Deque::pop_front` takes the first item out, or gives `None`
    /// where there is none.
    #[verifier::external_body]
    pub(crate) fn pop_front(&mut self) -> (item: Option<T>)
        ensures
            match item {
                Some(first) => {
                    &&& old(self)@.len() > 0
                    &&& first == old(self)@[0]
                    &&& final(self)@ == old(self)@.drop_first()
                },
                None => old(self)@.len() == 0 && final(self)@ == old(self)@,
            },
    {
        self.raw.items.pop_front()
    }

    /// `heapless::Deque::is_full` says whether `N` items are held.
    #[verifier::external_body]
    pub(crate) fn is_full(&self) -> (full: bool)
        ensures
            full == (self@.len() == N),
    {
        self.raw.items.is_full()
    }
}

/// The largest capacity of an address table: a `heapless` index map packs an
/// entry's place into sixteen bits beside its hash, and beyond this its places are
/// no longer told apart.
pub const MAX_TABLE_LEN: usize = 32768;

/// A `heapless` index map keyed by the six octets of an address, opaque to
/// proofs.
#[verifier::external_body]
#[verifier::reject_recursive_types(V)]
struct RawTable<V, const N: usize> {
    map: heapless::index_map::FnvIndexMap<[u8; 6], V, N>,
}

/// A map from addresses to values with at most `N` entries, viewed as the
/// sequence of its entries in table order.  `N` must be a power of two above
/// one, which `heapless` checks at compile time, and at most [`MAX_TABLE_LEN`].
#[verifier::reject_recursive_types(V)]
pub struct MacTable<V, const N: usize> {
    raw: RawTable<V, N>,
    entries: Ghost<Seq<(Mac, V)>>,
}

/// Whether some entry of `s` has the key.
pub open spec fn has_key<V>(s: Seq<(Mac, V)>, key: Mac) -> bool {
    exists|i: int| 0 <= i < s.len() && (#[trigger] s[i]).0 == key
}

/// No two entries of `s` share a key.
pub open spec fn distinct_keys<V>(s: Seq<(Mac, V)>) -> bool {
    forall|i: int, j: int| 0 <= i < j < s.len() ==> (#[trigger] s[i]).0 != (#[trigger] s[j]).0
}

impl<V, const N: usize> View for MacTable<V, N> {
    type V = Seq<(Mac, V)>;

    closed spec fn view(&self) -> Seq<(Mac, V)> {
        self.entries@
    }
}

impl<V, const N: usize> MacTable<V, N> {
    /// `FnvIndexMap::new` makes an empty map.
    #[verifier::external_body]
    pub(crate) fn new() -> (t: Self)
        ensures
            t@ == Seq::<(Mac, V)>::empty(),
    {
        MacTable {
            raw: RawTable { map: heapless::index_map::FnvIndexMap::new() },
            entries: Ghost(Seq::empty()),
        }
    }

    /// `IndexMap::len` counts the entries.
    #[verifier::external_body]
    fn count(&self) -> (n: usize)
        ensures
            n == self@.len(),
    {
        self.raw.map.len()
    }

    /// `IndexMap::get_index_of` finds the place of the entry with the key, or
    /// `None` where no entry has it.
    #[verifier::external_body]
    pub(crate) fn index_of(&self, key: Mac) -> (i: Option<usize>)
        requires
            N <= MAX_TABLE_LEN,
        ensures
            match i {
                Some(at) => at < self@.len() && self@[at as int].0 == key,
                None => !has_key(self@, key),
            },
    {
        self.raw.map.get_index_of(&key.0)
    }

    /// `IndexMap::get_index` gives the entry in place `i`, or `None` past the
    /// end.
    #[verifier::external_body]
    pub(crate) fn entry_at(&self, i: usize) -> (e: Option<(Mac, &V)>)
        ensures
            match e {
                Some((key, value)) => i < self@.len() && self@[i as int] == (key, *value),
                None => i >= self@.len(),
            },
    {
        match self.raw.map.get_index(i) {
            Some((key, value)) => Some((Mac(*key), value)),
            None => None,
        }
    }

    /// `IndexMap::get_index_mut` gives the value in place `i`, to change in
    /// place; `requires` rules out a place past the end.
    #[verifier::external_body]
    pub(crate) fn value_at_mut(&mut self, i: usize) -> (value: &mut V)
        requires
            i < old(self)@.len(),
        ensures
            *value == old(self)@[i as int].1,
            final(self)@ == old(self)@.update(i as int, (old(self)@[i as int].0, *final(value))),
    {
        self.raw.map.get_index_mut(i).unwrap().1
    }

    /// `IndexMap::insert` of a key that no entry has appends the entry, or, when
    /// `N` entries are held, refuses it and changes nothing.
    #[verifier::external_body]
    pub(crate) fn insert_new(&mut self, key: Mac, value: V) -> (ok: bool)
        requires
            N <= MAX_TABLE_LEN,
            !has_key(old(self)@, key),
        ensures
            ok == (old(self)@.len() < N),
            final(self)@ == (if ok {
                old(self)@.push((key, value))
            } else {
                old(self)@
            }),
    {
        self.raw.map.insert(key.0, value).is_ok()
    }

    /// `IndexMap::remove` takes the entry with the key out and puts the last
    /// entry in its place; where no entry has the key it changes nothing.
    #[verifier::external_body]
    pub(crate) fn swap_remove(&mut self, key: Mac)
        requires
            N <= MAX_TABLE_LEN,
            distinct_keys(old(self)@),
        ensures
            forall|i: int|
                0 <= i < old(self)@.len() && (#[trigger] old(self)@[i]).0 == key ==> final(self)@
                    == swap_removed(old(self)@, i),
            !has_key(old(self)@, key) ==> final(self)@ == old(self)@,
    {
        self.raw.map.remove(&key.0);
    }

    /// `IndexMap::retain` with a test that fails for one key alone takes the
    /// entry with that key out and keeps the order of the others.
    #[verifier::external_body]
    pub(crate) fn remove_in_order(&mut self, key: Mac)
        requires
            N <= MAX_TABLE_LEN,
            distinct_keys(old(self)@),
        ensures
            forall|i: int|
                0 <= i < old(self)@.len() && (#[trigger] old(self)@[i]).0 == key ==> final(self)@
                    == old(self)@.remove(i),
            !has_key(old(self)@, key) ==> final(self)@ == old(self)@,
    {
        self.raw.map.retain(|octets, _| differs(octets, key))
    }

    /// `IndexMap::clear` drops every entry.
    #[verifier::external_body]
    pub(crate) fn clear(&mut self)
        ensures
            final(self)@ == Seq::<(Mac, V)>::empty(),
    {
        self.raw.map.clear()
    }

    /// How many entries are held.
    pub fn len(&self) -> (n: usize)
        ensures
            n == self@.len(),
    {
        self.count()
    }

    /// Whether some entry has the key.
    pub fn contains_key(&self, key: &Mac) -> (found: bool)
        requires
            N <= MAX_TABLE_LEN,
        ensures
            found == has_key(self@, *key),
    {
        match self.index_of(*key) {
            Some(at) => {
                assert(self@[at as int].0 == *key);
                true
            },
            None => false,
        }
    }

    /// The value of the entry with the key, or `None` where no entry has it.
    pub fn get(&self, key: &Mac) -> (value: Option<&V>)
        requires
            N <= MAX_TABLE_LEN,
        ensures
            match value {
                Some(v) => exists|i: int|
                    0 <= i < self@.len() && #[trigger] self@[i] == (*key, *v),
                None => !has_key(self@, *key),
            },
    {
        match self.index_of(*key) {
            Some(at) => match self.entry_at(at) {
                Some((k, v)) => {
                    assert(self@[at as int] == (*key, *v));
                    Some(v)
                },
                None => None,
            },
            None => None,
        }
    }
}

/// Whether the six octets are not those of `key`.
fn differs(octets: &[u8; 6], key: Mac) -> (d: bool)
    ensures
        d == (octets@ != key.0@),
{
    let other = Mac(*octets);
    proof {
        if octets@ == key.0@ {
            crate::frame::same_octets(other, key);
        }
    }
    other != key
}

/// Taking an entry out in order keeps keys distinct.
pub proof fn removed_keeps_distinct<V>(s: Seq<(Mac, V)>, i: int)
    requires
        distinct_keys(s),
        0 <= i < s.len(),
    ensures
        distinct_keys(s.remove(i)),
{
    let t = s.remove(i);
    assert forall|a: int, b: int| 0 <= a < b < t.len() implies (#[trigger] t[a]).0 != (
    #[trigger] t[b]).0 by {
        let x = if a < i {
            a
        } else {
            a + 1
        };
        let y = if b < i {
            b
        } else {
            b + 1
        };
        assert(t[a] == s[x] && t[b] == s[y]);
    }
}

/// Taking an entry out by swapping keeps keys distinct.
pub proof fn swap_removed_keeps_distinct<V>(s: Seq<(Mac, V)>, i: int)
    requires
        distinct_keys(s),
        0 <= i < s.len(),
    ensures
        distinct_keys(swap_removed(s, i)),
        !has_key(swap_removed(s, i), s[i].0),
{
    let t = swap_removed(s, i);
    assert forall|a: int, b: int| 0 <= a < b < t.len() implies (#[trigger] t[a]).0 != (
    #[trigger] t[b]).0 by {
        let x = if a == i { s.len() - 1 } else { a };
        let y = if b == i { s.len() - 1 } else { b };
        assert(t[a] == s[x] && t[b] == s[y]);
        assert(x != y);
    }
    assert forall|a: int| 0 <= a < t.len() implies (#[trigger] t[a]).0 != s[i].0 by {
        let x = if a == i { s.len() - 1 } else { a };
        assert(t[a] == s[x]);
        assert(x != i);
    }
}

} // verus!
