//! Sets of mesh interfaces.

use vstd::prelude::*;

verus! {

/// A set of mesh interfaces, as a bitmask.
#[derive(Debug, Clone, Copy, PartialEq, Eq, Structural)]
pub struct InterfaceSet(u32);

impl Default for InterfaceSet {
    fn default() -> (s: InterfaceSet)
        ensures
            forall|i: int| !#[trigger] s.has(i),
    {
        let s = InterfaceSet(0);
        assert forall|i: int| !#[trigger] s.has(i) by {
            if 0 <= i < 32 {
                let k = i as u32;
                assert((0u32 >> k) & 1 == 0) by (bit_vector);
            }
        }
        s
    }
}

impl InterfaceSet {
    /// The number of interfaces a set can hold.
    pub const CAPACITY: usize = 32;

    /// Whether an interface is in the set.
    pub closed spec fn has(self, i: int) -> bool {
        0 <= i < 32 && (self.0 >> (i as u32)) & 1 == 1
    }

    /// Only interfaces below the capacity are in a set.
    pub proof fn within_capacity(self, i: int)
        requires
            self.has(i),
        ensures
            0 <= i < InterfaceSet::CAPACITY,
    {
    }

    /// Add an interface; one past the capacity is ignored.
    pub fn insert(&mut self, idx: usize)
        ensures
            forall|i: int| #[trigger]
                final(self).has(i) == (old(self).has(i) || (i == idx && idx
                    < InterfaceSet::CAPACITY)),
    {
        if idx < 32 {
            let shift: u32 = idx as u32;
            let before: u32 = self.0;
            self.0 = before | (1u32 << shift);
            let after: u32 = self.0;
            assert forall|i: int| #[trigger] self.has(i) == (old(self).has(i) || i == idx) by {
                if 0 <= i < 32 {
                    let k = i as u32;
                    assert((after >> k) & 1 == (if k == shift {
                        1
                    } else {
                        (before >> k) & 1
                    })) by (bit_vector)
                        requires
                            after == before | (1u32 << shift),
                            shift < 32,
                            k < 32,
                    ;
                }
            }
        }
    }

    /// Whether an interface is in the set.
    pub fn contains(self, idx: usize) -> (b: bool)
        ensures
            b == self.has(idx as int),
    {
        idx < 32 && (self.0 >> (idx as u32)) & 1 == 1
    }

    /// Whether the set is empty.
    pub fn is_empty(self) -> (b: bool)
        ensures
            b == forall|i: int| !#[trigger] self.has(i),
    {
        let bits: u32 = self.0;
        proof {
            if bits == 0 {
                assert forall|i: int| !#[trigger] self.has(i) by {
                    if 0 <= i < 32 {
                        let k = i as u32;
                        assert((0u32 >> k) & 1 == 0) by (bit_vector);
                    }
                }
            } else if forall|i: int| !#[trigger] self.has(i) {
                assert forall|k: u32| k < 32 implies #[trigger] ((bits >> k) & 1) == 0 by {
                    assert(!self.has(k as int));
                    assert((bits >> k) & 1 == 0 || (bits >> k) & 1 == 1) by (bit_vector);
                }
                assert(bits == 0) by (bit_vector)
                    requires
                        (bits >> 0u32) & 1 == 0,
                        (bits >> 1u32) & 1 == 0,
                        (bits >> 2u32) & 1 == 0,
                        (bits >> 3u32) & 1 == 0,
                        (bits >> 4u32) & 1 == 0,
                        (bits >> 5u32) & 1 == 0,
                        (bits >> 6u32) & 1 == 0,
                        (bits >> 7u32) & 1 == 0,
                        (bits >> 8u32) & 1 == 0,
                        (bits >> 9u32) & 1 == 0,
                        (bits >> 10u32) & 1 == 0,
                        (bits >> 11u32) & 1 == 0,
                        (bits >> 12u32) & 1 == 0,
                        (bits >> 13u32) & 1 == 0,
                        (bits >> 14u32) & 1 == 0,
                        (bits >> 15u32) & 1 == 0,
                        (bits >> 16u32) & 1 == 0,
                        (bits >> 17u32) & 1 == 0,
                        (bits >> 18u32) & 1 == 0,
                        (bits >> 19u32) & 1 == 0,
                        (bits >> 20u32) & 1 == 0,
                        (bits >> 21u32) & 1 == 0,
                        (bits >> 22u32) & 1 == 0,
                        (bits >> 23u32) & 1 == 0,
                        (bits >> 24u32) & 1 == 0,
                        (bits >> 25u32) & 1 == 0,
                        (bits >> 26u32) & 1 == 0,
                        (bits >> 27u32) & 1 == 0,
                        (bits >> 28u32) & 1 == 0,
                        (bits >> 29u32) & 1 == 0,
                        (bits >> 30u32) & 1 == 0,
                        (bits >> 31u32) & 1 == 0,
                ;
            }
        }
        bits == 0
    }

    /// The interfaces in the set, ascending.
    pub fn iter(self) -> (members: Vec<usize>)
        ensures
            forall|i: int, j: int|
                0 <= i < j < members@.len() ==> #[trigger] members@[i] < #[trigger] members@[j],
            forall|k: int| 0 <= k < members@.len() ==> self.has(#[trigger] members@[k] as int),
            forall|i: int|
                #[trigger] self.has(i) ==> exists|k: int|
                    0 <= k < members@.len() && #[trigger] members@[k] == i,
    {
        let mut members: Vec<usize> = Vec::new();
        let mut idx: usize = 0;
        while idx < 32
            invariant
                idx <= 32,
                forall|i: int, j: int|
                    0 <= i < j < members@.len() ==> #[trigger] members@[i]
                        < #[trigger] members@[j],
                forall|k: int|
                    0 <= k < members@.len() ==> self.has(#[trigger] members@[k] as int)
                        && members@[k] < idx,
                forall|i: int|
                    i < idx && #[trigger] self.has(i) ==> exists|k: int|
                        0 <= k < members@.len() && #[trigger] members@[k] == i,
            decreases 32 - idx,
        {
            let ghost before = members@;
            if self.contains(idx) {
                members.push(idx);
            }
            proof {
                assert forall|i: int| i < idx + 1 && #[trigger] self.has(i) implies exists|k: int|
                    0 <= k < members@.len() && #[trigger] members@[k] == i by {
                    if i < idx {
                        let k = choose|k: int|
                            0 <= k < before.len() && #[trigger] before[k] == i;
                        assert(members@[k] == i);
                    } else {
                        assert(members@[before.len() as int] == idx);
                    }
                }
            }
            idx = idx + 1;
        }
        members
    }
}

} // verus!
