//! Multicast membership: who listens to what, as OGMs announce it.

use vstd::prelude::*;

use crate::batman::engine::BatmanEngine;
use crate::batman::model::announced_groups;
use crate::batman::model::groups_of;
use crate::batman::model::joined;
use crate::batman::model::listed_groups;
use crate::batman::model::members_after;
use crate::batman::model::swept;
use crate::batman::model::EngineState;
use crate::batman::wire::find_tvlv;
use crate::batman::wire::TvlvType;
use crate::batman::wire::OGM_LEN;
use crate::bounded::swap_removed;
use crate::bounded::BoundedVec;
use crate::frame::Mac;

verus! {

/// Whether every group of `a` stands in `b`.
fn all_within(a: &[Mac], b: &[Mac]) -> (within: bool)
    ensures
        within == a@.to_set().subset_of(b@.to_set()),
{
    let n: usize = a.len();
    let m: usize = b.len();
    let mut i: usize = 0;
    while i < n
        invariant
            i <= n,
            n == a@.len(),
            m == b@.len(),
            forall|k: int| 0 <= k < i ==> b@.contains(#[trigger] a@[k]),
        decreases n - i,
    {
        let mut j: usize = 0;
        while j < m && b[j] != a[i]
            invariant
                i < n,
                n == a@.len(),
                j <= m,
                m == b@.len(),
                forall|k: int| 0 <= k < j ==> (#[trigger] b@[k]) != a@[i as int],
            decreases m - j,
        {
            j = j + 1;
        }
        if j == m {
            assert(a@.to_set().contains(a@[i as int]));
            assert(!b@.to_set().contains(a@[i as int]));
            return false;
        }
        assert(b@[j as int] == a@[i as int]);
        i = i + 1;
    }
    assert forall|g: Mac| a@.to_set().contains(g) implies b@.to_set().contains(g) by {
        let k = choose|k: int| 0 <= k < a@.len() && a@[k] == g;
        assert(b@.contains(a@[k]));
    }
    true
}

/// Whether two lists hold the same set of groups.
pub(crate) fn same_groups(a: &[Mac], b: &[Mac]) -> (same: bool)
    ensures
        same == (a@.to_set() == b@.to_set()),
{
    let same: bool = all_within(a, b) && all_within(b, a);
    assert(same ==> a@.to_set() =~= b@.to_set());
    same
}

/// Sweeping never adds a membership.
proof fn swept_no_more(members: Seq<(Mac, Mac)>, orig: Mac, i: int)
    ensures
        swept(members, orig, i).len() <= members.len(),
    decreases members.len() - i,
{
    if 0 <= i < members.len() {
        if members[i].1 == orig {
            swept_no_more(swap_removed(members, i), orig, i);
        } else {
            swept_no_more(members, orig, i + 1);
        }
    }
}

impl<
    const MAX_ORIGINATORS: usize,
    const MAX_INTERFACES: usize,
    const MAX_MCAST_MEMBERS: usize,
    const MAX_LOCAL_MCAST: usize,
> BatmanEngine<MAX_ORIGINATORS, MAX_INTERFACES, MAX_MCAST_MEMBERS, MAX_LOCAL_MCAST> {
    /// The groups `orig` is listed for, in table order.
    fn mcast_groups_for(&self, orig: Mac) -> (groups: BoundedVec<Mac, MAX_MCAST_MEMBERS>)
        requires
            self@.mcast_members.len() <= MAX_MCAST_MEMBERS,
        ensures
            groups@ == groups_of(self@.mcast_members, orig),
    {
        let members = self.mcast_members.items();
        let n: usize = members.len();
        let mut groups: BoundedVec<Mac, MAX_MCAST_MEMBERS> = BoundedVec::new();
        let mut i: usize = 0;
        while i < n
            invariant
                i <= n,
                n == members@.len(),
                n <= MAX_MCAST_MEMBERS,
                groups@.len() <= i,
                groups@ == groups_of(members@.take(i as int), orig),
            decreases n - i,
        {
            assert(members@.take(i as int + 1).drop_last() =~= members@.take(i as int));
            if members[i].1 == orig {
                let kept: bool = groups.push(members[i].0);
            }
            i = i + 1;
        }
        assert(members@.take(n as int) =~= members@);
        groups
    }

    /// Take every membership of `orig` out.
    fn sweep_memberships(&mut self, orig: Mac)
        ensures
            final(self)@ == (EngineState {
                mcast_members: swept(old(self)@.mcast_members, orig, 0),
                ..old(self)@
            }),
    {
        let mut i: usize = 0;
        while i < self.mcast_members.len()
            invariant
                i <= self.mcast_members@.len(),
                swept(self.mcast_members@, orig, i as int) == swept(
                    old(self)@.mcast_members,
                    orig,
                    0,
                ),
                self@ == (EngineState { mcast_members: self.mcast_members@, ..old(self)@ }),
            decreases self.mcast_members@.len() - i,
        {
            if self.mcast_members.items()[i].1 == orig {
                let _ = self.mcast_members.swap_remove(i);
            } else {
                i = i + 1;
            }
        }
    }

    /// List `orig` for each group of a multicast announcement, as far as there
    /// is room.
    fn join_groups(&mut self, orig: Mac, value: &[u8])
        requires
            old(self)@.mcast_members.len() <= MAX_MCAST_MEMBERS,
        ensures
            final(self)@ == (EngineState {
                mcast_members: joined(
                    old(self)@.mcast_members,
                    orig,
                    listed_groups(value@),
                    MAX_MCAST_MEMBERS as nat,
                ),
                ..old(self)@
            }),
    {
        let ghost before = self.mcast_members@;
        let ghost groups = listed_groups(value@);
        let len: usize = value.len();
        let n: usize = len / 6;
        let mut i: usize = 0;
        assert(before =~= before + groups.subrange(0, 0).map_values(|g: Mac| (g, orig)));
        while i < n && self.mcast_members.len() < MAX_MCAST_MEMBERS
            invariant
                i <= n,
                n == groups.len(),
                n == len / 6,
                len == value@.len(),
                groups == listed_groups(value@),
                before.len() + i <= MAX_MCAST_MEMBERS,
                self.mcast_members@ == before + groups.subrange(0, i as int).map_values(
                    |g: Mac| (g, orig),
                ),
                self@ == (EngineState { mcast_members: self.mcast_members@, ..old(self)@ }),
            decreases n - i,
        {
            let group = Mac::read(value, i * 6);
            assert(group == groups[i as int]);
            let kept: bool = self.mcast_members.push((group, orig));
            i = i + 1;
            assert(self.mcast_members@ =~= before + groups.subrange(0, i as int).map_values(
                |g: Mac| (g, orig),
            ));
        }
    }

    /// Replace `orig`'s memberships with the groups its OGM announces, and say
    /// whether the set of its groups changed.  An OGM that announces none drops them all.
    pub(crate) fn update_mcast_membership(&mut self, orig: Mac, payload: &[u8]) -> (changed: bool)
        requires
            old(self).wf(),
            payload@.len() >= OGM_LEN,
        ensures
            final(self).wf(),
            final(self)@ == (EngineState {
                mcast_members: members_after(
                    old(self)@.mcast_members,
                    orig,
                    payload@,
                    MAX_MCAST_MEMBERS as nat,
                ),
                ..old(self)@
            }),
            changed == (groups_of(old(self)@.mcast_members, orig).to_set() != groups_of(
                final(self)@.mcast_members,
                orig,
            ).to_set()),
    {
        let before = self.mcast_groups_for(orig);
        proof {
            swept_no_more(self@.mcast_members, orig, 0);
        }
        self.sweep_memberships(orig);
        let tail = &payload[OGM_LEN..payload.len()];
        match find_tvlv(tail, TvlvType::Mcast) {
            Some(value) => {
                self.join_groups(orig, value);
            },
            None => {
                proof {
                    let none = Seq::<Mac>::empty();
                    assert(none.subrange(0, 0).map_values(|g: Mac| (g, orig)) =~= Seq::empty());
                    assert(joined(
                        self@.mcast_members,
                        orig,
                        none,
                        MAX_MCAST_MEMBERS as nat,
                    ) =~= self@.mcast_members);
                }
            },
        }
        let after = self.mcast_groups_for(orig);
        !same_groups(before.items(), after.items())
    }
}

/// After an OGM of `orig`, the groups it is listed for are the ones the OGM
/// announces, as many as there was room for beside the memberships of the others,
/// and every other node is listed for the
/// groups it was listed for before, equally often.
pub proof fn announcement_replaces_memberships(
    members: Seq<(Mac, Mac)>,
    orig: Mac,
    other: Mac,
    payload: Seq<u8>,
    capacity: nat,
)
    requires
        payload.len() >= OGM_LEN,
        members.len() <= capacity,
        other != orig,
    ensures
        ({
            let groups = announced_groups(payload.subrange(OGM_LEN as int, payload.len() as int));
            let room = capacity - (members.len() - groups_of(members, orig).len());
            groups_of(members_after(members, orig, payload, capacity), orig) == groups.subrange(
                0,
                if groups.len() <= room {
                    groups.len() as int
                } else {
                    room
                },
            )
        }),
        groups_of(members_after(members, orig, payload, capacity), other).to_multiset()
            == groups_of(members, other).to_multiset(),
        members_after(members, orig, payload, capacity).len() <= capacity,
{
    let tail = payload.subrange(OGM_LEN as int, payload.len() as int);
    let groups = announced_groups(tail);
    let base = swept(members, orig, 0);
    swept_no_more(members, orig, 0);
    swept_is_clean(members, orig, 0);
    swept_takes_all(members, orig, 0);
    swept_keeps_others(members, orig, other, 0);
    let room = capacity - base.len();
    let n = if groups.len() <= room {
        groups.len() as int
    } else {
        room
    };
    let added = groups.subrange(0, n).map_values(|g: Mac| (g, orig));
    joined_groups(base, groups.subrange(0, n), orig, other);
    assert(groups_of(base, orig) + groups.subrange(0, n) =~= groups.subrange(0, n));
    assert(groups_of(members_after(members, orig, payload, capacity), orig) == groups.subrange(
        0,
        n,
    ));
}

/// Adding memberships of `orig` at the end adds its groups and nobody else's.
proof fn joined_groups(base: Seq<(Mac, Mac)>, groups: Seq<Mac>, orig: Mac, other: Mac)
    requires
        other != orig,
    ensures
        groups_of(base + groups.map_values(|g: Mac| (g, orig)), orig) == groups_of(base, orig)
            + groups,
        groups_of(base + groups.map_values(|g: Mac| (g, orig)), other) == groups_of(base, other),
    decreases groups.len(),
{
    let added = groups.map_values(|g: Mac| (g, orig));
    if groups.len() == 0 {
        assert(base + added =~= base);
        assert(groups_of(base, orig) + groups =~= groups_of(base, orig));
    } else {
        let fewer = groups.drop_last();
        joined_groups(base, fewer, orig, other);
        assert((base + added).drop_last() =~= base + fewer.map_values(|g: Mac| (g, orig)));
        assert((base + added).last() == (groups.last(), orig));
        assert((groups_of(base, orig) + fewer).push(groups.last()) =~= groups_of(base, orig)
            + groups);
    }
}

/// A swept list holds no membership of `orig` from the start of the sweep on.
proof fn swept_is_clean(members: Seq<(Mac, Mac)>, orig: Mac, i: int)
    requires
        0 <= i <= members.len(),
        forall|j: int| 0 <= j < i ==> (#[trigger] members[j]).1 != orig,
    ensures
        groups_of(swept(members, orig, i), orig) == Seq::<Mac>::empty(),
    decreases members.len() - i,
{
    if i < members.len() {
        if members[i].1 == orig {
            swept_is_clean(swap_removed(members, i), orig, i);
        } else {
            swept_is_clean(members, orig, i + 1);
        }
    } else {
        no_groups(members, orig);
    }
}

/// A sweep takes out as many memberships as `orig` has groups.
proof fn swept_takes_all(members: Seq<(Mac, Mac)>, orig: Mac, i: int)
    requires
        0 <= i <= members.len(),
        forall|j: int| 0 <= j < i ==> (#[trigger] members[j]).1 != orig,
    ensures
        swept(members, orig, i).len() == members.len() - groups_of(members, orig).len(),
    decreases members.len() - i,
{
    if i < members.len() {
        if members[i].1 == orig {
            swap_takes_one(members, orig, i);
            swept_takes_all(swap_removed(members, i), orig, i);
        } else {
            swept_takes_all(members, orig, i + 1);
        }
    } else {
        no_groups(members, orig);
    }
}

/// Taking out one membership of a node by swapping takes one of its groups.
proof fn swap_takes_one(members: Seq<(Mac, Mac)>, node: Mac, i: int)
    requires
        0 <= i < members.len(),
        members[i].1 == node,
    ensures
        groups_of(swap_removed(members, i), node).len() == groups_of(members, node).len() - 1,
{
    let n = members.len() as int;
    let front = members.subrange(0, i);
    let gone = seq![members[i]];
    assert(gone.drop_last() =~= Seq::<(Mac, Mac)>::empty());
    assert(groups_of(gone.drop_last(), node).len() == 0);
    assert(groups_of(gone, node).len() == 1);
    groups_of_concat(front, gone, node);
    if i == n - 1 {
        assert(swap_removed(members, i) =~= front);
        assert(members =~= front + gone);
    } else {
        let middle = members.subrange(i + 1, n - 1);
        let last = seq![members[n - 1]];
        assert(members =~= front + gone + middle + last);
        assert(swap_removed(members, i) =~= front + last + middle);
        groups_of_concat(front + gone, middle, node);
        groups_of_concat(front + gone + middle, last, node);
        groups_of_concat(front, last, node);
        groups_of_concat(front + last, middle, node);
    }
}

/// A node listed nowhere is listed for no group.
proof fn no_groups(members: Seq<(Mac, Mac)>, orig: Mac)
    requires
        forall|j: int| 0 <= j < members.len() ==> (#[trigger] members[j]).1 != orig,
    ensures
        groups_of(members, orig) == Seq::<Mac>::empty(),
    decreases members.len(),
{
    if members.len() > 0 {
        assert(members.last() == members[members.len() - 1]);
        assert forall|j: int| 0 <= j < members.drop_last().len() implies (
        #[trigger] members.drop_last()[j]).1 != orig by {
            assert(members.drop_last()[j] == members[j]);
        }
        no_groups(members.drop_last(), orig);
    }
}

/// Sweeping `orig` leaves the groups of every other node as they were.
proof fn swept_keeps_others(members: Seq<(Mac, Mac)>, orig: Mac, other: Mac, i: int)
    requires
        0 <= i <= members.len(),
        other != orig,
    ensures
        groups_of(swept(members, orig, i), other).to_multiset() == groups_of(
            members,
            other,
        ).to_multiset(),
    decreases members.len() - i,
{
    if i < members.len() {
        if members[i].1 == orig {
            swap_keeps_others(members, other, i);
            swept_keeps_others(swap_removed(members, i), orig, other, i);
        } else {
            swept_keeps_others(members, orig, other, i + 1);
        }
    }
}

/// The groups of a concatenation are the groups of its parts.
proof fn groups_of_concat(a: Seq<(Mac, Mac)>, b: Seq<(Mac, Mac)>, node: Mac)
    ensures
        groups_of(a + b, node) == groups_of(a, node) + groups_of(b, node),
    decreases b.len(),
{
    if b.len() == 0 {
        assert(a + b =~= a);
        assert(groups_of(a, node) + groups_of(b, node) =~= groups_of(a, node));
    } else {
        groups_of_concat(a, b.drop_last(), node);
        assert((a + b).drop_last() =~= a + b.drop_last());
        assert((a + b).last() == b.last());
        if b.last().1 == node {
            assert((groups_of(a, node) + groups_of(b.drop_last(), node)).push(b.last().0)
                =~= groups_of(a, node) + groups_of(b, node));
        }
    }
}

/// Taking out one membership of another node by swapping keeps a node's groups.
proof fn swap_keeps_others(members: Seq<(Mac, Mac)>, node: Mac, i: int)
    requires
        0 <= i < members.len(),
        members[i].1 != node,
    ensures
        groups_of(swap_removed(members, i), node).to_multiset() == groups_of(
            members,
            node,
        ).to_multiset(),
{
    broadcast use vstd::seq_lib::group_to_multiset_ensures;

    let n = members.len() as int;
    let front = members.subrange(0, i);
    let gone = seq![members[i]];
    assert(groups_of(gone, node) =~= Seq::<Mac>::empty()) by {
        no_groups(gone, node);
    }
    if i == n - 1 {
        assert(swap_removed(members, i) =~= front);
        assert(members =~= front + gone);
        groups_of_concat(front, gone, node);
        assert(groups_of(front, node) + Seq::<Mac>::empty() =~= groups_of(front, node));
    } else {
        let middle = members.subrange(i + 1, n - 1);
        let last = seq![members[n - 1]];
        assert(members =~= front + gone + middle + last);
        assert(swap_removed(members, i) =~= front + last + middle);
        groups_of_concat(front, gone, node);
        groups_of_concat(front + gone, middle, node);
        groups_of_concat(front + gone + middle, last, node);
        groups_of_concat(front, last, node);
        groups_of_concat(front + last, middle, node);
        let f = groups_of(front, node);
        let m = groups_of(middle, node);
        let l = groups_of(last, node);
        assert(f + Seq::<Mac>::empty() =~= f);
        vstd::seq_lib::lemma_multiset_commutative(f + m, l);
        vstd::seq_lib::lemma_multiset_commutative(f, m);
        vstd::seq_lib::lemma_multiset_commutative(f + l, m);
        vstd::seq_lib::lemma_multiset_commutative(f, l);
        assert((f + m + l).to_multiset() =~= (f + l + m).to_multiset());
    }
}

} // verus!
