//! Ageing: dropping routes that have gone quiet or been revoked.

use vstd::prelude::*;

use crate::batman::engine::routes_follow;
use crate::batman::engine::routes_of;
use crate::batman::engine::table_keys_distinct;
use crate::batman::engine::BatmanEngine;
use crate::batman::model::all_pruned;
use crate::batman::model::all_restarted;
use crate::batman::model::altered;
use crate::batman::model::backed;
use crate::batman::model::best_live_path_is_best;
use crate::batman::model::choosing_backs_route;
use crate::batman::model::distinct_neighbors;
use crate::batman::model::highest_path;
use crate::batman::model::involves;
use crate::batman::model::live_hop;
use crate::batman::model::live_paths;
use crate::batman::model::mentioned;
use crate::batman::model::paths_avoiding;
use crate::batman::model::paths_outside;
use crate::batman::model::place;
use crate::batman::model::place_is;
use crate::batman::model::pruned;
use crate::batman::model::purged;
use crate::batman::model::reachable;
use crate::batman::model::rechosen;
use crate::batman::model::repicked;
use crate::batman::model::revoked_state;
use crate::batman::model::routes_without;
use crate::batman::model::routes_without_all;
use crate::batman::model::settled;
use crate::batman::model::some_altered;
use crate::batman::model::sound_route;
use crate::batman::model::Capacities;
use crate::batman::model::EngineState;
use crate::batman::tables::ogm_seed;
use crate::batman::tables::path_is_stale;
use crate::batman::tables::path_stale;
use crate::batman::tables::NeighborStats;
use crate::batman::tables::OriginatorRecord;
use crate::batman::tables::Route;
use crate::batman::trickle::TrickleTimer;
use crate::bounded::distinct_keys;
use crate::bounded::has_key;
use crate::bounded::removed_keeps_distinct;
use crate::bounded::BoundedVec;
use crate::bounded::MAX_TABLE_LEN;
use crate::frame::Mac;
use crate::time::Duration;

verus! {

/// Keep only the paths that are not stale.
fn retain_live(paths: &mut BoundedVec<NeighborStats, 4>, now: Duration, seed: Duration)
    ensures
        final(paths)@ == live_paths(old(paths)@, now, seed),
{
    let ghost before = paths@;
    let ghost mut done: int = 0;
    let mut i: usize = 0;
    assert(live_paths(before.take(0), now, seed) + before.skip(0) =~= before);
    while i < paths.len()
        invariant
            0 <= done <= before.len(),
            i == live_paths(before.take(done), now, seed).len(),
            paths@ == live_paths(before.take(done), now, seed) + before.skip(done),
        decreases before.len() - done,
    {
        let ghost kept = live_paths(before.take(done), now, seed);
        assert(paths@[i as int] == before[done]);
        assert(before.take(done + 1).drop_last() =~= before.take(done));
        assert(before.take(done + 1).last() == before[done]);
        assert(before.skip(done).drop_first() =~= before.skip(done + 1));
        if path_stale(now, &paths.items()[i], seed) {
            let _ = paths.remove(i);
            assert(paths@ =~= kept + before.skip(done + 1));
        } else {
            i = i + 1;
            assert(paths@ =~= kept.push(before[done]) + before.skip(done + 1));
        }
        proof {
            done = done + 1;
        }
    }
    assert(before.take(done) =~= before);
    assert(paths@ =~= live_paths(before, now, seed));
}

/// Keep only the paths not via `neighbor`.
fn retain_avoiding(paths: &mut BoundedVec<NeighborStats, 4>, neighbor: Mac)
    ensures
        final(paths)@ == paths_avoiding(old(paths)@, neighbor),
{
    let ghost before = paths@;
    let ghost mut done: int = 0;
    let mut i: usize = 0;
    assert(paths_avoiding(before.take(0), neighbor) + before.skip(0) =~= before);
    while i < paths.len()
        invariant
            0 <= done <= before.len(),
            i == paths_avoiding(before.take(done), neighbor).len(),
            paths@ == paths_avoiding(before.take(done), neighbor) + before.skip(done),
        decreases before.len() - done,
    {
        let ghost kept = paths_avoiding(before.take(done), neighbor);
        assert(paths@[i as int] == before[done]);
        assert(before.take(done + 1).drop_last() =~= before.take(done));
        assert(before.take(done + 1).last() == before[done]);
        assert(before.skip(done).drop_first() =~= before.skip(done + 1));
        if paths.items()[i].neighbor_ident == neighbor {
            let _ = paths.remove(i);
            assert(paths@ =~= kept + before.skip(done + 1));
        } else {
            i = i + 1;
            assert(paths@ =~= kept.push(before[done]) + before.skip(done + 1));
        }
        proof {
            done = done + 1;
        }
    }
    assert(before.take(done) =~= before);
    assert(paths@ =~= paths_avoiding(before, neighbor));
}

/// The place of the path of highest quality, the last of several.
fn highest(paths: &BoundedVec<NeighborStats, 4>) -> (best: usize)
    requires
        paths@.len() > 0,
    ensures
        best < paths@.len(),
        best == highest_path(paths@),
{
    let n: usize = paths.len();
    let mut best: usize = 0;
    let mut i: usize = 1;
    while i < n
        invariant
            1 <= i <= n,
            n == paths@.len(),
            best < i,
            best == highest_path(paths@.take(i as int)),
        decreases n - i,
    {
        assert(paths@.take(i as int + 1).drop_last() =~= paths@.take(i as int));
        if paths.items()[i].last_tq >= paths.items()[best].last_tq {
            best = i;
        }
        i = i + 1;
    }
    assert(paths@.take(n as int) =~= paths@);
    best
}

/// Take a record's cached next hop from its path of highest quality, the last of
/// several.  A record without paths stays as it is.
fn recompute_best(record: &mut OriginatorRecord)
    ensures
        final(record)@ == repicked(old(record)@),
{
    if record.paths.len() == 0 {
        return;
    }
    let best: usize = highest(&record.paths);
    let chosen: NeighborStats = record.paths.items()[best];
    record.max_tq = chosen.last_tq;
    record.best_next_hop = chosen.neighbor_ident;
}

/// Choose a record's next hop again over its paths, keeping the incumbent while
/// no path is strictly better than its own.  A record without paths stays as it
/// is.
pub(crate) fn choose_best(record: &mut OriginatorRecord)
    ensures
        final(record)@ == rechosen(old(record)@),
{
    let n: usize = record.paths.len();
    if n == 0 {
        return;
    }
    let best: usize = highest(&record.paths);
    let chosen: NeighborStats = record.paths.items()[best];
    let incumbent: Mac = record.best_next_hop;
    record.max_tq = chosen.last_tq;
    let mut i: usize = 0;
    while i < n
        invariant
            i <= n,
            n == record.paths@.len(),
            record@ == (Route { max_tq: chosen.last_tq, ..old(record)@ }),
            incumbent == old(record)@.best_next_hop,
            n > 0,
            chosen == record.paths@[highest_path(record.paths@)],
            forall|j: int|
                0 <= j < i ==> (#[trigger] record.paths@[j]).neighbor_ident != incumbent
                    || record.paths@[j].last_tq != chosen.last_tq,
        decreases n - i,
    {
        let path: NeighborStats = record.paths.items()[i];
        if path.neighbor_ident == incumbent && path.last_tq == chosen.last_tq {
            assert(record.paths@[i as int] == path);
            return;
        }
        i = i + 1;
    }
    record.best_next_hop = chosen.neighbor_ident;
}

/// Whether some path goes via `neighbor`.
pub(crate) open spec fn goes_via(paths: Seq<NeighborStats>, neighbor: Mac) -> bool {
    exists|i: int| 0 <= i < paths.len() && (#[trigger] paths[i]).neighbor_ident == neighbor
}

/// Keeping some of the paths that came before, and perhaps the last, keeps the
/// neighbors distinct and adds none.
proof fn subset_keeps_distinct(
    paths: Seq<NeighborStats>,
    front: Seq<NeighborStats>,
    kept: Seq<NeighborStats>,
)
    requires
        paths.len() > 0,
        kept == front || kept == front.push(paths.last()),
        distinct_neighbors(paths.drop_last()) ==> distinct_neighbors(front),
        forall|n: Mac| goes_via(front, n) ==> #[trigger] goes_via(paths.drop_last(), n),
    ensures
        distinct_neighbors(paths) ==> distinct_neighbors(kept),
        forall|n: Mac| goes_via(kept, n) ==> #[trigger] goes_via(paths, n),
{
    let t = paths.drop_last();
    assert forall|n: Mac| goes_via(t, n) implies goes_via(paths, n) by {
        let i = choose|i: int| 0 <= i < t.len() && (#[trigger] t[i]).neighbor_ident == n;
        assert(paths[i].neighbor_ident == n);
    }
    assert(goes_via(paths, paths.last().neighbor_ident)) by {
        assert(paths[paths.len() - 1].neighbor_ident == paths.last().neighbor_ident);
    }
    assert forall|n: Mac| goes_via(kept, n) implies #[trigger] goes_via(paths, n) by {
        let i = choose|i: int| 0 <= i < kept.len() && (#[trigger] kept[i]).neighbor_ident == n;
        if i < front.len() {
            assert(front[i].neighbor_ident == n);
            assert(goes_via(front, n));
            assert(goes_via(t, n));
        }
    }
    if distinct_neighbors(paths) {
        assert forall|i: int, j: int| 0 <= i < j < t.len() implies (
        #[trigger] t[i]).neighbor_ident != (#[trigger] t[j]).neighbor_ident by {
            assert(paths[i].neighbor_ident != paths[j].neighbor_ident);
        }
        assert forall|i: int, j: int| 0 <= i < j < kept.len() implies (
        #[trigger] kept[i]).neighbor_ident != (#[trigger] kept[j]).neighbor_ident by {
            assert(kept[i] == front[i]);
            if j < front.len() {
                assert(kept[j] == front[j]);
            } else {
                let n = front[i].neighbor_ident;
                assert(goes_via(front, n));
                assert(goes_via(t, n));
                let k = choose|k: int| 0 <= k < t.len() && (#[trigger] t[k]).neighbor_ident == n;
                assert(paths[k].neighbor_ident != paths[paths.len() - 1].neighbor_ident);
            }
        }
    }
}

/// Pruning never adds a path and keeps the neighbors distinct.
pub(crate) proof fn live_paths_no_more(paths: Seq<NeighborStats>, now: Duration, seed: Duration)
    ensures
        live_paths(paths, now, seed).len() <= paths.len(),
        distinct_neighbors(paths) ==> distinct_neighbors(live_paths(paths, now, seed)),
        forall|n: Mac| goes_via(live_paths(paths, now, seed), n) ==> #[trigger] goes_via(paths, n),
    decreases paths.len(),
{
    if paths.len() > 0 {
        let t = paths.drop_last();
        live_paths_no_more(t, now, seed);
        subset_keeps_distinct(paths, live_paths(t, now, seed), live_paths(paths, now, seed));
    }
}

/// Avoiding a neighbor never adds a path and keeps the neighbors distinct.
proof fn paths_avoiding_no_more(paths: Seq<NeighborStats>, neighbor: Mac)
    ensures
        paths_avoiding(paths, neighbor).len() <= paths.len(),
        distinct_neighbors(paths) ==> distinct_neighbors(paths_avoiding(paths, neighbor)),
        forall|n: Mac|
            goes_via(paths_avoiding(paths, neighbor), n) ==> #[trigger] goes_via(paths, n),
    decreases paths.len(),
{
    if paths.len() > 0 {
        let t = paths.drop_last();
        paths_avoiding_no_more(t, neighbor);
        subset_keeps_distinct(
            paths,
            paths_avoiding(t, neighbor),
            paths_avoiding(paths, neighbor),
        );
    }
}

/// Paths that all avoid a neighbor already stay as they are.
proof fn avoiding_unchanged(paths: Seq<NeighborStats>, neighbor: Mac)
    requires
        forall|j: int|
            0 <= j < paths.len() ==> (#[trigger] paths[j]).neighbor_ident != neighbor,
    ensures
        paths_avoiding(paths, neighbor) == paths,
    decreases paths.len(),
{
    if paths.len() > 0 {
        let t = paths.drop_last();
        assert forall|j: int| 0 <= j < t.len() implies (#[trigger] t[j]).neighbor_ident
            != neighbor by {
            assert(t[j] == paths[j]);
        }
        avoiding_unchanged(t, neighbor);
        assert(t.push(paths.last()) =~= paths);
    }
}

/// Revoking a node that no route mentions changes no route.
pub(crate) proof fn unmentioned_unchanged(routes: Seq<(Mac, Route)>, node: Mac)
    requires
        !mentioned(routes, node),
        forall|i: int| 0 <= i < routes.len() ==> sound_route(#[trigger] routes[i]),
    ensures
        routes_without(routes, node) == routes,
{
    let left = routes_without(routes, node);
    assert forall|i: int| 0 <= i < routes.len() implies (#[trigger] routes[i]).0 != node by {
        assert(!involves(routes[i], node));
    }
    assert(!has_key(routes, node));
    assert forall|i: int| 0 <= i < routes.len() implies #[trigger] left[i] == routes[i] by {
        assert(!involves(routes[i], node));
        avoiding_unchanged(routes[i].1.paths, node);
        assert(sound_route(routes[i]));
        choosing_backs_route(routes[i].1);
    }
    assert(left =~= routes);
}

/// The reachable routes of a sound table are sound.
pub(crate) proof fn reachable_keeps_sound(routes: Seq<(Mac, Route)>)
    requires
        distinct_keys(routes),
    ensures
        reachable(routes).len() <= routes.len(),
        distinct_keys(reachable(routes)),
        forall|i: int|
            0 <= i < reachable(routes).len() ==> exists|j: int|
                0 <= j < routes.len() && (#[trigger] reachable(routes)[i]) == #[trigger] routes[j],
    decreases routes.len(),
{
    if routes.len() > 0 {
        let t = routes.drop_last();
        assert forall|i: int, j: int| 0 <= i < j < t.len() implies (#[trigger] t[i]).0 != (
        #[trigger] t[j]).0 by {
            assert(t[i] == routes[i] && t[j] == routes[j]);
        }
        reachable_keeps_sound(t);
        let kept = reachable(t);
        let whole = reachable(routes);
        assert forall|i: int| 0 <= i < whole.len() implies exists|j: int|
            0 <= j < routes.len() && (#[trigger] whole[i]) == #[trigger] routes[j] by {
            if i < kept.len() {
                assert(whole[i] == kept[i]);
                let j = choose|j: int| 0 <= j < t.len() && kept[i] == #[trigger] t[j];
                assert(t[j] == routes[j]);
            } else {
                assert(whole[i] == routes[routes.len() - 1]);
            }
        }
        assert forall|a: int, b: int| 0 <= a < b < whole.len() implies (#[trigger] whole[a]).0
            != (#[trigger] whole[b]).0 by {
            if b < kept.len() {
                assert(whole[a] == kept[a] && whole[b] == kept[b]);
            } else {
                assert(whole[a] == kept[a]);
                assert(whole[b] == routes[routes.len() - 1]);
                let j = choose|j: int| 0 <= j < t.len() && kept[a] == #[trigger] t[j];
                assert(t[j] == routes[j]);
            }
        }
    }
}

impl<
    const MAX_ORIGINATORS: usize,
    const MAX_INTERFACES: usize,
    const MAX_MCAST_MEMBERS: usize,
    const MAX_LOCAL_MCAST: usize,
> BatmanEngine<MAX_ORIGINATORS, MAX_INTERFACES, MAX_MCAST_MEMBERS, MAX_LOCAL_MCAST> {
    /// Drop every originator that has no path, keeping the order of the others.
    fn drop_unreachable(&mut self)
        requires
            MAX_ORIGINATORS <= MAX_TABLE_LEN,
            distinct_keys(old(self)@.routes),
        ensures
            final(self)@ == (EngineState { routes: reachable(old(self)@.routes), ..old(self)@ }),
    {
        let ghost all = self@.routes;
        let ghost mut done: int = 0;
        let mut i: usize = 0;
        assert(reachable(all.take(0)) + all.skip(0) =~= all);
        while i < self.originator_table.len()
            invariant
                MAX_ORIGINATORS <= MAX_TABLE_LEN,
                distinct_keys(self@.routes),
                all == old(self)@.routes,
                0 <= done <= all.len(),
                i == reachable(all.take(done)).len(),
                self@.routes == reachable(all.take(done)) + all.skip(done),
                self@ == (EngineState { routes: self@.routes, ..old(self)@ }),
            decreases all.len() - done,
        {
            let ghost kept = reachable(all.take(done));
            let ghost table = self.originator_table@;
            assert(self@.routes[i as int] == all[done]);
            assert(all.take(done + 1).drop_last() =~= all.take(done));
            assert(all.take(done + 1).last() == all[done]);
            assert(all.skip(done).drop_first() =~= all.skip(done + 1));
            if let Some((key, record)) = self.originator_table.entry_at(i) {
                if record.paths.len() == 0 {
                    proof {
                        table_keys_distinct(table);
                        removed_keeps_distinct(self@.routes, i as int);
                    }
                    self.originator_table.remove_in_order(key);
                    assert(table[i as int].0 == key);
                    assert(self.originator_table@ == table.remove(i as int));
                    proof {
                        routes_follow(table);
                    }
                    assert(self@.routes =~= kept + all.skip(done + 1));
                } else {
                    i = i + 1;
                    assert(self@.routes =~= kept.push(all[done]) + all.skip(done + 1));
                }
            }
            proof {
                done = done + 1;
            }
        }
        assert(all.take(done) =~= all);
        assert(self@.routes =~= reachable(all));
    }

    /// Drop every path not refreshed for too long as of `now`, choose the cached
    /// next hops again, and drop every originator left with no live path.
    /// Dropping anything, or changing a next hop, latches a topology change.
    pub fn purge_stale(&mut self, now: Duration)
        requires
            old(self).wf(),
        ensures
            final(self).wf(),
            final(self)@ == purged(old(self)@, now),
    {
        let seed = self.seed_interval();
        let before: usize = self.originator_table.len();
        let ghost routes = self@.routes;
        let mut changed: bool = false;
        let mut i: usize = 0;
        while i < before
            invariant
                i <= before,
                before == routes.len(),
                routes == old(self)@.routes,
                old(self).wf(),
                seed == ogm_seed(old(self)@.ogm_timers),
                self.originator_table@.len() == before,
                self@ == (EngineState { routes: self@.routes, ..old(self)@ }),
                forall|j: int|
                    0 <= j < i ==> (#[trigger] self@.routes[j]) == (
                        routes[j].0,
                        pruned(routes[j].1, now, seed),
                    ),
                forall|j: int| i <= j < before ==> (#[trigger] self@.routes[j]) == routes[j],
                changed == some_altered(routes.take(i as int), now, seed),
            decreases before - i,
        {
            let ghost table = self.originator_table@;
            assert(self@.routes[i as int] == routes[i as int]);
            let record = self.originator_table.value_at_mut(i);
            let paths_before: usize = record.paths.len();
            let hop_before: Mac = record.best_next_hop;
            retain_live(&mut record.paths, now, seed);
            recompute_best(record);
            let differs: bool = record.paths.len() != paths_before || record.best_next_hop
                != hop_before;
            assert(record@ == pruned(routes[i as int].1, now, seed));
            proof {
                assert(routes.take(i as int + 1).drop_last() =~= routes.take(i as int));
                let longer = routes.take(i as int + 1);
                let shorter = routes.take(i as int);
                assert(longer[i as int] == routes[i as int]);
                if some_altered(shorter, now, seed) {
                    let w = choose|w: int|
                        0 <= w < shorter.len() && altered((#[trigger] shorter[w]).1, now, seed);
                    assert(longer[w] == shorter[w]);
                }
                if some_altered(longer, now, seed) {
                    let w = choose|w: int|
                        0 <= w < longer.len() && altered((#[trigger] longer[w]).1, now, seed);
                    if w < i {
                        assert(longer[w] == shorter[w]);
                    }
                }
            }
            changed = changed || differs;
            proof {
                routes_follow(table);
                assert(self@.routes == routes_of(table).update(
                    i as int,
                    (routes[i as int].0, pruned(routes[i as int].1, now, seed)),
                ));
            }
            i = i + 1;
        }
        assert(routes.take(before as int) =~= routes);
        let ghost all = all_pruned(routes, now, seed);
        assert(self@.routes =~= all);
        proof {
            assert forall|a: int, b: int| 0 <= a < b < all.len() implies (#[trigger] all[a]).0 != (
            #[trigger] all[b]).0 by {
                assert(routes[a].0 != routes[b].0);
            }
            reachable_keeps_sound(all);
        }
        self.drop_unreachable();
        if self.originator_table.len() != before || changed {
            self.topology_changed = true;
        }
        proof {
            let left = reachable(all);
            assert forall|i: int| 0 <= i < left.len() implies sound_route(
                #[trigger] left[i],
            ) by {
                let j = choose|j: int| 0 <= j < all.len() && left[i] == #[trigger] all[j];
                let paths = live_paths(routes[j].1.paths, now, seed);
                live_paths_no_more(routes[j].1.paths, now, seed);
                choosing_backs_route(Route { paths, ..routes[j].1 });
                assert(sound_route(routes[j]));
            }
            assert(self@ =~= purged(old(self)@, now));
        }
    }

    /// Revoke each of the nodes: its own route goes, and so does every path
    /// through it.  The next hops are chosen again, and dropping anything latches a
    /// topology change.
    pub fn revoke_originators(&mut self, revoked: &[Mac])
        requires
            old(self).wf(),
        ensures
            final(self).wf(),
            final(self)@ == revoked_state(old(self)@, revoked@),
    {
        let ghost routes = self@.routes;
        let n: usize = revoked.len();
        let mut dropped: bool = false;
        let mut i: usize = 0;
        assert(self@ =~= (EngineState {
            routes: routes_without_all(routes, revoked@.take(0)),
            ..old(self)@
        }));
        while i < n
            invariant
                i <= n,
                n == revoked@.len(),
                routes == old(self)@.routes,
                self.wf(),
                self@ == (EngineState {
                    routes: routes_without_all(routes, revoked@.take(i as int)),
                    ..old(self)@
                }),
                dropped == exists|k: int|
                    0 <= k < i && mentioned(routes, #[trigger] revoked@[k]),
                !dropped ==> self@.routes == routes,
            decreases n - i,
        {
            assert(revoked@.take(i as int + 1).drop_last() =~= revoked@.take(i as int));
            let node: Mac = revoked[i];
            if self.mentions(node) {
                self.revoke_one(node);
                assert(dropped || mentioned(routes, revoked@[i as int]));
                dropped = true;
            } else {
                proof {
                    unmentioned_unchanged(self@.routes, node);
                }
            }
            i = i + 1;
        }
        assert(revoked@.take(n as int) =~= revoked@);
        if dropped {
            self.topology_changed = true;
        }
        assert(self@ =~= revoked_state(old(self)@, revoked@));
    }

    /// Whether a node has a route, or some route has a path through it.
    fn mentions(&self, node: Mac) -> (b: bool)
        ensures
            b == mentioned(self@.routes, node),
    {
        let n: usize = self.originator_table.len();
        let mut i: usize = 0;
        while i < n
            invariant
                i <= n,
                n == self.originator_table@.len(),
                forall|k: int| 0 <= k < i ==> !involves(#[trigger] self@.routes[k], node),
            decreases n - i,
        {
            if let Some((key, record)) = self.originator_table.entry_at(i) {
                let ghost entry = self@.routes[i as int];
                assert(entry == (key, record@));
                if key == node {
                    assert(involves(entry, node));
                    return true;
                }
                let m: usize = record.paths.len();
                let mut j: usize = 0;
                while j < m
                    invariant
                        j <= m,
                        m == record.paths@.len(),
                        i < self.originator_table@.len(),
                        entry == self@.routes[i as int],
                        entry == (key, record@),
                        forall|k: int|
                            0 <= k < j ==> (#[trigger] entry.1.paths[k]).neighbor_ident != node,
                    decreases m - j,
                {
                    if record.paths.items()[j].neighbor_ident == node {
                        assert(entry.1.paths[j as int].neighbor_ident == node);
                        assert(involves(entry, node));
                        return true;
                    }
                    j = j + 1;
                }
            }
            i = i + 1;
        }
        false
    }

    /// Revoke one node.
    fn revoke_one(&mut self, revoked: Mac)
        requires
            old(self).wf(),
        ensures
            final(self).wf(),
            final(self)@ == (EngineState {
                routes: routes_without(old(self)@.routes, revoked),
                ..old(self)@
            }),
    {
        let ghost table = self.originator_table@;
        let found: Option<usize> = self.originator_table.index_of(revoked);
        proof {
            table_keys_distinct(table);
        }
        self.originator_table.remove_in_order(revoked);
        let ghost kept = self@.routes;
        proof {
            routes_follow(table);
            match found {
                Some(at) => {
                    old(self).table_place(revoked, at as int);
                    assert(table[at as int].0 == revoked);
                    assert(kept == old(self)@.routes.remove(at as int));
                },
                None => {
                    old(self).table_absent(revoked);
                },
            }
            assert forall|i: int| 0 <= i < kept.len() implies sound_route(
                #[trigger] kept[i],
            ) by {
                match found {
                    Some(at) => {
                        let j = if i < at { i } else { i + 1 };
                        assert(kept[i] == old(self)@.routes[j]);
                    },
                    None => {},
                }
            }
            assert forall|a: int, b: int| 0 <= a < b < kept.len() implies (#[trigger] kept[a]).0
                != (#[trigger] kept[b]).0 by {
                match found {
                    Some(at) => {
                        let x = if a < at { a } else { a + 1 };
                        let y = if b < at { b } else { b + 1 };
                        assert(kept[a] == old(self)@.routes[x] && kept[b]
                            == old(self)@.routes[y]);
                    },
                    None => {},
                }
            }
        }
        let n: usize = self.originator_table.len();
        let mut i: usize = 0;
        while i < n
            invariant
                i <= n,
                n == kept.len(),
                self.originator_table@.len() == n,
                self@ == (EngineState { routes: self@.routes, ..old(self)@ }),
                forall|j: int|
                    0 <= j < i ==> (#[trigger] self@.routes[j]) == (
                        kept[j].0,
                        rechosen(
                            Route { paths: paths_avoiding(kept[j].1.paths, revoked), ..kept[j].1 },
                        ),
                    ),
                forall|j: int| i <= j < n ==> (#[trigger] self@.routes[j]) == kept[j],
            decreases n - i,
        {
            let ghost here = self.originator_table@;
            assert(self@.routes[i as int] == kept[i as int]);
            let record = self.originator_table.value_at_mut(i);
            retain_avoiding(&mut record.paths, revoked);
            choose_best(record);
            proof {
                routes_follow(here);
                assert(self@.routes == routes_of(here).update(
                    i as int,
                    (
                        kept[i as int].0,
                        rechosen(
                            Route {
                                paths: paths_avoiding(kept[i as int].1.paths, revoked),
                                ..kept[i as int].1
                            },
                        ),
                    ),
                ));
            }
            i = i + 1;
        }
        let ghost left = routes_without(old(self)@.routes, revoked);
        assert(self@.routes =~= left);
        proof {
            assert forall|i: int| 0 <= i < left.len() implies sound_route(
                #[trigger] left[i],
            ) by {
                let paths = paths_avoiding(kept[i].1.paths, revoked);
                paths_avoiding_no_more(kept[i].1.paths, revoked);
                choosing_backs_route(Route { paths, ..kept[i].1 });
                assert(sound_route(kept[i]));
            }
            assert forall|a: int, b: int| 0 <= a < b < left.len() implies (#[trigger] left[a]).0
                != (#[trigger] left[b]).0 by {
                assert(kept[a].0 != kept[b].0);
            }
        }
    }

    /// Reset every interface's OGM schedule to its smallest interval.
    pub fn reset_ogm_timers(&mut self, now: Duration)
        requires
            old(self).wf(),
            old(self)@.can_reset(now),
        ensures
            final(self).wf(),
            final(self)@ == (EngineState {
                ogm_timers: all_restarted(old(self)@.ogm_timers, now),
                ..old(self)@
            }),
    {
        let ghost before = self.ogm_timers@;
        let n: usize = self.ogm_timers.len();
        let mut i: usize = 0;
        while i < n
            invariant
                i <= n,
                n == before.len(),
                before == old(self)@.ogm_timers,
                old(self).wf(),
                old(self)@.can_reset(now),
                self.ogm_timers@.len() == n,
                self@ == (EngineState { ogm_timers: self.ogm_timers@, ..old(self)@ }),
                forall|j: int| 0 <= j < i ==> (#[trigger] self.ogm_timers@[j])
                    == before[j].restarted(now) && self.ogm_timers@[j].wf(),
                forall|j: int| i <= j < n ==> (#[trigger] self.ogm_timers@[j]) == before[j],
            decreases n - i,
        {
            assert(self.ogm_timers@[i as int] == before[i as int]);
            let ghost here = self.ogm_timers@;
            let timers = self.ogm_timers.items_mut();
            let mut timer: TrickleTimer = timers[i];
            timer.reset(now);
            timers[i] = timer;
            assert(self.ogm_timers@ == here.update(i as int, timer));
            i = i + 1;
        }
        assert(self.ogm_timers@ =~= all_restarted(before, now));
    }

    /// Act on a latched topology change: clear it and reset every OGM schedule.
    pub(crate) fn apply_topology_change(&mut self, now: Duration)
        requires
            old(self).wf(),
            old(self)@.can_reset(now),
        ensures
            final(self).wf(),
            final(self)@ == settled(old(self)@, now),
    {
        if self.topology_changed {
            self.topology_changed = false;
            self.reset_ogm_timers(now);
        }
    }

    /// Drop all learned routing state: routes, broadcast records and learned
    /// memberships.  Sequence numbers, joined groups, heartbeats and schedules
    /// stay, and no topology change is latched.
    pub fn reset(&mut self)
        requires
            old(self).wf(),
        ensures
            final(self).wf(),
            final(self)@ == (EngineState {
                routes: Seq::empty(),
                broadcast_seqno: Seq::empty(),
                mcast_members: Seq::empty(),
                ..old(self)@
            }),
    {
        self.originator_table.clear();
        self.broadcast_seqno.clear();
        self.mcast_members.clear();
        assert(self@.routes =~= Seq::empty());
    }
}

/// After a purge no path is stale and no originator is without a path.
pub proof fn purge_leaves_live_paths(s: EngineState, now: Duration)
    ensures
        forall|i: int, j: int|
            0 <= i < purged(s, now).routes.len() && 0 <= j
                < purged(s, now).routes[i].1.paths.len() ==> !path_is_stale(
                now,
                #[trigger] purged(s, now).routes[i].1.paths[j],
                ogm_seed(s.ogm_timers),
            ),
        forall|i: int|
            0 <= i < purged(s, now).routes.len() ==> (
            #[trigger] purged(s, now).routes[i]).1.paths.len() > 0,
{
    let seed = ogm_seed(s.ogm_timers);
    let all = all_pruned(s.routes, now, seed);
    reachable_from(all);
    let left = purged(s, now).routes;
    assert forall|i: int, j: int|
        0 <= i < left.len() && 0 <= j < left[i].1.paths.len() implies !path_is_stale(
        now,
        #[trigger] left[i].1.paths[j],
        seed,
    ) by {
        let k = choose|k: int| 0 <= k < all.len() && left[i] == #[trigger] all[k];
        live_paths_are_live(s.routes[k].1.paths, now, seed);
    }
}

/// Every reachable route is one of the routes, and has a path.
pub(crate) proof fn reachable_from(routes: Seq<(Mac, Route)>)
    ensures
        forall|i: int|
            0 <= i < reachable(routes).len() ==> (#[trigger] reachable(routes)[i]).1.paths.len()
                > 0 && exists|j: int|
                0 <= j < routes.len() && reachable(routes)[i] == #[trigger] routes[j],
    decreases routes.len(),
{
    if routes.len() > 0 {
        let t = routes.drop_last();
        reachable_from(t);
        let whole = reachable(routes);
        assert forall|i: int| 0 <= i < whole.len() implies (#[trigger] whole[i]).1.paths.len() > 0
            && exists|j: int| 0 <= j < routes.len() && whole[i] == #[trigger] routes[j] by {
            if i < reachable(t).len() {
                assert(whole[i] == reachable(t)[i]);
                let j = choose|j: int| 0 <= j < t.len() && reachable(t)[i] == #[trigger] t[j];
                assert(t[j] == routes[j]);
            } else {
                assert(whole[i] == routes[routes.len() - 1]);
            }
        }
    }
}

/// Every live path is live.
proof fn live_paths_are_live(paths: Seq<NeighborStats>, now: Duration, seed: Duration)
    ensures
        forall|j: int|
            0 <= j < live_paths(paths, now, seed).len() ==> !path_is_stale(
                now,
                #[trigger] live_paths(paths, now, seed)[j],
                seed,
            ),
    decreases paths.len(),
{
    if paths.len() > 0 {
        live_paths_are_live(paths.drop_last(), now, seed);
        let shorter = live_paths(paths.drop_last(), now, seed);
        let whole = live_paths(paths, now, seed);
        assert forall|j: int| 0 <= j < whole.len() implies !path_is_stale(
            now,
            #[trigger] whole[j],
            seed,
        ) by {
            if j < shorter.len() {
                assert(whole[j] == shorter[j]);
            }
        }
    }
}

/// What a purge leaves: an originator stays exactly where it has a live path, with
/// its live paths in order and the best of them behind its cached fields.  A
/// destination then has a cached next hop exactly where it has a live one.
pub proof fn purge_keeps_what_is_live(s: EngineState, caps: Capacities, now: Duration, d: Mac)
    requires
        s.wf(caps),
    ensures
        ({
            let t = purged(s, now);
            let live = live_paths(
                s.routes[place(s.routes, d)].1.paths,
                now,
                ogm_seed(s.ogm_timers),
            );
            &&& has_key(t.routes, d) == (has_key(s.routes, d) && live.len() > 0)
            &&& has_key(t.routes, d) ==> {
                let r = t.routes[place(t.routes, d)].1;
                r.paths == live && backed(r)
            }
            &&& has_key(t.routes, d) == (live_hop(t, now, d) is Some)
        }),
{
    let seed = ogm_seed(s.ogm_timers);
    let all = all_pruned(s.routes, now, seed);
    let t = purged(s, now);
    assert forall|a: int, b: int| 0 <= a < b < all.len() implies (#[trigger] all[a]).0 != (
    #[trigger] all[b]).0 by {
        assert(s.routes[a].0 != s.routes[b].0);
    }
    reachable_keeps_sound(all);
    reachable_from(all);
    if has_key(t.routes, d) {
        let at = place(t.routes, d);
        assert(0 <= at < t.routes.len() && t.routes[at].0 == d);
        let k = choose|k: int| 0 <= k < all.len() && t.routes[at] == #[trigger] all[k];
        assert(s.routes[k].0 == d);
        place_is(s.routes, d, k);
        let live = live_paths(s.routes[k].1.paths, now, seed);
        choosing_backs_route(Route { paths: live, ..s.routes[k].1 });
        assert(t.routes[at].1.paths == live);
        live_paths_are_live(s.routes[k].1.paths, now, seed);
        best_live_path_is_best(t, now, live);
        assert(!path_is_stale(now, live[0], seed));
    } else if has_key(s.routes, d) {
        let k = place(s.routes, d);
        assert(0 <= k < s.routes.len() && s.routes[k].0 == d);
        assert(all[k].0 == d);
        if all[k].1.paths.len() > 0 {
            reachable_holds(all, k);
            let i = choose|i: int| 0 <= i < t.routes.len() && #[trigger] t.routes[i] == all[k];
            assert(t.routes[i].0 == d);
        }
    }
}

/// A route with a path is among the reachable ones.
proof fn reachable_holds(routes: Seq<(Mac, Route)>, k: int)
    requires
        0 <= k < routes.len(),
        routes[k].1.paths.len() > 0,
    ensures
        exists|i: int|
            0 <= i < reachable(routes).len() && #[trigger] reachable(routes)[i] == routes[k],
    decreases routes.len(),
{
    let t = routes.drop_last();
    let whole = reachable(routes);
    if k < t.len() {
        assert(t[k] == routes[k]);
        reachable_holds(t, k);
        let i = choose|i: int| 0 <= i < reachable(t).len() && #[trigger] reachable(t)[i] == t[k];
        assert(whole[i] == routes[k]);
    } else {
        assert(whole[whole.len() - 1] == routes[k]);
    }
}

/// A second purge at the same time changes nothing and finds nothing to latch a
/// topology change for.
pub proof fn purge_is_idempotent(s: EngineState, now: Duration)
    ensures
        purged(purged(s, now), now) == purged(s, now),
        !some_altered(purged(s, now).routes, now, ogm_seed(s.ogm_timers)),
{
    let seed = ogm_seed(s.ogm_timers);
    let t = purged(s, now);
    let all = all_pruned(s.routes, now, seed);
    reachable_from(all);
    let again = all_pruned(t.routes, now, seed);
    assert forall|i: int| 0 <= i < t.routes.len() implies (#[trigger] again[i]) == t.routes[i]
        && !altered(t.routes[i].1, now, seed) by {
        let k = choose|k: int| 0 <= k < all.len() && t.routes[i] == #[trigger] all[k];
        let live = live_paths(s.routes[k].1.paths, now, seed);
        live_paths_are_live(s.routes[k].1.paths, now, seed);
        live_paths_settled(live, now, seed);
        assert(t.routes[i].1.paths == live);
    }
    assert(again =~= t.routes);
    reachable_settled(t.routes);
    assert(purged(t, now) =~= t);
}

/// Paths of which none is stale stay as they are.
proof fn live_paths_settled(paths: Seq<NeighborStats>, now: Duration, seed: Duration)
    requires
        forall|j: int| 0 <= j < paths.len() ==> !path_is_stale(now, #[trigger] paths[j], seed),
    ensures
        live_paths(paths, now, seed) == paths,
    decreases paths.len(),
{
    if paths.len() > 0 {
        let t = paths.drop_last();
        assert forall|j: int| 0 <= j < t.len() implies !path_is_stale(
            now,
            #[trigger] t[j],
            seed,
        ) by {
            assert(t[j] == paths[j]);
        }
        live_paths_settled(t, now, seed);
        assert(t.push(paths.last()) =~= paths);
    }
}

/// Routes that all have a path are all reachable.
proof fn reachable_settled(routes: Seq<(Mac, Route)>)
    requires
        forall|i: int| 0 <= i < routes.len() ==> (#[trigger] routes[i]).1.paths.len() > 0,
    ensures
        reachable(routes) == routes,
    decreases routes.len(),
{
    if routes.len() > 0 {
        let t = routes.drop_last();
        assert forall|i: int| 0 <= i < t.len() implies (#[trigger] t[i]).1.paths.len() > 0 by {
            assert(t[i] == routes[i]);
        }
        reachable_settled(t);
        assert(t.push(routes.last()) =~= routes);
    }
}

/// After a revocation no revoked node has a route, no path goes through one, and
/// no route with a path has one for its next hop.  A live lookup then never
/// answers with a revoked node, and finds nothing toward one.
pub proof fn revoked_are_gone(
    s: EngineState,
    caps: Capacities,
    revoked: Seq<Mac>,
    now: Duration,
    d: Mac,
)
    requires
        s.wf(caps),
    ensures
        ({
            let t = revoked_state(s, revoked);
            &&& revoked.contains(d) ==> !has_key(t.routes, d)
            &&& forall|i: int, j: int|
                0 <= i < t.routes.len() && 0 <= j < t.routes[i].1.paths.len()
                    ==> !revoked.contains((#[trigger] t.routes[i].1.paths[j]).neighbor_ident)
            &&& forall|i: int|
                0 <= i < t.routes.len() && (#[trigger] t.routes[i]).1.paths.len() > 0
                    ==> !revoked.contains(t.routes[i].1.best_next_hop)
            &&& live_hop(t, now, d) matches Some(hop) ==> !revoked.contains(hop)
                && !revoked.contains(d)
        }),
{
    let t = revoked_state(s, revoked);
    routes_without_all_from(s.routes, revoked);
    assert forall|k: int| 0 <= k < s.routes.len() implies backed((#[trigger] s.routes[k]).1) by {
        assert(sound_route(s.routes[k]));
    }
    routes_without_all_backed(s.routes, revoked);
    assert forall|i: int, j: int|
        0 <= i < t.routes.len() && 0 <= j < t.routes[i].1.paths.len() implies !revoked.contains(
        (#[trigger] t.routes[i].1.paths[j]).neighbor_ident,
    ) by {
        let k = choose|k: int|
            0 <= k < s.routes.len() && left_of(#[trigger] s.routes[k], t.routes[i], revoked);
        outside_avoids(s.routes[k].1.paths, revoked);
    }
    assert forall|i: int|
        0 <= i < t.routes.len() && (
        #[trigger] t.routes[i]).1.paths.len() > 0 implies !revoked.contains(
        t.routes[i].1.best_next_hop,
    ) by {
        let r = t.routes[i].1;
        assert(backed(r));
        let j = choose|j: int|
            0 <= j < r.paths.len() && (#[trigger] r.paths[j]).neighbor_ident == r.best_next_hop
                && r.paths[j].last_tq == r.max_tq;
        assert(!revoked.contains(t.routes[i].1.paths[j].neighbor_ident));
    }
    if has_key(t.routes, d) {
        let at = place(t.routes, d);
        assert(0 <= at < t.routes.len() && t.routes[at].0 == d);
        best_live_path_is_best(t, now, t.routes[at].1.paths);
    }
}

/// A revocation leaves every other originator in the table, with its paths via
/// neighbors that were not revoked, in order.
pub proof fn others_outlive_revocation(
    s: EngineState,
    caps: Capacities,
    revoked: Seq<Mac>,
    d: Mac,
)
    requires
        s.wf(caps),
        has_key(s.routes, d),
        !revoked.contains(d),
    ensures
        ({
            let t = revoked_state(s, revoked);
            &&& has_key(t.routes, d)
            &&& t.routes[place(t.routes, d)].1.paths == paths_outside(
                s.routes[place(s.routes, d)].1.paths,
                revoked,
            )
            &&& t.routes[place(t.routes, d)].1.last_seqno == s.routes[place(
                s.routes,
                d,
            )].1.last_seqno
            &&& t.routes[place(t.routes, d)].1.last_heard == s.routes[place(
                s.routes,
                d,
            )].1.last_heard
        }),
{
    let t = revoked_state(s, revoked);
    let k = place(s.routes, d);
    assert(0 <= k < s.routes.len() && s.routes[k].0 == d);
    routes_without_all_from(s.routes, revoked);
    routes_without_all_keeps(s.routes, revoked, k);
    let i = choose|i: int| 0 <= i < t.routes.len() && (#[trigger] t.routes[i]).0 == d;
    place_is(t.routes, d, i);
    let from = choose|from: int|
        0 <= from < s.routes.len() && left_of(#[trigger] s.routes[from], t.routes[i], revoked);
    place_is(s.routes, d, from);
}

/// Whether `after` is what revoking `revoked` leaves of the route `before`, but
/// for its cached next hop.
pub(crate) open spec fn left_of(
    before: (Mac, Route),
    after: (Mac, Route),
    revoked: Seq<Mac>,
) -> bool {
    &&& after.0 == before.0
    &&& !revoked.contains(after.0)
    &&& after.1.neighbor_ident == before.1.neighbor_ident
    &&& after.1.last_seqno == before.1.last_seqno
    &&& after.1.last_heard == before.1.last_heard
    &&& after.1.paths == paths_outside(before.1.paths, revoked)
}

/// Whether `after` is what revoking `revoked` leaves of some route.
pub(crate) open spec fn left_of_some(
    routes: Seq<(Mac, Route)>,
    after: (Mac, Route),
    revoked: Seq<Mac>,
) -> bool {
    exists|k: int| 0 <= k < routes.len() && left_of(#[trigger] routes[k], after, revoked)
}

/// Revocations leave the best path of every route behind its cached fields.
proof fn routes_without_all_backed(routes: Seq<(Mac, Route)>, revoked: Seq<Mac>)
    requires
        forall|k: int| 0 <= k < routes.len() ==> backed((#[trigger] routes[k]).1),
    ensures
        forall|i: int|
            0 <= i < routes_without_all(routes, revoked).len() ==> backed(
                (#[trigger] routes_without_all(routes, revoked)[i]).1,
            ),
{
    if revoked.len() > 0 {
        let node = revoked.last();
        let left = routes_without_all(routes, revoked.drop_last());
        let kept = if has_key(left, node) {
            left.remove(place(left, node))
        } else {
            left
        };
        let whole = routes_without_all(routes, revoked);
        assert forall|i: int| 0 <= i < whole.len() implies backed((#[trigger] whole[i]).1) by {
            choosing_backs_route(
                Route { paths: paths_avoiding(kept[i].1.paths, node), ..kept[i].1 },
            );
        }
    }
}

/// Every route left by revocations is what they leave of a route.
pub(crate) proof fn routes_without_all_from(routes: Seq<(Mac, Route)>, revoked: Seq<Mac>)
    requires
        distinct_keys(routes),
    ensures
        distinct_keys(routes_without_all(routes, revoked)),
        forall|i: int|
            0 <= i < routes_without_all(routes, revoked).len() ==> left_of_some(
                routes,
                #[trigger] routes_without_all(routes, revoked)[i],
                revoked,
            ),
    decreases revoked.len(),
{
    let whole = routes_without_all(routes, revoked);
    if revoked.len() == 0 {
        assert forall|i: int| 0 <= i < whole.len() implies left_of_some(
            routes,
            #[trigger] whole[i],
            revoked,
        ) by {
            outside_nothing(routes[i].1.paths, revoked);
            assert(left_of(routes[i], whole[i], revoked));
        }
    } else {
        let fewer = revoked.drop_last();
        let node = revoked.last();
        let left = routes_without_all(routes, fewer);
        routes_without_all_from(routes, fewer);
        routes_without_from(left, node);
        assert(revoked =~= fewer.push(node));
        assert forall|i: int| 0 <= i < whole.len() implies left_of_some(
            routes,
            #[trigger] whole[i],
            revoked,
        ) by {
            let j = choose|j: int|
                0 <= j < left.len() && whole[i].0 == (#[trigger] left[j]).0 && whole[i].1
                    == without_paths(left[j].1, node);
            let k = choose|k: int|
                0 <= k < routes.len() && left_of(#[trigger] routes[k], left[j], fewer);
            outside_and_avoiding(routes[k].1.paths, fewer, node);
            assert forall|m: Mac| revoked.contains(m) implies fewer.contains(m) || m == node by {
                let x = choose|x: int| 0 <= x < revoked.len() && revoked[x] == m;
                if x < fewer.len() {
                    assert(fewer[x] == m);
                }
            }
            assert(left_of(routes[k], whole[i], revoked));
        }
    }
}

/// A route of a node that is not revoked is left in the table.
proof fn routes_without_all_keeps(routes: Seq<(Mac, Route)>, revoked: Seq<Mac>, k: int)
    requires
        distinct_keys(routes),
        0 <= k < routes.len(),
        !revoked.contains(routes[k].0),
    ensures
        has_key(routes_without_all(routes, revoked), routes[k].0),
    decreases revoked.len(),
{
    if revoked.len() > 0 {
        let fewer = revoked.drop_last();
        let node = revoked.last();
        let left = routes_without_all(routes, fewer);
        assert(revoked[revoked.len() - 1] == node);
        assert forall|m: Mac| fewer.contains(m) implies revoked.contains(m) by {
            let x = choose|x: int| 0 <= x < fewer.len() && fewer[x] == m;
            assert(revoked[x] == m);
        }
        routes_without_all_keeps(routes, fewer, k);
        routes_without_all_from(routes, fewer);
        routes_without_from(left, node);
        let i = choose|i: int| 0 <= i < left.len() && (#[trigger] left[i]).0 == routes[k].0;
        assert(left[i].0 != node);
    } else {
        assert(routes_without_all(routes, revoked)[k].0 == routes[k].0);
    }
}

/// A route without its paths via `node`, and its next hop chosen again.
spec fn without_paths(r: Route, node: Mac) -> Route {
    rechosen(Route { paths: paths_avoiding(r.paths, node), ..r })
}

/// Revoking one node keeps every other route, and nothing else, without its paths
/// through that node.
proof fn routes_without_from(routes: Seq<(Mac, Route)>, node: Mac)
    requires
        distinct_keys(routes),
    ensures
        distinct_keys(routes_without(routes, node)),
        forall|i: int|
            0 <= i < routes_without(routes, node).len() ==> (#[trigger] routes_without(
                routes,
                node,
            )[i]).0 != node && exists|j: int|
                0 <= j < routes.len() && routes_without(routes, node)[i].0 == (
                #[trigger] routes[j]).0 && routes_without(routes, node)[i].1 == without_paths(
                    routes[j].1,
                    node,
                ),
        forall|j: int|
            0 <= j < routes.len() && (#[trigger] routes[j]).0 != node ==> has_key(
                routes_without(routes, node),
                routes[j].0,
            ),
{
    let left = routes_without(routes, node);
    let at = place(routes, node);
    let kept = if has_key(routes, node) {
        routes.remove(at)
    } else {
        routes
    };
    if has_key(routes, node) {
        assert(0 <= at < routes.len() && routes[at].0 == node);
        removed_keeps_distinct(routes, at);
    }
    assert forall|a: int, b: int| 0 <= a < b < left.len() implies (#[trigger] left[a]).0 != (
    #[trigger] left[b]).0 by {
        assert(kept[a].0 != kept[b].0);
    }
    assert forall|i: int| 0 <= i < left.len() implies (#[trigger] left[i]).0 != node && exists|
        j: int,
    |
        0 <= j < routes.len() && left[i].0 == (#[trigger] routes[j]).0 && left[i].1
            == without_paths(routes[j].1, node) by {
        let j = if has_key(routes, node) && i >= at { i + 1 } else { i };
        assert(kept[i] == routes[j]);
        if has_key(routes, node) {
            if j < at {
                assert(routes[j].0 != routes[at].0);
            } else {
                assert(routes[at].0 != routes[j].0);
            }
        }
        assert(left[i].0 == routes[j].0);
    }
    assert forall|j: int| 0 <= j < routes.len() && (#[trigger] routes[j]).0 != node implies has_key(
        left,
        routes[j].0,
    ) by {
        let i = if has_key(routes, node) && j > at { j - 1 } else { j };
        assert(kept[i] == routes[j]);
        assert(left[i].0 == routes[j].0);
    }
}

/// Where no node is named, every path is outside.
proof fn outside_nothing(paths: Seq<NeighborStats>, nodes: Seq<Mac>)
    requires
        nodes.len() == 0,
    ensures
        paths_outside(paths, nodes) == paths,
    decreases paths.len(),
{
    if paths.len() > 0 {
        outside_nothing(paths.drop_last(), nodes);
        assert(paths.drop_last().push(paths.last()) =~= paths);
    }
}

/// Avoiding one more node keeps the paths outside the longer list.
proof fn outside_and_avoiding(paths: Seq<NeighborStats>, nodes: Seq<Mac>, node: Mac)
    ensures
        paths_avoiding(paths_outside(paths, nodes), node) == paths_outside(
            paths,
            nodes.push(node),
        ),
    decreases paths.len(),
{
    if paths.len() > 0 {
        let t = paths.drop_last();
        let via = paths.last().neighbor_ident;
        outside_and_avoiding(t, nodes, node);
        let more = nodes.push(node);
        assert(more.contains(via) == (nodes.contains(via) || via == node)) by {
            if nodes.contains(via) {
                let x = choose|x: int| 0 <= x < nodes.len() && nodes[x] == via;
                assert(more[x] == via);
            }
            assert(more[nodes.len() as int] == node);
        }
        if !nodes.contains(via) {
            let kept = paths_outside(t, nodes);
            assert(kept.push(paths.last()).drop_last() =~= kept);
        }
    }
}

/// No path outside a list of nodes goes via one of them.
proof fn outside_avoids(paths: Seq<NeighborStats>, nodes: Seq<Mac>)
    ensures
        forall|j: int|
            0 <= j < paths_outside(paths, nodes).len() ==> !nodes.contains(
                (#[trigger] paths_outside(paths, nodes)[j]).neighbor_ident,
            ),
    decreases paths.len(),
{
    if paths.len() > 0 {
        outside_avoids(paths.drop_last(), nodes);
        let shorter = paths_outside(paths.drop_last(), nodes);
        let whole = paths_outside(paths, nodes);
        assert forall|j: int| 0 <= j < whole.len() implies !nodes.contains(
            (#[trigger] whole[j]).neighbor_ident,
        ) by {
            if j < shorter.len() {
                assert(whole[j] == shorter[j]);
            }
        }
    }
}

} // verus!
