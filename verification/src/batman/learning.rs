//! What hearing an OGM teaches, and what it leaves alone.

use vstd::prelude::*;

use crate::batman::ageing::live_paths_no_more;
use crate::batman::ageing::others_outlive_revocation;
use crate::batman::ageing::purge_keeps_what_is_live;
use crate::batman::ageing::reachable_from;
use crate::batman::ageing::unmentioned_unchanged;
use crate::batman::laws::accepted_route;
use crate::batman::laws::newest_seqno;
use crate::batman::laws::oldest_is_one;
use crate::batman::model::after_ogm;
use crate::batman::model::all_pruned;
use crate::batman::model::altered;
use crate::batman::model::attenuated;
use crate::batman::model::best_live_path;
use crate::batman::model::best_live_path_is_best;
use crate::batman::model::distinct_neighbors;
use crate::batman::model::effective_quality;
use crate::batman::model::first_path;
use crate::batman::model::involves;
use crate::batman::model::live_hop;
use crate::batman::model::live_paths;
use crate::batman::model::mentioned;
use crate::batman::model::missed_keepalive;
use crate::batman::model::oldest_heartbeat;
use crate::batman::model::oldest_route;
use crate::batman::model::paths_after;
use crate::batman::model::paths_outside;
use crate::batman::model::place;
use crate::batman::model::place_is;
use crate::batman::model::pruned;
use crate::batman::model::purged;
use crate::batman::model::reachable;
use crate::batman::model::revoked_state;
use crate::batman::model::routes_without_all;
use crate::batman::model::rx_step;
use crate::batman::model::sound_route;
use crate::batman::model::with_route;
use crate::batman::model::Capacities;
use crate::batman::model::EngineState;
use crate::batman::model::Reply;
use crate::batman::receive::first_path_is_one;
use crate::batman::runs::carried_over;
use crate::batman::tables::blend_holds_the_peak;
use crate::batman::tables::keepalive_seed;
use crate::batman::tables::ogm_seed;
use crate::batman::tables::path_is_stale;
use crate::batman::tables::KeepAliveStats;
use crate::batman::tables::NeighborStats;
use crate::batman::tables::Route;
use crate::batman::wire::BATADV_IV_OGM;
use crate::batman::wire::BATADV_KEEPALIVE;
use crate::batman::wire::ETH_P_BATMAN;
use crate::batman::wire::OGM_LEN;
use crate::bounded::distinct_keys;
use crate::bounded::has_key;
use crate::bounded::swap_removed;
use crate::codec::be32_at;
use crate::frame::mac_at;
use crate::frame::Mac;
use crate::select::first_least_is_least;
use crate::time::Duration;

verus! {

/// What is known of the way to a node: its route, or none.
pub open spec fn route_to(s: EngineState, d: Mac) -> Option<Route> {
    if has_key(s.routes, d) {
        Some(s.routes[place(s.routes, d)].1)
    } else {
        None
    }
}

/// The paths known to a node.
pub open spec fn paths_to(s: EngineState, d: Mac) -> Seq<NeighborStats> {
    match route_to(s, d) {
        Some(r) => r.paths,
        None => Seq::empty(),
    }
}

/// Whether one of the paths goes via `neighbor`.
pub open spec fn via(paths: Seq<NeighborStats>, neighbor: Mac) -> bool {
    exists|i: int| 0 <= i < paths.len() && (#[trigger] paths[i]).neighbor_ident == neighbor
}

/// Whether a received payload is an OGM of another node, no older than the newest
/// heard from that node.
pub open spec fn is_news(s: EngineState, payload: Seq<u8>) -> bool {
    &&& payload.len() >= OGM_LEN
    &&& payload[0] == BATADV_IV_OGM
    &&& mac_at(payload, 8) != s.self_ident
    &&& be32_at(payload, 4) >= newest_seqno(s, mac_at(payload, 8))
}

/// An OGM that is news makes its originator known as of now, under the sequence
/// number it carries.  The path it came by is known afterwards, where it was known
/// before or fewer than four were, and the originator can then be reached.
pub proof fn news_makes_reachable(
    s: EngineState,
    caps: Capacities,
    now: Duration,
    src: Mac,
    dst: Mac,
    payload: Seq<u8>,
    local_quality: Option<u8>,
    reply: Reply,
)
    requires
        s.wf(caps),
        caps.originators > 1,
        is_news(s, payload),
    ensures
        ({
            let orig = mac_at(payload, 8);
            let t = rx_step(
                s,
                caps,
                now,
                src,
                dst,
                ETH_P_BATMAN,
                payload,
                local_quality,
                reply,
            ).state;
            let before = paths_to(s, orig);
            let paths = paths_to(t, orig);
            &&& route_to(t, orig) is Some
            &&& route_to(t, orig)->0.last_heard == now
            &&& route_to(t, orig)->0.last_seqno == be32_at(payload, 4)
            &&& via(before, src) || before.len() < 4 ==> via(paths, src)
            &&& via(before, src) || before.len() < 4 ==> live_hop(t, now, orig) is Some
        }),
{
    let orig = mac_at(payload, 8);
    let t = rx_step(
        s,
        caps,
        now,
        src,
        dst,
        ETH_P_BATMAN,
        payload,
        local_quality,
        reply,
    ).state;
    news_is_taken_in(s, caps, now, src, dst, payload, local_quality, reply);
    let before = paths_to(s, orig);
    let paths = paths_to(t, orig);
    if via(before, src) || before.len() < 4 {
        first_path_is_one(before, src);
        assert(via(paths, src)) by {
            if via(before, src) {
                let i = choose|i: int|
                    0 <= i < before.len() && (#[trigger] before[i]).neighbor_ident == src;
                assert(paths[i].neighbor_ident == src);
            } else {
                assert(paths[before.len() as int].neighbor_ident == src);
            }
        }
        let i = choose|i: int| 0 <= i < paths.len() && (#[trigger] paths[i]).neighbor_ident == src;
        path_by_which_news_came(s, caps, now, src, dst, payload, local_quality, reply, i);
        best_live_path_is_best(t, now, paths);
        assert(!path_is_stale(now, paths[i], ogm_seed(t.ogm_timers)));
    }
}

/// The path by which an OGM that is news came is as fresh as can be: heard now,
/// with the number and the quality the OGM carries, and not given up on.  Where it
/// was known before, and the OGM is newer than the last one it brought, the
/// interval expected of it is no shorter than the gap just seen, and no longer than
/// both that gap and what was expected before.
pub proof fn path_by_which_news_came(
    s: EngineState,
    caps: Capacities,
    now: Duration,
    src: Mac,
    dst: Mac,
    payload: Seq<u8>,
    local_quality: Option<u8>,
    reply: Reply,
    i: int,
)
    requires
        s.wf(caps),
        caps.originators > 1,
        is_news(s, payload),
        ({
            let t = rx_step(
                s,
                caps,
                now,
                src,
                dst,
                ETH_P_BATMAN,
                payload,
                local_quality,
                reply,
            ).state;
            let paths = paths_to(t, mac_at(payload, 8));
            0 <= i < paths.len() && paths[i].neighbor_ident == src
        }),
    ensures
        ({
            let orig = mac_at(payload, 8);
            let t = rx_step(
                s,
                caps,
                now,
                src,
                dst,
                ETH_P_BATMAN,
                payload,
                local_quality,
                reply,
            ).state;
            let path = paths_to(t, orig)[i];
            let before = paths_to(s, orig);
            let seqno = be32_at(payload, 4);
            let cut = payload[15] - 10;
            &&& path.last_heard == now
            &&& path.last_seqno == seqno
            &&& local_quality is None ==> path.last_tq == if cut > 0 { cut } else { 0 }
            &&& local_quality matches Some(q) ==> path.last_tq <= q && (path.last_tq == q
                || path.last_tq == if cut > 0 { cut } else { 0 })
            &&& path.last_tq <= cut || path.last_tq == 0
            &&& forall|seed: Duration| !#[trigger] path_is_stale(now, path, seed)
            &&& i < before.len() && seqno > before[i].last_seqno ==> now.nanos
                <= before[i].last_heard.nanos + path.interval_estimate.nanos
            &&& i < before.len() ==> path.interval_estimate.nanos
                <= before[i].interval_estimate.nanos || before[i].last_heard.nanos
                + path.interval_estimate.nanos <= now.nanos
            &&& i < before.len() && seqno <= before[i].last_seqno ==> path.interval_estimate
                == before[i].interval_estimate
            &&& i >= before.len() ==> path.interval_estimate.nanos == 0
        }),
{
    let orig = mac_at(payload, 8);
    news_is_taken_in(s, caps, now, src, dst, payload, local_quality, reply);
    let before = paths_to(s, orig);
    first_path_is_one(before, src);
    if i < before.len() {
        blend_holds_the_peak(before[i].interval_estimate, now.minus(before[i].last_heard));
    }
    if via(before, src) {
        let k = choose|k: int|
            0 <= k < before.len() && (#[trigger] before[k]).neighbor_ident == src;
        known_paths_are_distinct(s, caps, orig);
        if i < before.len() && i != k {
            let first = first_path(before, src)->0;
            assert(before[i].neighbor_ident == src || i == first);
        }
    } else if before.len() >= 4 {
        assert(before[i].neighbor_ident == src);
    }
}

/// An OGM that is news leaves every other path to its originator as it was, in its
/// place, and forgets none.
pub proof fn news_leaves_other_paths(
    s: EngineState,
    caps: Capacities,
    now: Duration,
    src: Mac,
    dst: Mac,
    payload: Seq<u8>,
    local_quality: Option<u8>,
    reply: Reply,
)
    requires
        s.wf(caps),
        caps.originators > 1,
        is_news(s, payload),
    ensures
        ({
            let orig = mac_at(payload, 8);
            let t = rx_step(
                s,
                caps,
                now,
                src,
                dst,
                ETH_P_BATMAN,
                payload,
                local_quality,
                reply,
            ).state;
            let before = paths_to(s, orig);
            let paths = paths_to(t, orig);
            &&& forall|i: int|
                0 <= i < before.len() ==> (#[trigger] paths[i]).neighbor_ident
                    == before[i].neighbor_ident && (before[i].neighbor_ident != src ==> paths[i]
                    == before[i])
            &&& paths.len() == (if via(before, src) || before.len() >= 4 {
                before.len()
            } else {
                before.len() + 1
            })
        }),
{
    let orig = mac_at(payload, 8);
    news_is_taken_in(s, caps, now, src, dst, payload, local_quality, reply);
    let before = paths_to(s, orig);
    first_path_is_one(before, src);
    if via(before, src) {
        let k = choose|k: int|
            0 <= k < before.len() && (#[trigger] before[k]).neighbor_ident == src;
    }
}

/// An OGM leaves what is known of every other node as it was, but that a full
/// table gives up one node to make room for a new one: one of those heard from
/// longest ago.
pub proof fn news_leaves_other_nodes(
    s: EngineState,
    caps: Capacities,
    now: Duration,
    src: Mac,
    dst: Mac,
    payload: Seq<u8>,
    local_quality: Option<u8>,
    reply: Reply,
    other: Mac,
)
    requires
        s.wf(caps),
        caps.originators > 1,
        is_news(s, payload),
        other != mac_at(payload, 8),
    ensures
        ({
            let orig = mac_at(payload, 8);
            let t = rx_step(
                s,
                caps,
                now,
                src,
                dst,
                ETH_P_BATMAN,
                payload,
                local_quality,
                reply,
            ).state;
            &&& route_to(t, other) is Some ==> route_to(t, other) == route_to(s, other)
            &&& route_to(s, other) is Some && route_to(t, other) is None ==> {
                &&& route_to(s, orig) is None
                &&& s.routes.len() >= caps.originators
                &&& forall|i: int|
                    0 <= i < s.routes.len() ==> route_to(s, other)->0.last_heard.nanos <= (
                    #[trigger] s.routes[i]).1.last_heard.nanos
                &&& forall|d: Mac|
                    d != other && route_to(s, d) is Some ==> #[trigger] route_to(t, d) is Some
            }
        }),
{
    let orig = mac_at(payload, 8);
    let tq = attenuated(payload[15], local_quality);
    let t = rx_step(
        s,
        caps,
        now,
        src,
        dst,
        ETH_P_BATMAN,
        payload,
        local_quality,
        reply,
    ).state;
    let learnt = after_ogm(s, caps, now, src, payload, tq);
    accepted_route(s, caps, now, src, payload, tq);
    assert(t.routes == learnt.routes);
    if route_to(t, other) is Some {
        carried_over(s, caps, now, src, payload, tq, other);
    } else if route_to(s, other) is Some {
        let p = place(s.routes, other);
        assert(0 <= p < s.routes.len() && s.routes[p].0 == other);
        let routes = with_route(s.routes, caps.originators, orig, src, now);
        let at = place(routes, orig);
        if has_key(s.routes, orig) {
            let q = place(s.routes, orig);
            assert(0 <= q < s.routes.len() && s.routes[q].0 == orig);
            place_is(s.routes, orig, q);
            assert(t.routes[p].0 == other);
        }
        let full = s.routes.len() >= caps.originators;
        let oldest = oldest_route(s.routes);
        if full {
            let heard = s.routes.map_values(|e: (Mac, Route)| e.1.last_heard.nanos as int);
            oldest_is_one(s.routes);
            first_least_is_least(heard);
            assert forall|i: int| 0 <= i < s.routes.len() implies s.routes[oldest].1.last_heard.nanos
                <= (#[trigger] s.routes[i]).1.last_heard.nanos by {
                assert(heard[oldest] <= heard[i]);
            }
        }
        assert(routes[routes.len() - 1].0 == orig);
        assert(0 <= at < routes.len());
        assert forall|d: Mac, q: int|
            0 <= q < s.routes.len() && (#[trigger] s.routes[q]).0 == d && d != orig && !(full && q
                == oldest) implies #[trigger] has_key(t.routes, d) by {
            let j = if full && q == s.routes.len() - 1 { oldest } else { q };
            assert(routes[j] == s.routes[q]);
            assert(j != at);
            assert(t.routes[j].0 == d);
        }
        assert(full && p == oldest) by {
            if !(full && p == oldest) {
                assert(has_key(t.routes, s.routes[p].0));
            }
        }
        assert forall|d: Mac| d != other && route_to(s, d) is Some implies #[trigger] route_to(
            t,
            d,
        ) is Some by {
            let q = place(s.routes, d);
            assert(0 <= q < s.routes.len() && s.routes[q].0 == d);
            assert(has_key(t.routes, s.routes[q].0));
        }
    }
}

/// The paths known to a node go via different neighbors.
proof fn known_paths_are_distinct(s: EngineState, caps: Capacities, d: Mac)
    requires
        s.wf(caps),
    ensures
        distinct_neighbors(paths_to(s, d)),
        paths_to(s, d).len() <= 4,
{
    if has_key(s.routes, d) {
        let p = place(s.routes, d);
        assert(0 <= p < s.routes.len() && s.routes[p].0 == d);
        assert(sound_route(s.routes[p]));
    }
}

/// The route to the originator of an OGM that is news.
proof fn news_is_taken_in(
    s: EngineState,
    caps: Capacities,
    now: Duration,
    src: Mac,
    dst: Mac,
    payload: Seq<u8>,
    local_quality: Option<u8>,
    reply: Reply,
)
    requires
        s.wf(caps),
        caps.originators > 1,
        is_news(s, payload),
    ensures
        ({
            let orig = mac_at(payload, 8);
            let seqno = be32_at(payload, 4);
            let tq = attenuated(payload[15], local_quality);
            let t = rx_step(
                s,
                caps,
                now,
                src,
                dst,
                ETH_P_BATMAN,
                payload,
                local_quality,
                reply,
            ).state;
            &&& has_key(t.routes, orig)
            &&& distinct_keys(t.routes)
            &&& route_to(t, orig)->0.last_heard == now
            &&& route_to(t, orig)->0.last_seqno == seqno
            &&& paths_to(t, orig) == paths_after(paths_to(s, orig), src, seqno, tq, now)
        }),
{
    let orig = mac_at(payload, 8);
    let tq = attenuated(payload[15], local_quality);
    let t = rx_step(
        s,
        caps,
        now,
        src,
        dst,
        ETH_P_BATMAN,
        payload,
        local_quality,
        reply,
    ).state;
    accepted_route(s, caps, now, src, payload, tq);
    assert(t.routes == after_ogm(s, caps, now, src, payload, tq).routes);
    let routes = with_route(s.routes, caps.originators, orig, src, now);
    let at = place(routes, orig);
    if has_key(s.routes, orig) {
        assert(routes[at].1 == s.routes[place(s.routes, orig)].1);
    } else {
        let kept = if s.routes.len() >= caps.originators {
            swap_removed(s.routes, oldest_route(s.routes))
        } else {
            s.routes
        };
        if s.routes.len() >= caps.originators {
            oldest_is_one(s.routes);
        }
        assert(routes == kept.push(routes.last()));
        if at < kept.len() {
            assert(routes[at] == kept[at]);
            let j = if s.routes.len() >= caps.originators && at == oldest_route(s.routes) {
                s.routes.len() - 1
            } else {
                at
            };
            assert(kept[at] == s.routes[j]);
            assert(s.routes[j].0 != orig);
        }
        assert(routes[at].1.paths =~= Seq::<NeighborStats>::empty());
    }
}

/// The next hop toward a node is the neighbor of a path that is not given up on,
/// and no other such path promises better, a neighbor whose heartbeats are missing
/// promising nothing.  There is none only where every path is given up on.
pub proof fn next_hop_is_the_best_live_neighbor(s: EngineState, now: Duration, d: Mac)
    ensures
        match live_hop(s, now, d) {
            Some(hop) => exists|b: int|
                0 <= b < paths_to(s, d).len() && (#[trigger] paths_to(s, d)[b]).neighbor_ident
                    == hop && !path_is_stale(now, paths_to(s, d)[b], ogm_seed(s.ogm_timers))
                    && promises_most(s, now, paths_to(s, d), b),
            None => forall|i: int|
                0 <= i < paths_to(s, d).len() ==> path_is_stale(
                    now,
                    #[trigger] paths_to(s, d)[i],
                    ogm_seed(s.ogm_timers),
                ),
        },
{
    let paths = paths_to(s, d);
    if has_key(s.routes, d) {
        best_live_path_is_best(s, now, paths);
        if let Some(b) = best_live_path(s, now, paths) {
            assert forall|i: int|
                0 <= i < paths.len() && !path_is_stale(now, #[trigger] paths[i], ogm_seed(
                    s.ogm_timers,
                )) && !missed_keepalive(s, now, paths[i].neighbor_ident) implies if missed_keepalive(
                s,
                now,
                paths[b].neighbor_ident,
            ) {
                paths[i].last_tq == 0
            } else {
                paths[i].last_tq <= paths[b].last_tq
            } by {
                assert(effective_quality(s, now, paths[i]) <= effective_quality(s, now, paths[b]));
            }
            assert(paths[b].neighbor_ident == live_hop(s, now, d)->0);
        }
    }
}

/// Whether no path that is not given up on, via a neighbor whose heartbeats are
/// not missing, is better than the path at `b`.
pub open spec fn promises_most(
    s: EngineState,
    now: Duration,
    paths: Seq<NeighborStats>,
    b: int,
) -> bool {
    forall|i: int|
        0 <= i < paths.len() && !path_is_stale(
            now,
            #[trigger] paths[i],
            ogm_seed(s.ogm_timers),
        ) && !missed_keepalive(s, now, paths[i].neighbor_ident) ==> if missed_keepalive(
            s,
            now,
            paths[b].neighbor_ident,
        ) {
            paths[i].last_tq == 0
        } else {
            paths[i].last_tq <= paths[b].last_tq
        }
}

/// A neighbor's heartbeats are missing exactly when one was ever heard, and none
/// for more than three of the intervals expected of it.
pub proof fn heartbeats_may_miss_three(s: EngineState, caps: Capacities, now: Duration, i: int)
    requires
        s.wf(caps),
        0 <= i < s.keepalive.len(),
        s.keepalive[i].1.interval_estimate.nanos * 3 <= u128::MAX,
        keepalive_seed(s.keepalive_timers).nanos * 3 <= u128::MAX,
    ensures
        ({
            let heard = s.keepalive[i].1;
            let expected = if heard.interval_estimate.nanos == 0 {
                keepalive_seed(s.keepalive_timers).nanos
            } else {
                heard.interval_estimate.nanos
            };
            missed_keepalive(s, now, s.keepalive[i].0) == (now.nanos > heard.last_heard.nanos + 3
                * expected)
        }),
{
    place_is(s.keepalive, s.keepalive[i].0, i);
}

/// A keep-alive makes its sender heard from now, with an expected interval no
/// shorter than the gap just seen, and leaves every other heartbeat as it was, but
/// that a full table gives up one to make room for a new one: one of those heard
/// longest ago.
pub proof fn heartbeat_is_noted(
    s: EngineState,
    caps: Capacities,
    now: Duration,
    src: Mac,
    dst: Mac,
    payload: Seq<u8>,
    local_quality: Option<u8>,
    reply: Reply,
)
    requires
        s.wf(caps),
        caps.originators > 1,
        payload.len() >= 2,
        payload[0] == BATADV_KEEPALIVE,
        src != s.self_ident,
    ensures
        ({
            let t = rx_step(
                s,
                caps,
                now,
                src,
                dst,
                ETH_P_BATMAN,
                payload,
                local_quality,
                reply,
            ).state.keepalive;
            let k = s.keepalive;
            &&& exists|j: int|
                0 <= j < t.len() && (#[trigger] t[j]).0 == src && t[j].1.last_heard == now
            &&& forall|i: int, j: int|
                0 <= i < k.len() && 0 <= j < t.len() && (#[trigger] k[i]).0 == src && (
                #[trigger] t[j]).0 == src ==> now.nanos <= k[i].1.last_heard.nanos
                    + t[j].1.interval_estimate.nanos && (t[j].1.interval_estimate.nanos
                    <= k[i].1.interval_estimate.nanos || k[i].1.last_heard.nanos
                    + t[j].1.interval_estimate.nanos <= now.nanos)
            &&& forall|i: int|
                0 <= i < k.len() && (#[trigger] k[i]).0 != src && !t.contains(k[i]) ==> {
                    &&& k.len() >= caps.originators
                    &&& !has_key(k, src)
                    &&& forall|j: int|
                        0 <= j < k.len() ==> k[i].1.last_heard.nanos <= (
                        #[trigger] k[j]).1.last_heard.nanos
                    &&& forall|j: int| 0 <= j < k.len() && j != i ==> t.contains(#[trigger] k[j])
                }
        }),
{
    let k = s.keepalive;
    let t = rx_step(
        s,
        caps,
        now,
        src,
        dst,
        ETH_P_BATMAN,
        payload,
        local_quality,
        reply,
    ).state.keepalive;
    if has_key(k, src) {
        let at = place(k, src);
        assert(0 <= at < k.len() && k[at].0 == src);
        assert(t[at].0 == src && t[at].1.last_heard == now);
        assert forall|i: int, j: int|
            0 <= i < k.len() && 0 <= j < t.len() && (#[trigger] k[i]).0 == src && (
            #[trigger] t[j]).0 == src implies now.nanos <= k[i].1.last_heard.nanos
            + t[j].1.interval_estimate.nanos && (t[j].1.interval_estimate.nanos
            <= k[i].1.interval_estimate.nanos || k[i].1.last_heard.nanos
            + t[j].1.interval_estimate.nanos <= now.nanos) by {
            place_is(k, src, i);
            assert(t[j].0 == k[j].0);
            place_is(k, src, j);
            blend_holds_the_peak(k[at].1.interval_estimate, now.minus(k[at].1.last_heard));
        }
        assert forall|i: int| 0 <= i < k.len() && (#[trigger] k[i]).0 != src implies t.contains(
            k[i],
        ) by {
            assert(t[i] == k[i]);
        }
    } else {
        let full = k.len() >= caps.originators;
        let oldest = oldest_heartbeat(k);
        let heard = k.map_values(|e: (Mac, KeepAliveStats)| e.1.last_heard.nanos as int);
        if full {
            first_least_is_least(heard);
        }
        assert(t[t.len() - 1].0 == src && t[t.len() - 1].1.last_heard == now);
        assert forall|i: int| 0 <= i < k.len() && !(full && i == oldest) implies t.contains(
            #[trigger] k[i],
        ) by {
            let j = if full && i == k.len() - 1 { oldest } else { i };
            assert(t[j] == k[i]);
        }
        if full {
            assert forall|j: int| 0 <= j < k.len() implies k[oldest].1.last_heard.nanos <= (
            #[trigger] k[j]).1.last_heard.nanos by {
                assert(heard[oldest] <= heard[j]);
            }
        }
    }
}

/// A purge keeps exactly the paths that are not given up on: every one of them
/// stays, and no other does.  It changes nothing but routes, and what it keeps of
/// a route keeps its number and the time it was last heard.
pub proof fn purge_keeps_every_live_path(s: EngineState, caps: Capacities, now: Duration, d: Mac)
    requires
        s.wf(caps),
    ensures
        ({
            let t = purged(s, now);
            let seed = ogm_seed(s.ogm_timers);
            &&& forall|i: int|
                0 <= i < paths_to(s, d).len() && !path_is_stale(
                    now,
                    #[trigger] paths_to(s, d)[i],
                    seed,
                ) ==> paths_to(t, d).contains(paths_to(s, d)[i])
            &&& forall|j: int|
                0 <= j < paths_to(t, d).len() ==> !path_is_stale(
                    now,
                    #[trigger] paths_to(t, d)[j],
                    seed,
                ) && paths_to(s, d).contains(paths_to(t, d)[j])
            &&& distinct_neighbors(paths_to(t, d))
            &&& route_to(t, d) is Some ==> {
                &&& paths_to(t, d).len() > 0
                &&& route_to(s, d) is Some
                &&& route_to(t, d)->0.last_seqno == route_to(s, d)->0.last_seqno
                &&& route_to(t, d)->0.last_heard == route_to(s, d)->0.last_heard
            }
            &&& t == (EngineState {
                routes: t.routes,
                topology_changed: t.topology_changed,
                ..s
            })
            &&& s.topology_changed ==> t.topology_changed
            &&& route_to(s, d) is Some && (route_to(t, d) is None || paths_to(t, d).len()
                != paths_to(s, d).len() || route_to(t, d)->0.best_next_hop != route_to(
                s,
                d,
            )->0.best_next_hop) ==> t.topology_changed
        }),
{
    let t = purged(s, now);
    let seed = ogm_seed(s.ogm_timers);
    purge_keeps_what_is_live(s, caps, now, d);
    known_paths_are_distinct(s, caps, d);
    let all = all_pruned(s.routes, now, seed);
    reachable_from(all);
    if has_key(s.routes, d) {
        let p = place(s.routes, d);
        assert(0 <= p < s.routes.len() && s.routes[p].0 == d);
        live_paths_are_all(s.routes[p].1.paths, now, seed);
        live_paths_no_more(s.routes[p].1.paths, now, seed);
        if has_key(t.routes, d) {
            let at = place(t.routes, d);
            assert(0 <= at < t.routes.len() && t.routes[at].0 == d);
            let k = choose|k: int| 0 <= k < all.len() && t.routes[at] == #[trigger] all[k];
            place_is(s.routes, d, k);
            assert(t.routes[at].1 == pruned(s.routes[p].1, now, seed));
            if t.routes[at].1.paths.len() != s.routes[p].1.paths.len()
                || t.routes[at].1.best_next_hop != s.routes[p].1.best_next_hop {
                assert(altered(s.routes[p].1, now, seed));
            }
        } else if s.routes[p].1.paths.len() > 0 {
            assert(altered(s.routes[p].1, now, seed));
        } else {
            pathless_shortens(all, p);
        }
    }
}

/// Dropping routes without a path shortens a list that holds one.
proof fn pathless_shortens(routes: Seq<(Mac, Route)>, p: int)
    requires
        0 <= p < routes.len(),
        routes[p].1.paths.len() == 0,
    ensures
        reachable(routes).len() < routes.len(),
    decreases routes.len(),
{
    let t = routes.drop_last();
    if p < t.len() {
        assert(t[p] == routes[p]);
        pathless_shortens(t, p);
    } else {
        reachable_no_more(t);
    }
}

/// Dropping routes without a path adds none.
proof fn reachable_no_more(routes: Seq<(Mac, Route)>)
    ensures
        reachable(routes).len() <= routes.len(),
    decreases routes.len(),
{
    if routes.len() > 0 {
        reachable_no_more(routes.drop_last());
    }
}

/// The live paths are those of the paths that are not stale.
proof fn live_paths_are_all(paths: Seq<NeighborStats>, now: Duration, seed: Duration)
    ensures
        forall|i: int|
            0 <= i < paths.len() && !path_is_stale(now, #[trigger] paths[i], seed) ==> live_paths(
                paths,
                now,
                seed,
            ).contains(paths[i]),
        forall|j: int|
            0 <= j < live_paths(paths, now, seed).len() ==> !path_is_stale(
                now,
                #[trigger] live_paths(paths, now, seed)[j],
                seed,
            ) && paths.contains(live_paths(paths, now, seed)[j]),
    decreases paths.len(),
{
    if paths.len() > 0 {
        let t = paths.drop_last();
        let shorter = live_paths(t, now, seed);
        let whole = live_paths(paths, now, seed);
        live_paths_are_all(t, now, seed);
        assert forall|i: int|
            0 <= i < paths.len() && !path_is_stale(
                now,
                #[trigger] paths[i],
                seed,
            ) implies whole.contains(paths[i]) by {
            if i < t.len() {
                assert(t[i] == paths[i]);
                let j = choose|j: int| 0 <= j < shorter.len() && shorter[j] == t[i];
                assert(whole[j] == shorter[j]);
            } else {
                assert(whole[whole.len() - 1] == paths[i]);
            }
        }
        assert forall|j: int| 0 <= j < whole.len() implies !path_is_stale(
            now,
            #[trigger] whole[j],
            seed,
        ) && paths.contains(whole[j]) by {
            if j < shorter.len() {
                assert(whole[j] == shorter[j]);
                let i = choose|i: int| 0 <= i < t.len() && t[i] == shorter[j];
                assert(paths[i] == whole[j]);
            } else {
                assert(paths[paths.len() - 1] == whole[j]);
            }
        }
    }
}

/// After a revocation every path via a neighbor that was not revoked is still
/// known, and the route keeps its number and the time it was last heard.
pub proof fn revocation_keeps_every_other_path(
    s: EngineState,
    caps: Capacities,
    revoked: Seq<Mac>,
    d: Mac,
)
    requires
        s.wf(caps),
        route_to(s, d) is Some,
        !revoked.contains(d),
    ensures
        ({
            let t = revoked_state(s, revoked);
            &&& route_to(t, d) is Some
            &&& route_to(t, d)->0.last_seqno == route_to(s, d)->0.last_seqno
            &&& route_to(t, d)->0.last_heard == route_to(s, d)->0.last_heard
            &&& forall|i: int|
                0 <= i < paths_to(s, d).len() && !revoked.contains(
                    (#[trigger] paths_to(s, d)[i]).neighbor_ident,
                ) ==> paths_to(t, d).contains(paths_to(s, d)[i])
            &&& forall|j: int|
                0 <= j < paths_to(t, d).len() ==> paths_to(s, d).contains(
                    #[trigger] paths_to(t, d)[j],
                ) && !revoked.contains(paths_to(t, d)[j].neighbor_ident)
            &&& t == (EngineState {
                routes: t.routes,
                topology_changed: t.topology_changed,
                ..s
            })
        }),
{
    others_outlive_revocation(s, caps, revoked, d);
    outside_are_all(paths_to(s, d), revoked);
}

/// The paths outside a list of nodes are those of the paths via none of them.
proof fn outside_are_all(paths: Seq<NeighborStats>, nodes: Seq<Mac>)
    ensures
        forall|i: int|
            0 <= i < paths.len() && !nodes.contains((#[trigger] paths[i]).neighbor_ident)
                ==> paths_outside(paths, nodes).contains(paths[i]),
        forall|j: int|
            0 <= j < paths_outside(paths, nodes).len() ==> paths.contains(
                #[trigger] paths_outside(paths, nodes)[j],
            ) && !nodes.contains(paths_outside(paths, nodes)[j].neighbor_ident),
    decreases paths.len(),
{
    if paths.len() > 0 {
        let t = paths.drop_last();
        let shorter = paths_outside(t, nodes);
        let whole = paths_outside(paths, nodes);
        outside_are_all(t, nodes);
        assert forall|i: int|
            0 <= i < paths.len() && !nodes.contains(
                (#[trigger] paths[i]).neighbor_ident,
            ) implies whole.contains(paths[i]) by {
            if i < t.len() {
                assert(t[i] == paths[i]);
                let j = choose|j: int| 0 <= j < shorter.len() && shorter[j] == t[i];
                assert(whole[j] == shorter[j]);
            } else {
                assert(whole[whole.len() - 1] == paths[i]);
            }
        }
        assert forall|j: int| 0 <= j < whole.len() implies paths.contains(#[trigger] whole[j])
            && !nodes.contains(whole[j].neighbor_ident) by {
            if j < shorter.len() {
                assert(whole[j] == shorter[j]);
                let i = choose|i: int| 0 <= i < t.len() && t[i] == shorter[j];
                assert(paths[i] == whole[j]);
            } else {
                assert(paths[paths.len() - 1] == whole[j]);
            }
        }
    }
}

/// A revocation latches a change of topology exactly where it takes something away:
/// where no revoked node has a route and no path goes through one, nothing changes
/// at all.
pub proof fn revocation_latches_what_it_takes(
    s: EngineState,
    caps: Capacities,
    revoked: Seq<Mac>,
    k: int,
    d: Mac,
)
    requires
        s.wf(caps),
    ensures
        ({
            let t = revoked_state(s, revoked);
            &&& s.topology_changed ==> t.topology_changed
            &&& 0 <= k < revoked.len() && (route_to(s, revoked[k]) is Some || via(
                paths_to(s, d),
                revoked[k],
            )) ==> t.topology_changed
            &&& (forall|m: Mac|
                #[trigger] revoked.contains(m) ==> route_to(s, m) is None && forall|x: Mac|
                    !via(#[trigger] paths_to(s, x), m)) ==> t == s
        }),
{
    let t = revoked_state(s, revoked);
    if 0 <= k < revoked.len() {
        let m = revoked[k];
        if route_to(s, m) is Some {
            let p = place(s.routes, m);
            assert(0 <= p < s.routes.len() && s.routes[p].0 == m);
            assert(involves(s.routes[p], m));
        }
        if via(paths_to(s, d), m) {
            let p = place(s.routes, d);
            assert(0 <= p < s.routes.len() && s.routes[p].0 == d);
            let j = choose|j: int|
                0 <= j < paths_to(s, d).len() && (#[trigger] paths_to(s, d)[j]).neighbor_ident
                    == m;
            assert(s.routes[p].1.paths[j].neighbor_ident == m);
            assert(involves(s.routes[p], m));
        }
    }
    if forall|m: Mac|
        #[trigger] revoked.contains(m) ==> route_to(s, m) is None && forall|x: Mac|
            !via(#[trigger] paths_to(s, x), m) {
        assert forall|i: int| 0 <= i < revoked.len() implies !mentioned(
            s.routes,
            #[trigger] revoked[i],
        ) by {
            let m = revoked[i];
            assert(revoked.contains(m));
            if mentioned(s.routes, m) {
                let p = choose|p: int|
                    0 <= p < s.routes.len() && involves(#[trigger] s.routes[p], m);
                let x = s.routes[p].0;
                place_is(s.routes, x, p);
                assert(paths_to(s, x) == s.routes[p].1.paths);
                if x != m {
                    let j = choose|j: int|
                        0 <= j < s.routes[p].1.paths.len() && (
                        #[trigger] s.routes[p].1.paths[j]).neighbor_ident == m;
                    assert(paths_to(s, x)[j].neighbor_ident == m);
                    assert(via(paths_to(s, x), m));
                }
            }
        }
        unmentioned_all_unchanged(s.routes, revoked);
        assert(t =~= s);
    }
}

/// Revoking nodes that no route mentions changes no route.
proof fn unmentioned_all_unchanged(routes: Seq<(Mac, Route)>, revoked: Seq<Mac>)
    requires
        forall|i: int| 0 <= i < revoked.len() ==> !mentioned(routes, #[trigger] revoked[i]),
        forall|i: int| 0 <= i < routes.len() ==> sound_route(#[trigger] routes[i]),
    ensures
        routes_without_all(routes, revoked) == routes,
    decreases revoked.len(),
{
    if revoked.len() > 0 {
        let fewer = revoked.drop_last();
        assert forall|i: int| 0 <= i < fewer.len() implies !mentioned(
            routes,
            #[trigger] fewer[i],
        ) by {
            assert(fewer[i] == revoked[i]);
        }
        unmentioned_all_unchanged(routes, fewer);
        assert(!mentioned(routes, revoked[revoked.len() - 1]));
        unmentioned_unchanged(routes, revoked.last());
    }
}

} // verus!
