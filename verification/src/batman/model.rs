//! The routing engine's state as plain values, and what each event makes of it.

use vstd::prelude::*;

use crate::batman::tables::blended;
use crate::batman::tables::keepalive_seed;
use crate::batman::tables::ogm_seed;
use crate::batman::tables::path_is_stale;
use crate::batman::tables::stale;
use crate::batman::tables::KeepAliveStats;
use crate::batman::tables::NeighborStats;
use crate::batman::tables::OgmScheduleEntry;
use crate::batman::tables::Route;
use crate::batman::tables::MAX_MISSED_KEEPALIVES;
use crate::batman::tables::MAX_PATHS;
use crate::batman::trickle::TrickleTimer;
use crate::batman::wire::directed_bytes;
use crate::batman::wire::tvlv_values;
use crate::batman::wire::BatmanBroadcastPacket;
use crate::batman::wire::BatmanOgmPacket;
use crate::batman::wire::BatmanTvlvHdr;
use crate::batman::wire::TvlvType;
use crate::batman::wire::BATADV_BCAST;
use crate::batman::wire::BATADV_CERT_REPLY;
use crate::batman::wire::BATADV_CERT_REQ;
use crate::batman::wire::BATADV_IV_OGM;
use crate::batman::wire::BATADV_KEEPALIVE;
use crate::batman::wire::BATADV_MCAST;
use crate::batman::wire::BATADV_UNICAST;
use crate::batman::wire::BROADCAST_LEN;
use crate::batman::wire::DIRECTED_LEN;
use crate::batman::wire::ETH_P_BATMAN;
use crate::batman::wire::KEEPALIVE_LEN;
use crate::batman::wire::OGM_LEN;
use crate::batman::wire::TVLV_HDR_LEN;
use crate::bounded::distinct_keys;
use crate::bounded::has_key;
use crate::bounded::swap_removed;
use crate::codec::overlay;
use crate::frame::mac_at;
use crate::frame::Mac;
use crate::routing::RoutingAction;
use crate::select::first_least;
use crate::time::Duration;

verus! {

/// Everything the engine remembers.
#[verifier::ext_equal]
pub struct EngineState {
    /// This node's own address.
    pub self_ident: Mac,
    /// Sequence number of the last OGM this node originated.
    pub sequence_number: u32,
    /// Sequence number of the last broadcast this node originated.
    pub broadcast_sequence_number: u32,
    /// Routes by originator, in table order.
    pub routes: Seq<(Mac, Route)>,
    /// Newest broadcast sequence number seen per originator.
    pub broadcast_seqno: Seq<(Mac, u32)>,
    /// Groups the local host listens to.
    pub local_mcast: Seq<Mac>,
    /// `(group, listener)` memberships learned from the mesh.
    pub mcast_members: Seq<(Mac, Mac)>,
    /// OGM schedules by interface.
    pub ogm_timers: Seq<TrickleTimer>,
    /// Heartbeats by neighbor, in table order.
    pub keepalive: Seq<(Mac, KeepAliveStats)>,
    /// Keep-alive schedules by interface.
    pub keepalive_timers: Seq<Option<TrickleTimer>>,
    /// A topology change not yet acted on.
    pub topology_changed: bool,
    /// Relayed frames dropped because they did not fit the reply.
    pub relay_oversize_drops: u32,
}

/// How many entries each of the engine's tables can hold.
pub struct Capacities {
    pub originators: nat,
    pub interfaces: nat,
    pub mcast_members: nat,
    pub local_mcast: nat,
}

impl EngineState {
    /// No table is over its capacity, no key occurs twice, every route is sound,
    /// and so is every schedule.
    pub open spec fn wf(self, caps: Capacities) -> bool {
        &&& self.routes.len() <= caps.originators
        &&& distinct_keys(self.routes)
        &&& forall|i: int|
            0 <= i < self.routes.len() ==> sound_route(#[trigger] self.routes[i])
        &&& self.broadcast_seqno.len() <= caps.originators
        &&& self.local_mcast.len() <= caps.local_mcast
        &&& self.mcast_members.len() <= caps.mcast_members
        &&& self.ogm_timers.len() <= caps.interfaces
        &&& forall|i: int|
            0 <= i < self.ogm_timers.len() ==> (#[trigger] self.ogm_timers[i]).wf()
        &&& self.keepalive.len() <= caps.originators
        &&& distinct_keys(self.keepalive)
        &&& self.keepalive_timers.len() <= caps.interfaces
        &&& forall|i: int|
            0 <= i < self.keepalive_timers.len() && (
            #[trigger] self.keepalive_timers[i]) is Some ==> self.keepalive_timers[i]->0.wf()
    }

    /// Every OGM schedule can be reset at `now` without its next fire running
    /// past the end of the clock.
    pub open spec fn can_reset(self, now: Duration) -> bool {
        forall|i: int|
            0 <= i < self.ogm_timers.len() ==> TrickleTimer::in_range(
                now,
                (#[trigger] self.ogm_timers[i]).i_min,
            )
    }

    /// A node that has learned nothing.
    pub open spec fn initial(self_ident: Mac) -> EngineState {
        EngineState {
            self_ident,
            sequence_number: 0,
            broadcast_sequence_number: 0,
            routes: Seq::empty(),
            broadcast_seqno: Seq::empty(),
            local_mcast: Seq::empty(),
            mcast_members: Seq::empty(),
            ogm_timers: Seq::empty(),
            keepalive: Seq::empty(),
            keepalive_timers: Seq::empty(),
            topology_changed: false,
            relay_oversize_drops: 0,
        }
    }
}

/// The place of the entry with the key, where there is one.
pub open spec fn place<V>(s: Seq<(Mac, V)>, key: Mac) -> int {
    choose|i: int| 0 <= i < s.len() && (#[trigger] s[i]).0 == key
}

/// With distinct keys, an entry with the key stands in the key's place.
pub proof fn place_is<V>(s: Seq<(Mac, V)>, key: Mac, at: int)
    requires
        distinct_keys(s),
        0 <= at < s.len(),
        s[at].0 == key,
    ensures
        has_key(s, key),
        place(s, key) == at,
{
    let p = place(s, key);
    assert(0 <= p < s.len() && s[p].0 == key);
    if p < at {
        assert(s[p].0 != s[at].0);
    } else if at < p {
        assert(s[at].0 != s[p].0);
    }
}

/// Whether a neighbor has missed its keep-alive budget.  A neighbor never heard
/// from has missed nothing.
pub open spec fn missed_keepalive(s: EngineState, now: Duration, neighbor: Mac) -> bool {
    has_key(s.keepalive, neighbor) && {
        let k = s.keepalive[place(s.keepalive, neighbor)].1;
        stale(
            now,
            k.last_heard,
            k.interval_estimate,
            keepalive_seed(s.keepalive_timers),
            MAX_MISSED_KEEPALIVES,
        )
    }
}

/// A path's quality for choosing a next hop: none while its neighbor has missed
/// its keep-alive budget.
pub open spec fn effective_quality(s: EngineState, now: Duration, path: NeighborStats) -> u8 {
    if missed_keepalive(s, now, path.neighbor_ident) {
        0
    } else {
        path.last_tq
    }
}

/// Among the paths that are not stale, the one of highest effective quality, the
/// last of several equals.
pub open spec fn best_live_path(
    s: EngineState,
    now: Duration,
    paths: Seq<NeighborStats>,
) -> Option<int>
    decreases paths.len(),
{
    if paths.len() == 0 {
        None
    } else {
        let before = best_live_path(s, now, paths.drop_last());
        if path_is_stale(now, paths.last(), ogm_seed(s.ogm_timers)) {
            before
        } else {
            match before {
                Some(b) => if effective_quality(s, now, paths[b]) > effective_quality(
                    s,
                    now,
                    paths.last(),
                ) {
                    before
                } else {
                    Some(paths.len() - 1)
                },
                None => Some(paths.len() - 1),
            }
        }
    }
}

/// The best live path is not stale, no live path is better, and none after it is
/// as good; there is one exactly when some path is live.
pub proof fn best_live_path_is_best(s: EngineState, now: Duration, paths: Seq<NeighborStats>)
    ensures
        match best_live_path(s, now, paths) {
            Some(b) => {
                &&& 0 <= b < paths.len()
                &&& !path_is_stale(now, paths[b], ogm_seed(s.ogm_timers))
                &&& forall|i: int|
                    0 <= i < paths.len() && !path_is_stale(
                        now,
                        #[trigger] paths[i],
                        ogm_seed(s.ogm_timers),
                    ) ==> effective_quality(s, now, paths[i]) <= effective_quality(
                        s,
                        now,
                        paths[b],
                    )
                &&& forall|i: int|
                    b < i < paths.len() && !path_is_stale(
                        now,
                        #[trigger] paths[i],
                        ogm_seed(s.ogm_timers),
                    ) ==> effective_quality(s, now, paths[i]) < effective_quality(s, now, paths[b])
            },
            None => forall|i: int|
                0 <= i < paths.len() ==> path_is_stale(
                    now,
                    #[trigger] paths[i],
                    ogm_seed(s.ogm_timers),
                ),
        },
    decreases paths.len(),
{
    if paths.len() > 0 {
        let t = paths.drop_last();
        best_live_path_is_best(s, now, t);
        assert forall|i: int| 0 <= i < t.len() implies #[trigger] paths[i] == t[i] by {}
    }
}

/// The next hop toward a destination over the best live path, if there is one.
pub open spec fn live_hop(s: EngineState, now: Duration, destination: Mac) -> Option<Mac> {
    if has_key(s.routes, destination) {
        let paths = s.routes[place(s.routes, destination)].1.paths;
        match best_live_path(s, now, paths) {
            Some(b) => Some(paths[b].neighbor_ident),
            None => None,
        }
    } else {
        None
    }
}

/// Every schedule restarted at `now`.
pub open spec fn all_restarted(timers: Seq<TrickleTimer>, now: Duration) -> Seq<TrickleTimer> {
    timers.map_values(|t: TrickleTimer| t.restarted(now))
}

/// A latched topology change acted on: the latch cleared, every OGM schedule
/// restarted.
pub open spec fn settled(s: EngineState, now: Duration) -> EngineState {
    if s.topology_changed {
        EngineState {
            topology_changed: false,
            ogm_timers: all_restarted(s.ogm_timers, now),
            ..s
        }
    } else {
        s
    }
}

/// The place of the entry heard longest ago, the first of several.
pub open spec fn oldest_route(routes: Seq<(Mac, Route)>) -> int {
    first_least(routes.map_values(|e: (Mac, Route)| e.1.last_heard.nanos as int))
}

/// The place of the heartbeat heard longest ago, the first of several.
pub open spec fn oldest_heartbeat(k: Seq<(Mac, KeepAliveStats)>) -> int {
    first_least(k.map_values(|e: (Mac, KeepAliveStats)| e.1.last_heard.nanos as int))
}

/// A route as first made for an originator heard via `src`.
pub open spec fn blank_route(orig: Mac, src: Mac, now: Duration) -> Route {
    Route {
        last_heard: now,
        neighbor_ident: orig,
        best_next_hop: src,
        max_tq: 0,
        last_seqno: 0,
        paths: Seq::empty(),
    }
}

/// The routes with one for `orig` among them: a new one takes the place of the
/// one heard longest ago where the table is full.
pub open spec fn with_route(
    routes: Seq<(Mac, Route)>,
    capacity: nat,
    orig: Mac,
    src: Mac,
    now: Duration,
) -> Seq<(Mac, Route)> {
    if has_key(routes, orig) {
        routes
    } else {
        let kept = if routes.len() >= capacity {
            swap_removed(routes, oldest_route(routes))
        } else {
            routes
        };
        kept.push((orig, blank_route(orig, src, now)))
    }
}

/// The place of the first path via `neighbor`.
pub open spec fn first_path(paths: Seq<NeighborStats>, neighbor: Mac) -> Option<int>
    decreases paths.len(),
{
    if paths.len() == 0 {
        None
    } else {
        match first_path(paths.drop_last(), neighbor) {
            Some(i) => Some(i),
            None => if paths.last().neighbor_ident == neighbor {
                Some(paths.len() - 1)
            } else {
                None
            },
        }
    }
}

/// A path refreshed by one more OGM.  Only a newer sequence number feeds the
/// cadence estimate.
pub open spec fn refreshed(path: NeighborStats, seqno: u32, tq: u8, now: Duration) -> NeighborStats {
    NeighborStats {
        neighbor_ident: path.neighbor_ident,
        last_tq: tq,
        last_seqno: seqno,
        last_heard: now,
        interval_estimate: if seqno > path.last_seqno {
            blended(path.interval_estimate, now.minus(path.last_heard))
        } else {
            path.interval_estimate
        },
    }
}

/// The paths after an OGM via `src`: that path refreshed, or added while fewer
/// than [`MAX_PATHS`] are known.
pub open spec fn paths_after(
    paths: Seq<NeighborStats>,
    src: Mac,
    seqno: u32,
    tq: u8,
    now: Duration,
) -> Seq<NeighborStats> {
    match first_path(paths, src) {
        Some(i) => paths.update(i, refreshed(paths[i], seqno, tq, now)),
        None => if paths.len() < MAX_PATHS {
            paths.push(
                NeighborStats {
                    neighbor_ident: src,
                    last_tq: tq,
                    last_seqno: seqno,
                    last_heard: now,
                    interval_estimate: Duration { nanos: 0 },
                },
            )
        } else {
            paths
        },
    }
}

/// Whether some path via `neighbor` has the quality `tq`.
pub open spec fn offers(paths: Seq<NeighborStats>, neighbor: Mac, tq: u8) -> bool {
    exists|i: int|
        0 <= i < paths.len() && (#[trigger] paths[i]).neighbor_ident == neighbor
            && paths[i].last_tq == tq
}

/// Whether the best of a route's paths stands behind its cached fields: none has
/// a higher quality than `max_tq`, and one via `best_next_hop` has just that.
pub open spec fn backed(r: Route) -> bool {
    r.paths.len() > 0 ==> {
        &&& forall|i: int| 0 <= i < r.paths.len() ==> (#[trigger] r.paths[i]).last_tq <= r.max_tq
        &&& offers(r.paths, r.best_next_hop, r.max_tq)
    }
}

/// Whether the best of a route's paths goes via the neighbor.
pub open spec fn is_best_neighbor(r: Route, neighbor: Mac) -> bool {
    exists|b: int|
        0 <= b < r.paths.len() && (#[trigger] r.paths[b]).neighbor_ident == neighbor && forall|
            i: int,
        |
            0 <= i < r.paths.len() ==> (#[trigger] r.paths[i]).last_tq <= r.paths[b].last_tq
}

/// The next hop cached for a route is the neighbor of the best of its paths.
pub proof fn best_neighbor_is_cached(r: Route)
    requires
        backed(r),
    ensures
        r.paths.len() > 0 ==> is_best_neighbor(r, r.best_next_hop),
{
    if r.paths.len() > 0 {
        let b = choose|b: int|
            0 <= b < r.paths.len() && (#[trigger] r.paths[b]).neighbor_ident == r.best_next_hop
                && r.paths[b].last_tq == r.max_tq;
        assert(r.paths[b].neighbor_ident == r.best_next_hop);
    }
}

/// Whether no two paths go via the same neighbor.
pub open spec fn distinct_neighbors(paths: Seq<NeighborStats>) -> bool {
    forall|i: int, j: int|
        0 <= i < j < paths.len() ==> (#[trigger] paths[i]).neighbor_ident != (
        #[trigger] paths[j]).neighbor_ident
}

/// A route stands under its own address, has at most [`MAX_PATHS`] paths, via
/// different neighbors, and its best path stands behind its cached fields.
pub open spec fn sound_route(entry: (Mac, Route)) -> bool {
    &&& entry.1.neighbor_ident == entry.0
    &&& entry.1.paths.len() <= MAX_PATHS
    &&& distinct_neighbors(entry.1.paths)
    &&& backed(entry.1)
}

/// A route with its next hop chosen again from its paths, where it has any.  The
/// incumbent stays while no path is strictly better than its own.
pub open spec fn rechosen(r: Route) -> Route {
    if r.paths.len() == 0 {
        r
    } else {
        let best = r.paths[highest_path(r.paths)];
        Route {
            max_tq: best.last_tq,
            best_next_hop: if offers(r.paths, r.best_next_hop, best.last_tq) {
                r.best_next_hop
            } else {
                best.neighbor_ident
            },
            ..r
        }
    }
}

/// A route after an accepted OGM via `src`: that path refreshed, and the next hop
/// chosen again over all known paths.
pub open spec fn learned(r: Route, src: Mac, seqno: u32, tq: u8, now: Duration) -> Route {
    rechosen(
        Route {
            last_heard: now,
            last_seqno: seqno,
            paths: paths_after(r.paths, src, seqno, tq, now),
            ..r
        },
    )
}

/// The quality a path is recorded with: one hop's penalty off the advertised
/// quality, and no better than the link it came in on.
pub open spec fn attenuated(advertised: u8, local_quality: Option<u8>) -> u8 {
    let penalized = if advertised >= 10 {
        (advertised - 10) as u8
    } else {
        0
    };
    match local_quality {
        Some(local) => if local < penalized {
            local
        } else {
            penalized
        },
        None => penalized,
    }
}

/// The memberships left after every one of `orig` from place `i` on has been
/// taken out, each replaced by the last.
pub open spec fn swept(members: Seq<(Mac, Mac)>, orig: Mac, i: int) -> Seq<(Mac, Mac)>
    decreases members.len() - i,
{
    if i < 0 || i >= members.len() {
        members
    } else if members[i].1 == orig {
        swept(swap_removed(members, i), orig, i)
    } else {
        swept(members, orig, i + 1)
    }
}

/// The groups listed in a multicast announcement: one address per six bytes.
pub open spec fn listed_groups(value: Seq<u8>) -> Seq<Mac> {
    Seq::new((value.len() / 6) as nat, |i: int| mac_at(value, 6 * i))
}

/// The groups announced in an OGM's TVLV region.
pub open spec fn announced_groups(tail: Seq<u8>) -> Seq<Mac> {
    let values = tvlv_values(tail, TvlvType::Mcast.byte(), 0);
    if values.len() > 0 {
        listed_groups(values[0])
    } else {
        Seq::empty()
    }
}

/// `members` with `orig` listed for as many of `groups` as there is room for.
pub open spec fn joined(
    members: Seq<(Mac, Mac)>,
    orig: Mac,
    groups: Seq<Mac>,
    capacity: nat,
) -> Seq<(Mac, Mac)> {
    let room = capacity - members.len();
    let n = if groups.len() <= room {
        groups.len() as int
    } else if room > 0 {
        room
    } else {
        0
    };
    members + groups.subrange(0, n).map_values(|g: Mac| (g, orig))
}

/// The memberships after an OGM of `orig`: what it announces replaces what it
/// announced before.
pub open spec fn members_after(
    members: Seq<(Mac, Mac)>,
    orig: Mac,
    payload: Seq<u8>,
    capacity: nat,
) -> Seq<(Mac, Mac)> {
    joined(
        swept(members, orig, 0),
        orig,
        announced_groups(payload.subrange(OGM_LEN as int, payload.len() as int)),
        capacity,
    )
}

/// The groups `orig` is listed for.
pub open spec fn groups_of(members: Seq<(Mac, Mac)>, orig: Mac) -> Seq<Mac>
    decreases members.len(),
{
    if members.len() == 0 {
        Seq::empty()
    } else if members.last().1 == orig {
        groups_of(members.drop_last(), orig).push(members.last().0)
    } else {
        groups_of(members.drop_last(), orig)
    }
}

/// The frame a handler leaves for its caller to send.
#[verifier::ext_equal]
pub struct Reply {
    pub dst: Mac,
    pub protocol: u16,
    pub payload: Seq<u8>,
}

/// What a received frame leads to.
#[verifier::ext_equal]
pub struct Step {
    pub state: EngineState,
    pub action: RoutingAction,
    pub reply: Reply,
}

/// `n + 1`, or `n` where that does not fit.
pub open spec fn bumped(n: u32) -> u32 {
    if n < u32::MAX {
        (n + 1) as u32
    } else {
        n
    }
}

/// A reply holding `bytes` for `dst`, over what was in the buffer before.
pub open spec fn reply_with(reply: Reply, dst: Mac, bytes: Seq<u8>) -> Reply {
    Reply { dst, protocol: ETH_P_BATMAN, payload: overlay(reply.payload, 0, bytes) }
}

/// The state after an OGM was accepted, before it is re-flooded: route learned,
/// memberships replaced, topology change latched.
pub open spec fn after_ogm(
    s: EngineState,
    caps: Capacities,
    now: Duration,
    src: Mac,
    payload: Seq<u8>,
    tq: u8,
) -> EngineState {
    let ogm = BatmanOgmPacket::parsed(payload);
    let routes = with_route(s.routes, caps.originators, ogm.orig, src, now);
    let at = place(routes, ogm.orig);
    let route = learned(routes[at].1, src, ogm.seqno, tq, now);
    let members = members_after(s.mcast_members, ogm.orig, payload, caps.mcast_members);
    EngineState {
        routes: routes.update(at, (ogm.orig, route)),
        mcast_members: members,
        topology_changed: s.topology_changed || !has_key(s.routes, ogm.orig)
            || route.best_next_hop != routes[at].1.best_next_hop || groups_of(
            s.mcast_members,
            ogm.orig,
        ).to_set() != groups_of(members, ogm.orig).to_set(),
        ..s
    }
}

/// The bytes of a re-flooded OGM: the header with one hop less to live and the
/// new quality, then the TVLV region as it came, where it came whole.
pub open spec fn reflooded_ogm(payload: Seq<u8>, tq: u8) -> Seq<u8> {
    let ogm = BatmanOgmPacket::parsed(payload);
    let header = BatmanOgmPacket { ttl: (ogm.ttl - 1) as u8, tq, ..ogm }.bytes();
    let total = OGM_LEN + ogm.tvlv_len;
    if total <= payload.len() {
        header + payload.subrange(OGM_LEN as int, total)
    } else {
        header
    }
}

/// What a received OGM leads to.
pub open spec fn ogm_step(
    s: EngineState,
    caps: Capacities,
    now: Duration,
    src: Mac,
    payload: Seq<u8>,
    local_quality: Option<u8>,
    reply: Reply,
) -> Step {
    let ogm = BatmanOgmPacket::parsed(payload);
    if payload.len() < OGM_LEN || ogm.orig == s.self_ident {
        Step { state: s, action: RoutingAction::Consumed, reply }
    } else if has_key(s.routes, ogm.orig) && ogm.seqno < s.routes[place(
        s.routes,
        ogm.orig,
    )].1.last_seqno {
        Step { state: settled(s, now), action: RoutingAction::Consumed, reply }
    } else {
        let tq = attenuated(ogm.tq, local_quality);
        let learned = after_ogm(s, caps, now, src, payload, tq);
        let newest = if has_key(s.routes, ogm.orig) {
            s.routes[place(s.routes, ogm.orig)].1.last_seqno
        } else {
            0
        };
        if ogm.seqno > newest && ogm.ttl > 1 {
            if OGM_LEN + ogm.tvlv_len <= reply.payload.len() {
                Step {
                    state: settled(learned, now),
                    action: RoutingAction::Consumed,
                    reply: reply_with(reply, Mac::all_ones(), reflooded_ogm(payload, tq)),
                }
            } else {
                Step {
                    state: settled(
                        EngineState {
                            relay_oversize_drops: bumped(learned.relay_oversize_drops),
                            ..learned
                        },
                        now,
                    ),
                    action: RoutingAction::Consumed,
                    reply,
                }
            }
        } else {
            Step { state: settled(learned, now), action: RoutingAction::Consumed, reply }
        }
    }
}

/// The heartbeats after one from `neighbor` at `now`.
pub open spec fn heartbeats_after(
    k: Seq<(Mac, KeepAliveStats)>,
    capacity: nat,
    now: Duration,
    neighbor: Mac,
) -> Seq<(Mac, KeepAliveStats)> {
    if has_key(k, neighbor) {
        let at = place(k, neighbor);
        let stats = k[at].1;
        k.update(
            at,
            (
                neighbor,
                KeepAliveStats {
                    last_heard: now,
                    interval_estimate: blended(stats.interval_estimate, now.minus(stats.last_heard)),
                },
            ),
        )
    } else {
        let kept = if k.len() >= capacity {
            swap_removed(k, oldest_heartbeat(k))
        } else {
            k
        };
        kept.push(
            (
                neighbor,
                KeepAliveStats { last_heard: now, interval_estimate: Duration { nanos: 0 } },
            ),
        )
    }
}

/// What a received keep-alive leads to.
pub open spec fn keepalive_step(
    s: EngineState,
    caps: Capacities,
    now: Duration,
    src: Mac,
    payload: Seq<u8>,
    reply: Reply,
) -> Step {
    Step {
        state: if payload.len() < KEEPALIVE_LEN || src == s.self_ident {
            s
        } else {
            EngineState {
                keepalive: heartbeats_after(s.keepalive, caps.originators, now, src),
                ..s
            }
        },
        action: RoutingAction::Consumed,
        reply,
    }
}

/// The place of the first broadcast record of `orig`.
pub open spec fn first_seen(seen: Seq<(Mac, u32)>, orig: Mac) -> Option<int>
    decreases seen.len(),
{
    if seen.len() == 0 {
        None
    } else {
        match first_seen(seen.drop_last(), orig) {
            Some(i) => Some(i),
            None => if seen.last().0 == orig {
                Some(seen.len() - 1)
            } else {
                None
            },
        }
    }
}

/// The broadcast records after one of `orig` with `seqno`, or `None` where it is
/// a duplicate, older than one seen, or of an originator there is no room for.
pub open spec fn seen_after(
    seen: Seq<(Mac, u32)>,
    orig: Mac,
    seqno: u32,
    capacity: nat,
) -> Option<Seq<(Mac, u32)>> {
    match first_seen(seen, orig) {
        Some(i) => if seqno <= seen[i].1 {
            None
        } else {
            Some(seen.update(i, (orig, seqno)))
        },
        None => if seen.len() < capacity {
            Some(seen.push((orig, seqno)))
        } else {
            None
        },
    }
}

/// What a received broadcast leads to.
pub open spec fn broadcast_step(
    s: EngineState,
    caps: Capacities,
    payload: Seq<u8>,
    reply: Reply,
) -> Step {
    let hdr = BatmanBroadcastPacket::parsed(payload);
    let nothing = Step { state: s, action: RoutingAction::Consumed, reply };
    if payload.len() < BROADCAST_LEN || hdr.orig == s.self_ident {
        nothing
    } else {
        match seen_after(s.broadcast_seqno, hdr.orig, hdr.seqno, caps.originators) {
            None => nothing,
            Some(seen) => {
                let noted = EngineState { broadcast_seqno: seen, ..s };
                if hdr.ttl <= 1 {
                    Step { state: noted, action: RoutingAction::DeliverLocal, reply }
                } else if payload.len() <= reply.payload.len() {
                    let flood = BatmanBroadcastPacket { ttl: (hdr.ttl - 1) as u8, ..hdr }.bytes()
                        + payload.subrange(BROADCAST_LEN as int, payload.len() as int);
                    Step {
                        state: noted,
                        action: RoutingAction::DeliverLocalAndForward(Mac::all_ones()),
                        reply: reply_with(reply, Mac::all_ones(), flood),
                    }
                } else {
                    Step {
                        state: EngineState {
                            relay_oversize_drops: bumped(noted.relay_oversize_drops),
                            ..noted
                        },
                        action: RoutingAction::DeliverLocalAndForward(Mac::all_ones()),
                        reply,
                    }
                }
            },
        }
    }
}

/// What a received packet addressed to one node leads to: delivered at its
/// destination, otherwise relayed toward the next live hop with one hop less to
/// live, and dropped where it has none left or no live route is known.
pub open spec fn directed_step(
    s: EngineState,
    now: Duration,
    payload: Seq<u8>,
    reply: Reply,
) -> Step {
    let dest = mac_at(payload, 3);
    let ttl = payload[2];
    let nothing = Step { state: s, action: RoutingAction::Consumed, reply };
    if payload.len() < DIRECTED_LEN {
        nothing
    } else if dest == s.self_ident {
        Step { state: s, action: RoutingAction::DeliverLocal, reply }
    } else if ttl <= 1 {
        nothing
    } else {
        match live_hop(s, now, dest) {
            None => nothing,
            Some(next) => if payload.len() <= reply.payload.len() {
                let relayed = directed_bytes(payload[0], payload[1], (ttl - 1) as u8, dest)
                    + payload.subrange(DIRECTED_LEN as int, payload.len() as int);
                Step {
                    state: s,
                    action: RoutingAction::Consumed,
                    reply: reply_with(reply, next, relayed),
                }
            } else {
                Step {
                    state: EngineState {
                        relay_oversize_drops: bumped(s.relay_oversize_drops),
                        ..s
                    },
                    action: RoutingAction::Consumed,
                    reply,
                }
            },
        }
    }
}

/// What a BATMAN frame of no known type leads to: routed by its link-layer
/// destination.
pub open spec fn by_dest_action(s: EngineState, now: Duration, dst: Mac) -> RoutingAction {
    if dst == s.self_ident {
        RoutingAction::DeliverLocal
    } else {
        match live_hop(s, now, dst) {
            Some(next) => RoutingAction::ForwardTo(next),
            None => RoutingAction::Consumed,
        }
    }
}

/// The paths that are not stale, in order.
pub open spec fn live_paths(
    paths: Seq<NeighborStats>,
    now: Duration,
    seed: Duration,
) -> Seq<NeighborStats>
    decreases paths.len(),
{
    if paths.len() == 0 {
        Seq::empty()
    } else if path_is_stale(now, paths.last(), seed) {
        live_paths(paths.drop_last(), now, seed)
    } else {
        live_paths(paths.drop_last(), now, seed).push(paths.last())
    }
}

/// The paths not via `neighbor`, in order.
pub open spec fn paths_avoiding(paths: Seq<NeighborStats>, neighbor: Mac) -> Seq<NeighborStats>
    decreases paths.len(),
{
    if paths.len() == 0 {
        Seq::empty()
    } else if paths.last().neighbor_ident == neighbor {
        paths_avoiding(paths.drop_last(), neighbor)
    } else {
        paths_avoiding(paths.drop_last(), neighbor).push(paths.last())
    }
}

/// The paths via none of `nodes`, in order.
pub open spec fn paths_outside(
    paths: Seq<NeighborStats>,
    nodes: Seq<Mac>,
) -> Seq<NeighborStats>
    decreases paths.len(),
{
    if paths.len() == 0 {
        Seq::empty()
    } else if nodes.contains(paths.last().neighbor_ident) {
        paths_outside(paths.drop_last(), nodes)
    } else {
        paths_outside(paths.drop_last(), nodes).push(paths.last())
    }
}

/// The place of the path of highest quality, the last of several.
pub open spec fn highest_path(paths: Seq<NeighborStats>) -> int
    decreases paths.len(),
{
    if paths.len() <= 1 {
        0
    } else {
        let b = highest_path(paths.drop_last());
        if paths.last().last_tq >= paths[b].last_tq {
            paths.len() - 1
        } else {
            b
        }
    }
}

/// The highest path is one of the paths, none has a higher quality, and none behind
/// it has as high a one.
pub proof fn highest_path_is_highest(paths: Seq<NeighborStats>)
    requires
        paths.len() > 0,
    ensures
        0 <= highest_path(paths) < paths.len(),
        forall|i: int|
            0 <= i < paths.len() ==> (#[trigger] paths[i]).last_tq <= paths[highest_path(
                paths,
            )].last_tq,
        forall|i: int|
            highest_path(paths) < i < paths.len() ==> (#[trigger] paths[i]).last_tq
                < paths[highest_path(paths)].last_tq,
    decreases paths.len(),
{
    if paths.len() > 1 {
        let t = paths.drop_last();
        highest_path_is_highest(t);
        assert forall|i: int| 0 <= i < t.len() implies #[trigger] paths[i] == t[i] by {}
    }
}

/// Choosing a route's next hop again leaves its best path behind its cached
/// fields, whether or not the incumbent is kept.
pub proof fn choosing_backs_route(r: Route)
    ensures
        backed(rechosen(r)),
        backed(repicked(r)),
        backed(r) ==> rechosen(r) == r,
{
    if r.paths.len() > 0 {
        highest_path_is_highest(r.paths);
        let best = r.paths[highest_path(r.paths)];
        assert(offers(r.paths, best.neighbor_ident, best.last_tq));
        if backed(r) {
            let i = choose|i: int|
                0 <= i < r.paths.len() && (#[trigger] r.paths[i]).neighbor_ident
                    == r.best_next_hop && r.paths[i].last_tq == r.max_tq;
            assert(r.paths[i].last_tq <= best.last_tq);
        }
    }
}

/// A route with its cached next hop taken from its path of highest quality, where
/// it has any path.
pub open spec fn repicked(r: Route) -> Route {
    if r.paths.len() == 0 {
        r
    } else {
        let best = r.paths[highest_path(r.paths)];
        Route { max_tq: best.last_tq, best_next_hop: best.neighbor_ident, ..r }
    }
}

/// A route with its stale paths dropped and its next hop chosen again.
pub open spec fn pruned(r: Route, now: Duration, seed: Duration) -> Route {
    repicked(Route { paths: live_paths(r.paths, now, seed), ..r })
}

/// Every route pruned, in order.
pub open spec fn all_pruned(
    routes: Seq<(Mac, Route)>,
    now: Duration,
    seed: Duration,
) -> Seq<(Mac, Route)> {
    routes.map_values(|e: (Mac, Route)| (e.0, pruned(e.1, now, seed)))
}

/// The routes that have a path, in order.
pub open spec fn reachable(routes: Seq<(Mac, Route)>) -> Seq<(Mac, Route)>
    decreases routes.len(),
{
    if routes.len() == 0 {
        Seq::empty()
    } else if routes.last().1.paths.len() == 0 {
        reachable(routes.drop_last())
    } else {
        reachable(routes.drop_last()).push(routes.last())
    }
}

/// Whether pruning takes a path from the route or changes its next hop.
pub open spec fn altered(r: Route, now: Duration, seed: Duration) -> bool {
    let after = pruned(r, now, seed);
    after.paths.len() != r.paths.len() || after.best_next_hop != r.best_next_hop
}

/// Whether pruning takes a path from some route or changes its next hop.
pub open spec fn some_altered(
    routes: Seq<(Mac, Route)>,
    now: Duration,
    seed: Duration,
) -> bool {
    exists|i: int| 0 <= i < routes.len() && altered((#[trigger] routes[i]).1, now, seed)
}

/// The state after aged-out paths, and the originators left without one, have
/// been dropped.  Dropping anything, or changing a next hop, latches a topology
/// change.
pub open spec fn purged(s: EngineState, now: Duration) -> EngineState {
    let seed = ogm_seed(s.ogm_timers);
    let left = reachable(all_pruned(s.routes, now, seed));
    EngineState {
        routes: left,
        topology_changed: s.topology_changed || left.len() != s.routes.len() || some_altered(
            s.routes,
            now,
            seed,
        ),
        ..s
    }
}

/// The routes after one node was revoked: its own route gone, no path left
/// through it, and the next hops chosen again.
pub open spec fn routes_without(routes: Seq<(Mac, Route)>, revoked: Mac) -> Seq<(Mac, Route)> {
    let kept = if has_key(routes, revoked) {
        routes.remove(place(routes, revoked))
    } else {
        routes
    };
    kept.map_values(
        |e: (Mac, Route)|
            (e.0, rechosen(Route { paths: paths_avoiding(e.1.paths, revoked), ..e.1 })),
    )
}

/// Whether `node` has a route, or some route has a path through it.
pub open spec fn mentioned(routes: Seq<(Mac, Route)>, node: Mac) -> bool {
    exists|i: int| 0 <= i < routes.len() && involves(#[trigger] routes[i], node)
}

/// Whether the route is to `node`, or has a path through it.
pub open spec fn involves(entry: (Mac, Route), node: Mac) -> bool {
    entry.0 == node || exists|j: int|
        0 <= j < entry.1.paths.len() && (#[trigger] entry.1.paths[j]).neighbor_ident == node
}

/// The routes after each of `revoked` was revoked in turn.
pub open spec fn routes_without_all(
    routes: Seq<(Mac, Route)>,
    revoked: Seq<Mac>,
) -> Seq<(Mac, Route)>
    decreases revoked.len(),
{
    if revoked.len() == 0 {
        routes
    } else {
        routes_without(routes_without_all(routes, revoked.drop_last()), revoked.last())
    }
}

/// The state after each of `revoked` was revoked.  Dropping anything latches a
/// topology change.
pub open spec fn revoked_state(s: EngineState, revoked: Seq<Mac>) -> EngineState {
    EngineState {
        routes: routes_without_all(s.routes, revoked),
        topology_changed: s.topology_changed || exists|k: int|
            0 <= k < revoked.len() && mentioned(s.routes, #[trigger] revoked[k]),
        ..s
    }
}

/// A list padded with `fill` to at least `n` items.
pub open spec fn padded<T>(s: Seq<T>, n: nat, fill: T) -> Seq<T> {
    Seq::new(
        if s.len() >= n {
            s.len()
        } else {
            n
        },
        |i: int|
            if i < s.len() {
                s[i]
            } else {
                fill
            },
    )
}

/// The jitter seed of a schedule: the node's address folded with the interface
/// index and a salt.
pub open spec fn jitter_seed_of(ident: Mac, idx: int, salt: u32) -> u32 {
    let o = ident.0@;
    let word = (o[2] + o[3] * 0x100 + o[4] * 0x1_0000 + o[5] * 0x100_0000) as u32;
    let step = (((idx % 0x1_0000_0000) * 0x0100_0193) % 0x1_0000_0000) as u32;
    (word ^ step) ^ salt
}

/// The listeners of a group, in table order.
pub open spec fn listeners_of(members: Seq<(Mac, Mac)>, group: Mac) -> Seq<Mac>
    decreases members.len(),
{
    if members.len() == 0 {
        Seq::empty()
    } else if members.last().0 == group {
        listeners_of(members.drop_last(), group).push(members.last().1)
    } else {
        listeners_of(members.drop_last(), group)
    }
}

/// The schedule entries of a bank of timers, by interface.
pub open spec fn schedule_of(timers: Seq<TrickleTimer>) -> Seq<OgmScheduleEntry> {
    Seq::new(
        timers.len(),
        |i: int|
            OgmScheduleEntry {
                iface_idx: i as usize,
                current_interval: timers[i].interval,
                min_interval: timers[i].i_min,
                max_interval: timers[i].i_max,
            },
    )
}

/// The octets of a list of groups, back to back.
pub open spec fn group_octets(groups: Seq<Mac>) -> Seq<u8>
    decreases groups.len(),
{
    if groups.len() == 0 {
        Seq::empty()
    } else {
        group_octets(groups.drop_last()) + groups.last().0@
    }
}

/// How many bytes announcing `n` groups takes: nothing for none.
pub open spec fn announcement_len(n: nat) -> nat {
    if n == 0 {
        0
    } else {
        TVLV_HDR_LEN as nat + 6 * n
    }
}

/// The multicast announcement of a node: one record listing its groups, or
/// nothing where it has joined none.
pub open spec fn announcement(groups: Seq<Mac>) -> Seq<u8> {
    if groups.len() == 0 {
        Seq::empty()
    } else {
        BatmanTvlvHdr {
            tvlv_type: TvlvType::Mcast.byte(),
            version: 1,
            len: ((6 * groups.len()) % 0x1_0000) as u16,
        }.bytes() + group_octets(groups)
    }
}

/// The OGM a node originates.
pub open spec fn own_ogm(s: EngineState) -> Seq<u8> {
    BatmanOgmPacket {
        packet_type: BATADV_IV_OGM,
        version: 5,
        ttl: 50,
        flags: 0,
        seqno: s.sequence_number,
        orig: s.self_ident,
        reserved: 0,
        tq: 255,
        tvlv_len: (announcement_len(s.local_mcast.len()) % 0x1_0000) as u16,
    }.bytes() + announcement(s.local_mcast)
}

/// The state after a periodic tick: aged routes dropped, a topology change acted
/// on, the next sequence number taken.
pub open spec fn ticked(s: EngineState, now: Duration) -> EngineState {
    let t = settled(purged(s, now), now);
    EngineState {
        sequence_number: if t.sequence_number == u32::MAX {
            0
        } else {
            (t.sequence_number + 1) as u32
        },
        ..t
    }
}

/// What a received frame leads to.
pub open spec fn rx_step(
    s: EngineState,
    caps: Capacities,
    now: Duration,
    src: Mac,
    dst: Mac,
    protocol: u16,
    payload: Seq<u8>,
    local_quality: Option<u8>,
    reply: Reply,
) -> Step {
    if protocol != ETH_P_BATMAN || payload.len() == 0 {
        Step { state: s, action: RoutingAction::Consumed, reply }
    } else if payload[0] == BATADV_IV_OGM {
        ogm_step(s, caps, now, src, payload, local_quality, reply)
    } else if payload[0] == BATADV_BCAST {
        broadcast_step(s, caps, payload, reply)
    } else if payload[0] == BATADV_UNICAST || payload[0] == BATADV_MCAST || payload[0]
        == BATADV_CERT_REQ || payload[0] == BATADV_CERT_REPLY {
        directed_step(s, now, payload, reply)
    } else if payload[0] == BATADV_KEEPALIVE {
        keepalive_step(s, caps, now, src, payload, reply)
    } else {
        Step { state: s, action: by_dest_action(s, now, dst), reply }
    }
}

} // verus!
