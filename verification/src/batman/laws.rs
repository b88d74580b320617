//! What the routing protocol promises across events.

use vstd::prelude::*;

use crate::batman::model::after_ogm;
use crate::batman::model::announced_groups;
use crate::batman::model::announcement;
use crate::batman::model::announcement_len;
use crate::batman::model::attenuated;
use crate::batman::model::backed;
use crate::batman::model::best_live_path;
use crate::batman::model::broadcast_step;
use crate::batman::model::choosing_backs_route;
use crate::batman::model::directed_step;
use crate::batman::model::first_path;
use crate::batman::model::group_octets;
use crate::batman::model::groups_of;
use crate::batman::model::highest_path_is_highest;
use crate::batman::model::jitter_seed_of;
use crate::batman::model::keepalive_step;
use crate::batman::model::learned;
use crate::batman::model::listed_groups;
use crate::batman::model::live_hop;
use crate::batman::model::missed_keepalive;
use crate::batman::model::offers;
use crate::batman::model::ogm_step;
use crate::batman::model::oldest_heartbeat;
use crate::batman::model::oldest_route;
use crate::batman::model::own_ogm;
use crate::batman::model::padded;
use crate::batman::model::paths_after;
use crate::batman::model::place;
use crate::batman::model::place_is;
use crate::batman::model::reflooded_ogm;
use crate::batman::model::rx_step;
use crate::batman::model::schedule_of;
use crate::batman::model::with_route;
use crate::batman::model::Capacities;
use crate::batman::model::EngineState;
use crate::batman::model::Reply;
use crate::batman::model::Step;
use crate::batman::receive::first_path_is_one;
use crate::batman::tables::ogm_seed;
use crate::batman::tables::path_is_stale;
use crate::batman::tables::NeighborStats;
use crate::batman::tables::Route;
use crate::batman::trickle::jitter_in_window;
use crate::batman::trickle::reset_is_aggressive;
use crate::batman::trickle::xorshift32;
use crate::batman::trickle::TrickleTimer;
use crate::batman::wire::tvlv_values;
use crate::batman::wire::BatmanBroadcastPacket;
use crate::batman::wire::BatmanOgmPacket;
use crate::batman::wire::TvlvType;
use crate::batman::wire::BATADV_BCAST;
use crate::batman::wire::BATADV_IV_OGM;
use crate::batman::wire::BATADV_MCAST;
use crate::batman::wire::BATADV_UNICAST;
use crate::batman::wire::BROADCAST_LEN;
use crate::batman::wire::DIRECTED_LEN;
use crate::batman::wire::ETH_P_BATMAN;
use crate::batman::wire::KEEPALIVE_LEN;
use crate::batman::wire::OGM_LEN;
use crate::bounded::distinct_keys;
use crate::bounded::has_key;
use crate::bounded::swap_removed;
use crate::bounded::swap_removed_keeps_distinct;
use crate::codec::be16;
use crate::codec::be16_reads_back;
use crate::codec::be32;
use crate::codec::be32_reads_back;
use crate::frame::mac_at;
use crate::frame::same_octets;
use crate::frame::Mac;
use crate::routing::RoutingAction;
use crate::select::first_least_is_least;
use crate::time::Duration;

verus! {

/// A node never acts on its own OGM or broadcast coming back: nothing is
/// learned, nothing is sent, nothing is delivered.
pub proof fn own_messages_are_dropped(
    s: EngineState,
    caps: Capacities,
    now: Duration,
    src: Mac,
    dst: Mac,
    payload: Seq<u8>,
    local_quality: Option<u8>,
    reply: Reply,
)
    requires
        payload.len() > 0,
        (payload[0] == BATADV_IV_OGM && payload.len() >= OGM_LEN && mac_at(payload, 8)
            == s.self_ident) || (payload[0] == BATADV_BCAST && payload.len() >= BROADCAST_LEN
            && mac_at(payload, 7) == s.self_ident),
    ensures
        rx_step(s, caps, now, src, dst, ETH_P_BATMAN, payload, local_quality, reply) == (Step {
            state: s,
            action: RoutingAction::Consumed,
            reply,
        }),
{
}

/// A frame of another protocol, or without a payload, changes nothing.
pub proof fn foreign_frames_are_ignored(
    s: EngineState,
    caps: Capacities,
    now: Duration,
    src: Mac,
    dst: Mac,
    protocol: u16,
    payload: Seq<u8>,
    local_quality: Option<u8>,
    reply: Reply,
)
    requires
        protocol != ETH_P_BATMAN || payload.len() == 0,
    ensures
        rx_step(s, caps, now, src, dst, protocol, payload, local_quality, reply) == (Step {
            state: s,
            action: RoutingAction::Consumed,
            reply,
        }),
{
}

/// The newest sequence number on record for an originator.
pub open spec fn newest_seqno(s: EngineState, orig: Mac) -> u32 {
    if has_key(s.routes, orig) {
        s.routes[place(s.routes, orig)].1.last_seqno
    } else {
        0
    }
}

/// An OGM older than the newest seen from its originator teaches nothing and is
/// not sent on.
pub proof fn stale_ogm_teaches_nothing(
    s: EngineState,
    caps: Capacities,
    now: Duration,
    src: Mac,
    dst: Mac,
    payload: Seq<u8>,
    local_quality: Option<u8>,
    reply: Reply,
)
    requires
        payload.len() >= OGM_LEN,
        payload[0] == BATADV_IV_OGM,
        BatmanOgmPacket::parsed(payload).seqno < newest_seqno(s, mac_at(payload, 8)),
    ensures
        ({
            let step = rx_step(
                s,
                caps,
                now,
                src,
                dst,
                ETH_P_BATMAN,
                payload,
                local_quality,
                reply,
            );
            &&& step.state.routes == s.routes
            &&& step.state.mcast_members == s.mcast_members
            &&& step.action == RoutingAction::Consumed
            &&& step.reply == reply
        }),
{
}

/// The oldest entry of a full table is one of its entries.
pub(crate) proof fn oldest_is_one(routes: Seq<(Mac, Route)>)
    requires
        routes.len() > 0,
    ensures
        0 <= oldest_route(routes) < routes.len(),
{
    first_least_is_least(routes.map_values(|e: (Mac, Route)| e.1.last_heard.nanos as int));
}

/// The place of the originator of an accepted OGM, and what stands there.
pub(crate) proof fn accepted_route(
    s: EngineState,
    caps: Capacities,
    now: Duration,
    src: Mac,
    payload: Seq<u8>,
    tq: u8,
)
    requires
        distinct_keys(s.routes),
        caps.originators > 1,
    ensures
        ({
            let ogm = BatmanOgmPacket::parsed(payload);
            let t = after_ogm(s, caps, now, src, payload, tq);
            let routes = with_route(s.routes, caps.originators, ogm.orig, src, now);
            let at = place(routes, ogm.orig);
            &&& has_key(t.routes, ogm.orig)
            &&& distinct_keys(t.routes)
            &&& place(t.routes, ogm.orig) == at
            &&& 0 <= at < t.routes.len()
            &&& routes[at].0 == ogm.orig
            &&& t.routes[at].1 == learned(routes[at].1, src, ogm.seqno, tq, now)
        }),
{
    let ogm = BatmanOgmPacket::parsed(payload);
    let routes = with_route(s.routes, caps.originators, ogm.orig, src, now);
    let t = after_ogm(s, caps, now, src, payload, tq);
    if has_key(s.routes, ogm.orig) {
        let p = place(s.routes, ogm.orig);
        assert(0 <= p < s.routes.len() && s.routes[p].0 == ogm.orig);
        place_is(routes, ogm.orig, p);
    } else {
        let kept = if s.routes.len() >= caps.originators {
            swap_removed(s.routes, oldest_route(s.routes))
        } else {
            s.routes
        };
        if s.routes.len() >= caps.originators {
            oldest_is_one(s.routes);
            swap_removed_keeps_distinct(s.routes, oldest_route(s.routes));
            assert forall|i: int| 0 <= i < kept.len() implies (#[trigger] kept[i]).0
                != ogm.orig by {
                let j = if i == oldest_route(s.routes) { s.routes.len() - 1 } else { i };
                assert(kept[i] == s.routes[j]);
            }
        } else {
            assert forall|i: int| 0 <= i < kept.len() implies (#[trigger] kept[i]).0
                != ogm.orig by {
                assert(kept[i] == s.routes[i]);
            }
        }
        assert forall|a: int, b: int| 0 <= a < b < routes.len() implies (#[trigger] routes[a]).0
            != (#[trigger] routes[b]).0 by {
            assert(routes[a] == kept[a]);
            if b < kept.len() {
                assert(routes[b] == kept[b]);
            }
        }
        place_is(routes, ogm.orig, routes.len() - 1);
    }
    let at = place(routes, ogm.orig);
    assert forall|a: int, b: int| 0 <= a < b < t.routes.len() implies (#[trigger] t.routes[a]).0
        != (#[trigger] t.routes[b]).0 by {
        assert(t.routes[a].0 == routes[a].0 && t.routes[b].0 == routes[b].0);
    }
    place_is(t.routes, ogm.orig, at);
}

/// An OGM with no hop left to live is never re-flooded.
pub proof fn expired_ogm_is_not_reflooded(
    s: EngineState,
    caps: Capacities,
    now: Duration,
    src: Mac,
    payload: Seq<u8>,
    local_quality: Option<u8>,
    reply: Reply,
)
    requires
        payload.len() >= OGM_LEN,
        BatmanOgmPacket::parsed(payload).ttl <= 1,
    ensures
        ogm_step(s, caps, now, src, payload, local_quality, reply).reply == reply,
{
}

/// A re-flooded OGM differs from the one received in its hops to live, one fewer,
/// and its quality; originator, sequence number and TVLV region stay as they
/// came.
pub proof fn reflood_keeps_the_message(payload: Seq<u8>, tq: u8)
    requires
        payload.len() >= OGM_LEN,
        BatmanOgmPacket::parsed(payload).ttl > 1,
        OGM_LEN + BatmanOgmPacket::parsed(payload).tvlv_len <= payload.len(),
    ensures
        ({
            let ogm = BatmanOgmPacket::parsed(payload);
            let out = reflooded_ogm(payload, tq);
            let end = OGM_LEN + ogm.tvlv_len;
            &&& BatmanOgmPacket::parsed(out) == (BatmanOgmPacket {
                ttl: (ogm.ttl - 1) as u8,
                tq,
                ..ogm
            })
            &&& out.subrange(OGM_LEN as int, out.len() as int) == payload.subrange(
                OGM_LEN as int,
                end,
            )
        }),
{
    let ogm = BatmanOgmPacket::parsed(payload);
    let out = reflooded_ogm(payload, tq);
    let sent = BatmanOgmPacket { ttl: (ogm.ttl - 1) as u8, tq, ..ogm };
    assert(out.subrange(4, 8) =~= be32(sent.seqno));
    be32_reads_back(sent.seqno, out, 4);
    assert(out.subrange(8, 14) =~= sent.orig.0@);
    assert(mac_at(out, 8).0@ =~= out.subrange(8, 14));
    same_octets(mac_at(out, 8), sent.orig);
    assert(out.subrange(16, 18) =~= be16(sent.tvlv_len));
    be16_reads_back(sent.tvlv_len, out, 16);
    assert(out.subrange(OGM_LEN as int, out.len() as int) =~= payload.subrange(
        OGM_LEN as int,
        OGM_LEN + ogm.tvlv_len,
    ));
}

/// An originator just heard via a neighbor has a live route: the first time, via
/// that neighbor.
pub proof fn heard_is_routable(
    s: EngineState,
    caps: Capacities,
    now: Duration,
    src: Mac,
    payload: Seq<u8>,
    local_quality: Option<u8>,
    reply: Reply,
)
    requires
        s.wf(caps),
        caps.originators > 1,
        payload.len() >= OGM_LEN,
        BatmanOgmPacket::parsed(payload).orig != s.self_ident,
        !has_key(s.routes, BatmanOgmPacket::parsed(payload).orig),
    ensures
        live_hop(
            ogm_step(s, caps, now, src, payload, local_quality, reply).state,
            now,
            BatmanOgmPacket::parsed(payload).orig,
        ) == Some(src),
{
    let ogm = BatmanOgmPacket::parsed(payload);
    let tq = attenuated(ogm.tq, local_quality);
    accepted_route(s, caps, now, src, payload, tq);
    let t = ogm_step(s, caps, now, src, payload, local_quality, reply).state;
    let learnt = after_ogm(s, caps, now, src, payload, tq);
    assert(t.routes == learnt.routes);
    let routes = with_route(s.routes, caps.originators, ogm.orig, src, now);
    let at = place(routes, ogm.orig);
    assert(at == routes.len() - 1) by {
        let kept = if s.routes.len() >= caps.originators {
            swap_removed(s.routes, oldest_route(s.routes))
        } else {
            s.routes
        };
        if s.routes.len() >= caps.originators {
            oldest_is_one(s.routes);
        }
        assert(routes == kept.push(routes.last()));
        assert(0 <= at < routes.len());
        if at < kept.len() {
            assert(routes[at] == kept[at]);
            if s.routes.len() >= caps.originators {
                let j = if at == oldest_route(s.routes) { s.routes.len() - 1 } else { at };
                assert(kept[at] == s.routes[j]);
                assert(s.routes[j].0 != ogm.orig);
            } else {
                assert(kept[at] == s.routes[at]);
                assert(s.routes[at].0 != ogm.orig);
            }
        }
    }
    let paths = t.routes[at].1.paths;
    let none = Seq::<NeighborStats>::empty();
    assert(routes[at].1.paths == none);
    assert(first_path(none, src) is None);
    assert(paths.len() == 1 && paths[0].neighbor_ident == src && paths[0].last_heard == now);
    assert(paths.drop_last().len() == 0);
    assert(best_live_path(t, now, paths.drop_last()) is None);
    assert(!path_is_stale(now, paths[0], ogm_seed(t.ogm_timers)));
    assert(best_live_path(t, now, paths) == Some(0int));
}

/// No path is recorded better than the link it came in on, nor better than ten
/// below what was advertised.
pub proof fn quality_is_clamped(advertised: u8, local_quality: Option<u8>)
    ensures
        local_quality matches Some(local) ==> attenuated(advertised, local_quality) <= local,
        attenuated(advertised, local_quality) <= advertised,
        advertised >= 10 ==> attenuated(advertised, local_quality) <= advertised - 10,
{
}

/// A copy of an OGM no better than the best known path, heard via another
/// neighbor, does not displace the next hop.
pub proof fn equal_quality_does_not_displace(
    r: Route,
    src: Mac,
    seqno: u32,
    tq: u8,
    now: Duration,
)
    requires
        backed(r),
        r.paths.len() > 0,
        src != r.best_next_hop,
        tq <= r.max_tq,
    ensures
        learned(r, src, seqno, tq, now).best_next_hop == r.best_next_hop,
        learned(r, src, seqno, tq, now).max_tq == r.max_tq,
{
    let paths = paths_after(r.paths, src, seqno, tq, now);
    let i = choose|i: int|
        0 <= i < r.paths.len() && (#[trigger] r.paths[i]).neighbor_ident == r.best_next_hop
            && r.paths[i].last_tq == r.max_tq;
    first_path_is_one(r.paths, src);
    assert(paths[i] == r.paths[i]);
    assert forall|j: int| 0 <= j < paths.len() implies (#[trigger] paths[j]).last_tq
        <= r.max_tq by {
        if j < r.paths.len() {
            assert(r.paths[j].last_tq <= r.max_tq);
        }
    }
    highest_path_is_highest(paths);
    assert(offers(paths, r.best_next_hop, r.max_tq));
}

/// An accepted OGM leaves its originator with the highest quality among all known
/// paths, and with a neighbor whose path has just that quality.
pub proof fn learning_follows_the_best_path(
    r: Route,
    src: Mac,
    seqno: u32,
    tq: u8,
    now: Duration,
)
    ensures
        learned(r, src, seqno, tq, now).paths == paths_after(r.paths, src, seqno, tq, now),
        backed(learned(r, src, seqno, tq, now)),
{
    let paths = paths_after(r.paths, src, seqno, tq, now);
    choosing_backs_route(Route { last_heard: now, last_seqno: seqno, paths, ..r });
}

/// An OGM that makes its originator known, changes the next hop toward it, or
/// changes the set of its groups resets every OGM schedule: back to the smallest
/// interval, with the next fire in its upper half.
pub proof fn change_resets_schedules(
    s: EngineState,
    caps: Capacities,
    now: Duration,
    src: Mac,
    payload: Seq<u8>,
    local_quality: Option<u8>,
    reply: Reply,
    i: int,
)
    requires
        s.wf(caps),
        s.can_reset(now),
        caps.originators > 1,
        payload.len() >= OGM_LEN,
        ({
            let orig = BatmanOgmPacket::parsed(payload).orig;
            let t = ogm_step(s, caps, now, src, payload, local_quality, reply).state;
            &&& orig != s.self_ident
            &&& BatmanOgmPacket::parsed(payload).seqno >= newest_seqno(s, orig)
            &&& !has_key(s.routes, orig) || t.routes[place(t.routes, orig)].1.best_next_hop
                != s.routes[place(s.routes, orig)].1.best_next_hop || groups_of(
                t.mcast_members,
                orig,
            ).to_set() != groups_of(s.mcast_members, orig).to_set()
        }),
        0 <= i < s.ogm_timers.len(),
    ensures
        ({
            let before = s.ogm_timers[i];
            let t = ogm_step(s, caps, now, src, payload, local_quality, reply).state;
            let after = t.ogm_timers[i];
            &&& t.ogm_timers.len() == s.ogm_timers.len()
            &&& after.interval == before.i_min
            &&& after.i_min == before.i_min
            &&& after.i_max == before.i_max
            &&& now.nanos + before.i_min.nanos / 2 <= after.next_fire.nanos < now.nanos
                + before.i_min.nanos
        }),
{
    let tq = attenuated(BatmanOgmPacket::parsed(payload).tq, local_quality);
    accepted_route(s, caps, now, src, payload, tq);
    let learnt = after_ogm(s, caps, now, src, payload, tq);
    assert(learnt.topology_changed);
    assert(s.ogm_timers[i].wf());
    reset_is_aggressive(s.ogm_timers[i], now);
}

/// A broadcast with no hop left is delivered but not re-flooded.
pub proof fn expired_broadcast_is_only_delivered(
    s: EngineState,
    caps: Capacities,
    payload: Seq<u8>,
    reply: Reply,
)
    requires
        payload.len() >= BROADCAST_LEN,
        BatmanBroadcastPacket::parsed(payload).ttl <= 1,
    ensures
        broadcast_step(s, caps, payload, reply).reply == reply,
        broadcast_step(s, caps, payload, reply).action == RoutingAction::Consumed
            || broadcast_step(s, caps, payload, reply).action == RoutingAction::DeliverLocal,
{
}

/// A keep-alive is never forwarded and never delivered, and changes nothing but
/// the heartbeats.
pub proof fn keepalive_is_link_local(
    s: EngineState,
    caps: Capacities,
    now: Duration,
    src: Mac,
    payload: Seq<u8>,
    reply: Reply,
)
    ensures
        ({
            let step = keepalive_step(s, caps, now, src, payload, reply);
            &&& step.action == RoutingAction::Consumed
            &&& step.reply == reply
            &&& step.state == (EngineState { keepalive: step.state.keepalive, ..s })
        }),
{
}

/// A neighbor no keep-alive was ever heard from never misses one.
pub proof fn silence_is_not_held_against(s: EngineState, now: Duration, neighbor: Mac)
    requires
        !has_key(s.keepalive, neighbor),
    ensures
        !missed_keepalive(s, now, neighbor),
{
}

/// A fresh heartbeat clears any miss at once.
pub proof fn heartbeat_heals(
    s: EngineState,
    caps: Capacities,
    now: Duration,
    src: Mac,
    payload: Seq<u8>,
    reply: Reply,
)
    requires
        s.wf(caps),
        caps.originators > 1,
        payload.len() >= KEEPALIVE_LEN,
        src != s.self_ident,
    ensures
        ({
            let t = keepalive_step(s, caps, now, src, payload, reply).state;
            &&& has_key(t.keepalive, src)
            &&& !missed_keepalive(t, now, src)
        }),
{
    let k = s.keepalive;
    let t = keepalive_step(s, caps, now, src, payload, reply).state.keepalive;
    if has_key(k, src) {
        let at = place(k, src);
        assert(0 <= at < k.len() && k[at].0 == src);
        assert forall|a: int, b: int| 0 <= a < b < t.len() implies (#[trigger] t[a]).0 != (
        #[trigger] t[b]).0 by {
            assert(t[a].0 == k[a].0 && t[b].0 == k[b].0);
        }
        place_is(t, src, at);
    } else {
        let kept = if k.len() >= caps.originators {
            swap_removed(k, oldest_heartbeat(k))
        } else {
            k
        };
        if k.len() >= caps.originators {
            first_least_is_least(
                k.map_values(
                    |e: (Mac, crate::batman::tables::KeepAliveStats)|
                        e.1.last_heard.nanos as int,
                ),
            );
            swap_removed_keeps_distinct(k, oldest_heartbeat(k));
            assert forall|i: int| 0 <= i < kept.len() implies (#[trigger] kept[i]).0 != src by {
                let j = if i == oldest_heartbeat(k) { k.len() - 1 } else { i };
                assert(kept[i] == k[j]);
            }
        } else {
            assert forall|i: int| 0 <= i < kept.len() implies (#[trigger] kept[i]).0 != src by {
                assert(kept[i] == k[i]);
            }
        }
        assert forall|a: int, b: int| 0 <= a < b < t.len() implies (#[trigger] t[a]).0 != (
        #[trigger] t[b]).0 by {
            assert(t[a] == kept[a]);
            if b < kept.len() {
                assert(t[b] == kept[b]);
            }
        }
        place_is(t, src, t.len() - 1);
    }
}

/// A packet addressed to this node is delivered whatever its hops to live, and
/// one for another node with none left is dropped unsent.
pub proof fn directed_delivery_and_expiry(
    s: EngineState,
    now: Duration,
    payload: Seq<u8>,
    reply: Reply,
)
    requires
        payload.len() >= 9,
    ensures
        mac_at(payload, 3) == s.self_ident ==> directed_step(s, now, payload, reply) == (Step {
            state: s,
            action: RoutingAction::DeliverLocal,
            reply,
        }),
        mac_at(payload, 3) != s.self_ident && payload[2] <= 1 ==> directed_step(
            s,
            now,
            payload,
            reply,
        ) == (Step { state: s, action: RoutingAction::Consumed, reply }),
{
}

/// A multicast packet is handled as the unicast packet that differs from it in the
/// type byte alone: same decision, same state, and the same reply but for that
/// byte where a relay was written.
pub proof fn multicast_is_handled_as_unicast(
    s: EngineState,
    caps: Capacities,
    now: Duration,
    src: Mac,
    dst: Mac,
    payload: Seq<u8>,
    local_quality: Option<u8>,
    reply: Reply,
)
    requires
        payload.len() > 0,
        payload[0] == BATADV_UNICAST,
    ensures
        ({
            let unicast = rx_step(
                s,
                caps,
                now,
                src,
                dst,
                ETH_P_BATMAN,
                payload,
                local_quality,
                reply,
            );
            let multicast = rx_step(
                s,
                caps,
                now,
                src,
                dst,
                ETH_P_BATMAN,
                payload.update(0, BATADV_MCAST),
                local_quality,
                reply,
            );
            let relayed = payload.len() >= DIRECTED_LEN && mac_at(payload, 3) != s.self_ident
                && payload[2] > 1 && live_hop(s, now, mac_at(payload, 3)) is Some
                && payload.len() <= reply.payload.len();
            &&& multicast.action == unicast.action
            &&& multicast.state == unicast.state
            &&& multicast.reply == (if relayed {
                Reply { payload: unicast.reply.payload.update(0, BATADV_MCAST), ..unicast.reply }
            } else {
                unicast.reply
            })
        }),
{
    let other = payload.update(0, BATADV_MCAST);
    let unicast = directed_step(s, now, payload, reply);
    let multicast = directed_step(s, now, other, reply);
    if payload.len() >= DIRECTED_LEN {
        assert(other.subrange(3, 9) =~= payload.subrange(3, 9));
        assert(mac_at(other, 3) == mac_at(payload, 3));
        assert(other.subrange(DIRECTED_LEN as int, other.len() as int) =~= payload.subrange(
            DIRECTED_LEN as int,
            payload.len() as int,
        ));
        if payload.len() <= reply.payload.len() {
            assert(multicast.reply.payload =~= unicast.reply.payload || multicast.reply.payload
                =~= unicast.reply.payload.update(0, BATADV_MCAST));
        }
    }
}

/// The groups listed in a list of octets are the groups it was made from.
proof fn octets_list_groups(groups: Seq<Mac>)
    ensures
        group_octets(groups).len() == 6 * groups.len(),
        listed_groups(group_octets(groups)) == groups,
    decreases groups.len(),
{
    let octets = group_octets(groups);
    if groups.len() > 0 {
        let front = groups.drop_last();
        octets_list_groups(front);
        let shorter = group_octets(front);
        assert forall|i: int| 0 <= i < groups.len() implies #[trigger] listed_groups(octets)[i]
            == groups[i] by {
            if i < front.len() {
                assert(listed_groups(shorter)[i] == front[i]);
                assert(mac_at(shorter, 6 * i) == mac_at(octets, 6 * i));
            } else {
                assert(mac_at(octets, 6 * i).0@ =~= groups.last().0@);
                same_octets(mac_at(octets, 6 * i), groups.last());
            }
        }
        assert(listed_groups(octets) =~= groups);
    } else {
        assert(listed_groups(octets) =~= groups);
    }
}

/// A node's OGM announces exactly the groups its host has joined: whoever reads
/// its TVLV region finds them, in order.
pub proof fn own_ogm_announces_groups(s: EngineState)
    requires
        announcement_len(s.local_mcast.len()) <= 0xffff,
    ensures
        announced_groups(own_ogm(s).subrange(OGM_LEN as int, own_ogm(s).len() as int))
            == s.local_mcast,
        BatmanOgmPacket::parsed(own_ogm(s)).orig == s.self_ident,
        BatmanOgmPacket::parsed(own_ogm(s)).seqno == s.sequence_number,
        BatmanOgmPacket::parsed(own_ogm(s)).tvlv_len == own_ogm(s).len() - OGM_LEN,
{
    let whole = own_ogm(s);
    let groups = s.local_mcast;
    let tail = announcement(groups);
    octets_list_groups(groups);
    assert(whole.subrange(OGM_LEN as int, whole.len() as int) =~= tail);
    assert(whole.subrange(4, 8) =~= be32(s.sequence_number));
    be32_reads_back(s.sequence_number, whole, 4);
    assert(mac_at(whole, 8).0@ =~= s.self_ident.0@);
    same_octets(mac_at(whole, 8), s.self_ident);
    let tvlv_len = announcement_len(groups.len()) as u16;
    assert(whole.subrange(16, 18) =~= be16(tvlv_len));
    be16_reads_back(tvlv_len, whole, 16);
    if groups.len() == 0 {
        assert(tail =~= Seq::<u8>::empty());
        assert(tvlv_values(tail, TvlvType::Mcast.byte(), 0) =~= Seq::<Seq<u8>>::empty());
        assert(announced_groups(tail) =~= groups);
    } else {
        let n = (6 * groups.len()) as u16;
        assert(tail.subrange(2, 4) =~= be16(n));
        be16_reads_back(n, tail, 2);
        assert(tail.subrange(4, 4 + n) =~= group_octets(groups));
        assert(tvlv_values(tail, TvlvType::Mcast.byte(), 4 + n) =~= Seq::<Seq<u8>>::empty());
        assert(tvlv_values(tail, TvlvType::Mcast.byte(), 0)[0] == group_octets(groups));
    }
}

/// A schedule whose interval is at least two nanoseconds is no longer due at the
/// instant it emitted, so serving every due schedule ends.
pub proof fn emission_clears_due(t: TrickleTimer, now: Duration)
    requires
        t.wf(),
        t.interval.nanos >= 2,
        TrickleTimer::in_range(now, t.interval),
    ensures
        now.nanos < t.emitted(now).next_fire.nanos,
{
    jitter_in_window(xorshift32(t.rng), t.interval);
}

/// Making room for more schedules keeps those there are.
pub proof fn padding_keeps_what_is_there<T>(s: Seq<T>, n: nat, fill: T, i: int)
    ensures
        padded(s, n, fill).len() >= s.len(),
        padded(s, n, fill).len() >= n,
        padded(s, n, fill).len() == s.len() || padded(s, n, fill).len() == n,
        0 <= i < s.len() ==> padded(s, n, fill)[i] == s[i],
        s.len() <= i < n ==> padded(s, n, fill)[i] == fill,
{
}

/// Two nodes whose addresses differ in their last four octets draw their waits
/// from different seeds on the same interface, and one interface's OGMs and
/// keep-alives draw theirs from different seeds too.
pub proof fn seeds_differ(a: Mac, b: Mac, idx: int, salt: u32, other: u32)
    ensures
        a.0@.subrange(2, 6) != b.0@.subrange(2, 6) ==> jitter_seed_of(a, idx, salt)
            != jitter_seed_of(b, idx, salt),
        salt != other ==> jitter_seed_of(a, idx, salt) != jitter_seed_of(a, idx, other),
{
    let x = a.0@;
    let y = b.0@;
    let wa = (x[2] + x[3] * 0x100 + x[4] * 0x1_0000 + x[5] * 0x100_0000) as u32;
    let wb = (y[2] + y[3] * 0x100 + y[4] * 0x1_0000 + y[5] * 0x100_0000) as u32;
    let step = (((idx % 0x1_0000_0000) * 0x0100_0193) % 0x1_0000_0000) as u32;
    folding_keeps_apart(wa, wb, step, salt, other);
    if wa == wb {
        word_tells_octets(x[2], x[3], x[4], x[5], y[2], y[3], y[4], y[5]);
        assert(x.subrange(2, 6) =~= y.subrange(2, 6));
    }
}

/// Two interfaces of one node draw their waits from different seeds.
pub proof fn interfaces_draw_apart(ident: Mac, i: int, j: int, salt: u32)
    requires
        0 <= i < 0x1_0000_0000,
        0 <= j < 0x1_0000_0000,
        i != j,
    ensures
        jitter_seed_of(ident, i, salt) != jitter_seed_of(ident, j, salt),
{
    let turn = 0x1_0000_0000int;
    let o = ident.0@;
    let word = (o[2] + o[3] * 0x100 + o[4] * 0x1_0000 + o[5] * 0x100_0000) as u32;
    let a = ((i * 0x0100_0193) % turn) as u32;
    let b = ((j * 0x0100_0193) % turn) as u32;
    vstd::arithmetic::div_mod::lemma_small_mod(i as nat, turn as nat);
    vstd::arithmetic::div_mod::lemma_small_mod(j as nat, turn as nat);
    multiple_tells_the_factor(i);
    multiple_tells_the_factor(j);
    assert(a != b);
    assert(a != b ==> (word ^ a) ^ salt != (word ^ b) ^ salt) by (bit_vector);
}

/// A number below the turn is told by its multiple, taken round.
proof fn multiple_tells_the_factor(i: int)
    requires
        0 <= i < 0x1_0000_0000,
    ensures
        i == (((i * 0x0100_0193) % 0x1_0000_0000) * 899433627) % 0x1_0000_0000,
{
    let turn = 0x1_0000_0000int;
    let m = i * 0x0100_0193;
    vstd::arithmetic::div_mod::lemma_mul_mod_noop_left(m, 899433627, turn);
    assert(m * 899433627 == i + turn * (i * 3513497)) by (nonlinear_arith)
        requires
            m == i * 0x0100_0193,
            turn == 0x1_0000_0000int,
    ;
    vstd::arithmetic::div_mod::lemma_mod_multiples_vanish(i * 3513497, i, turn);
    vstd::arithmetic::div_mod::lemma_small_mod(i as nat, turn as nat);
}

/// Four octets are told by the word they make.
proof fn word_tells_octets(a: u8, b: u8, c: u8, d: u8, e: u8, f: u8, g: u8, h: u8)
    requires
        a + b * 0x100 + c * 0x1_0000 + d * 0x100_0000 == e + f * 0x100 + g * 0x1_0000 + h
            * 0x100_0000,
    ensures
        a == e && b == f && c == g && d == h,
{
    let x = b + c * 0x100 + d * 0x1_0000;
    let y = f + g * 0x100 + h * 0x1_0000;
    parts_are_told(x, a as int, y, e as int);
    let x = c + d * 0x100;
    let y = g + h * 0x100;
    parts_are_told(x, b as int, y, f as int);
    parts_are_told(d as int, c as int, h as int, g as int);
}

/// A number is told into what is below a byte and what is above.
proof fn parts_are_told(hi: int, lo: int, hi2: int, lo2: int)
    requires
        0 <= lo < 0x100,
        0 <= lo2 < 0x100,
        hi * 0x100 + lo == hi2 * 0x100 + lo2,
    ensures
        hi == hi2,
        lo == lo2,
{
    let n = hi * 0x100 + lo;
    vstd::arithmetic::div_mod::lemma_fundamental_div_mod_converse(n, 0x100, hi, lo);
    vstd::arithmetic::div_mod::lemma_fundamental_div_mod_converse(n, 0x100, hi2, lo2);
}

/// Folding a word with the same others keeps different words apart.
proof fn folding_keeps_apart(a: u32, b: u32, step: u32, salt: u32, other: u32)
    ensures
        a != b ==> (a ^ step) ^ salt != (b ^ step) ^ salt,
        salt != other ==> (a ^ step) ^ salt != (a ^ step) ^ other,
{
    assert(a != b ==> (a ^ step) ^ salt != (b ^ step) ^ salt) by (bit_vector);
    assert(salt != other ==> (a ^ step) ^ salt != (a ^ step) ^ other) by (bit_vector);
}

/// A schedule is reported for every interface, in order, with its interval between
/// its bounds.
pub proof fn schedules_are_reported_in_order(timers: Seq<TrickleTimer>, i: int)
    requires
        0 <= i < timers.len() <= usize::MAX,
        timers[i].wf(),
    ensures
        ({
            let e = schedule_of(timers)[i];
            &&& schedule_of(timers).len() == timers.len()
            &&& e.iface_idx == i
            &&& e.min_interval.nanos <= e.current_interval.nanos <= e.max_interval.nanos
            &&& e.current_interval == timers[i].interval
            &&& e.max_interval == timers[i].i_max
            &&& e.min_interval == timers[i].i_min
        }),
{
}

/// A node that has learned nothing reaches nobody, lists nobody for any group, has
/// nothing to announce and nothing due, and has sent nothing.
pub proof fn nothing_is_known_at_first(ident: Mac, now: Duration, d: Mac)
    ensures
        ({
            let s = EngineState::initial(ident);
            &&& s.self_ident == ident
            &&& live_hop(s, now, d) is None
            &&& !has_key(s.routes, d)
            &&& !missed_keepalive(s, now, d)
            &&& s.mcast_members.len() == 0
            &&& s.local_mcast.len() == 0
            &&& s.broadcast_seqno.len() == 0
            &&& s.sequence_number == 0
            &&& s.broadcast_sequence_number == 0
            &&& s.ogm_timers.len() == 0
            &&& s.keepalive_timers.len() == 0
            &&& !s.topology_changed
            &&& s.relay_oversize_drops == 0
        }),
{
}

} // verus!
