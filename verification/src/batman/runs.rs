//! What the routing protocol promises over whole runs of an engine.

use vstd::prelude::*;

use crate::batman::ageing::left_of;
use crate::batman::ageing::reachable_keeps_sound;
use crate::batman::ageing::routes_without_all_from;
use crate::batman::laws::accepted_route;
use crate::batman::laws::newest_seqno;
use crate::batman::laws::oldest_is_one;
use crate::batman::model::after_ogm;
use crate::batman::model::all_pruned;
use crate::batman::model::attenuated;
use crate::batman::model::first_seen;
use crate::batman::model::oldest_route;
use crate::batman::model::place;
use crate::batman::model::place_is;
use crate::batman::model::purged;
use crate::batman::model::revoked_state;
use crate::batman::model::rx_step;
use crate::batman::model::ticked;
use crate::batman::model::with_route;
use crate::batman::model::Capacities;
use crate::batman::model::EngineState;
use crate::batman::model::Reply;
use crate::batman::model::Step;
use crate::batman::tables::ogm_seed;
use crate::batman::trickle::TrickleTimer;
use crate::batman::wire::BatmanBroadcastPacket;
use crate::batman::wire::BatmanOgmPacket;
use crate::batman::wire::BATADV_BCAST;
use crate::batman::wire::BATADV_IV_OGM;
use crate::batman::wire::BROADCAST_LEN;
use crate::batman::wire::ETH_P_BATMAN;
use crate::batman::wire::OGM_LEN;
use crate::bounded::distinct_keys;
use crate::bounded::has_key;
use crate::bounded::swap_removed;
use crate::frame::Mac;
use crate::routing::RoutingAction;
use crate::time::Duration;

verus! {

/// A received frame, as it is handed to the engine.
pub struct Arrival {
    pub now: Duration,
    pub src: Mac,
    pub dst: Mac,
    pub protocol: u16,
    pub payload: Seq<u8>,
    pub local_quality: Option<u8>,
    pub reply: Reply,
}

/// What an arrival leads to.
pub open spec fn arrival_step(s: EngineState, caps: Capacities, a: Arrival) -> Step {
    rx_step(s, caps, a.now, a.src, a.dst, a.protocol, a.payload, a.local_quality, a.reply)
}

/// What can happen to an engine, short of a reset.
pub enum Event {
    /// A frame is received.
    Arrived(Arrival),
    /// The periodic broadcast is produced.
    Ticked(Duration),
    /// Aged-out routes are dropped.
    Purged(Duration),
    /// Nodes are revoked.
    Revoked(Seq<Mac>),
    /// What the local side sets changes: schedules, joined groups, the number of
    /// the last broadcast sent, the latch of a topology change.
    Managed {
        ogm_timers: Seq<TrickleTimer>,
        keepalive_timers: Seq<Option<TrickleTimer>>,
        local_mcast: Seq<Mac>,
        broadcast_sequence_number: u32,
        topology_changed: bool,
    },
}

/// The state after an event.
pub open spec fn after(s: EngineState, caps: Capacities, e: Event) -> EngineState {
    match e {
        Event::Arrived(a) => arrival_step(s, caps, a).state,
        Event::Ticked(now) => ticked(s, now),
        Event::Purged(now) => purged(s, now),
        Event::Revoked(nodes) => revoked_state(s, nodes),
        Event::Managed {
            ogm_timers,
            keepalive_timers,
            local_mcast,
            broadcast_sequence_number,
            topology_changed,
        } => EngineState {
            ogm_timers,
            keepalive_timers,
            local_mcast,
            broadcast_sequence_number,
            topology_changed,
            ..s
        },
    }
}

/// The state after a run of events.
pub open spec fn after_all(s: EngineState, caps: Capacities, events: Seq<Event>) -> EngineState
    decreases events.len(),
{
    if events.len() == 0 {
        s
    } else {
        after(after_all(s, caps, events.drop_last()), caps, events.last())
    }
}

/// Whether a broadcast of `orig` numbered `seqno` or later is on record.
pub open spec fn on_record(s: EngineState, orig: Mac, seqno: u32) -> bool {
    match first_seen(s.broadcast_seqno, orig) {
        Some(i) => seqno <= s.broadcast_seqno[i].1,
        None => false,
    }
}

/// A broadcast once on record stays on record through every event.
pub proof fn record_survives_event(
    s: EngineState,
    caps: Capacities,
    e: Event,
    orig: Mac,
    seqno: u32,
)
    requires
        on_record(s, orig, seqno),
    ensures
        on_record(after(s, caps, e), orig, seqno),
{
    if let Event::Arrived(a) = e {
        let t = after(s, caps, e);
        if a.protocol == ETH_P_BATMAN && a.payload.len() > 0 && a.payload[0] == BATADV_BCAST {
            let hdr = BatmanBroadcastPacket::parsed(a.payload);
            let seen = s.broadcast_seqno;
            seen_is_found(seen, orig, seqno);
            match first_seen(seen, hdr.orig) {
                Some(i) => {
                    seen_is_found(seen, hdr.orig, hdr.seqno);
                    if t.broadcast_seqno != seen {
                        assert(t.broadcast_seqno == seen.update(i, (hdr.orig, hdr.seqno)));
                        seen_elsewhere(seen, orig, hdr.orig, hdr.seqno, i);
                    }
                },
                None => {
                    if t.broadcast_seqno != seen {
                        let more = seen.push((hdr.orig, hdr.seqno));
                        assert(t.broadcast_seqno == more);
                        assert(more.drop_last() =~= seen);
                    }
                },
            }
        }
    }
}

/// A broadcast once on record stays on record over any run.
pub proof fn record_survives(
    s: EngineState,
    caps: Capacities,
    events: Seq<Event>,
    orig: Mac,
    seqno: u32,
)
    requires
        on_record(s, orig, seqno),
    ensures
        on_record(after_all(s, caps, events), orig, seqno),
    decreases events.len(),
{
    if events.len() > 0 {
        record_survives(s, caps, events.drop_last(), orig, seqno);
        record_survives_event(
            after_all(s, caps, events.drop_last()),
            caps,
            events.last(),
            orig,
            seqno,
        );
    }
}

/// A broadcast is delivered and re-flooded at most once: once one has been, it, or
/// an older one of the same originator, is dropped whenever it comes again, from
/// any neighbor and whatever happened in between short of a reset.  Nothing
/// changes, nothing is sent and nothing is delivered.
pub proof fn broadcast_is_taken_once(
    s: EngineState,
    caps: Capacities,
    first: Arrival,
    events: Seq<Event>,
    again: Arrival,
)
    requires
        first.protocol == ETH_P_BATMAN,
        first.payload.len() >= BROADCAST_LEN,
        first.payload[0] == BATADV_BCAST,
        !(arrival_step(s, caps, first).action is Consumed),
        again.protocol == ETH_P_BATMAN,
        again.payload.len() >= BROADCAST_LEN,
        again.payload[0] == BATADV_BCAST,
        BatmanBroadcastPacket::parsed(again.payload).orig == BatmanBroadcastPacket::parsed(
            first.payload,
        ).orig,
        BatmanBroadcastPacket::parsed(again.payload).seqno <= BatmanBroadcastPacket::parsed(
            first.payload,
        ).seqno,
    ensures
        ({
            let t = after_all(arrival_step(s, caps, first).state, caps, events);
            arrival_step(t, caps, again) == (Step {
                state: t,
                action: RoutingAction::Consumed,
                reply: again.reply,
            })
        }),
{
    let hdr = BatmanBroadcastPacket::parsed(first.payload);
    let t = arrival_step(s, caps, first).state;
    let seen = s.broadcast_seqno;
    seen_is_found(seen, hdr.orig, hdr.seqno);
    match first_seen(seen, hdr.orig) {
        Some(i) => {
            assert(t.broadcast_seqno == seen.update(i, (hdr.orig, hdr.seqno)));
        },
        None => {
            assert(t.broadcast_seqno == seen.push((hdr.orig, hdr.seqno)));
        },
    }
    record_survives(t, caps, events, hdr.orig, hdr.seqno);
}

/// While an originator stays known, the newest sequence number on record for it
/// never falls.
pub proof fn newest_never_falls(s: EngineState, caps: Capacities, e: Event, orig: Mac)
    requires
        distinct_keys(s.routes),
        caps.originators > 1,
    ensures
        distinct_keys(after(s, caps, e).routes),
        has_key(s.routes, orig) && has_key(after(s, caps, e).routes, orig) ==> newest_seqno(
            s,
            orig,
        ) <= newest_seqno(after(s, caps, e), orig),
{
    let t = after(s, caps, e);
    match e {
        Event::Arrived(a) => {
            if t.routes != s.routes {
                let ogm = BatmanOgmPacket::parsed(a.payload);
                let tq = attenuated(ogm.tq, a.local_quality);
                accepted_route(s, caps, a.now, a.src, a.payload, tq);
                assert(t.routes == after_ogm(s, caps, a.now, a.src, a.payload, tq).routes);
                if orig != ogm.orig && has_key(t.routes, orig) {
                    carried_over(s, caps, a.now, a.src, a.payload, tq, orig);
                }
            }
        },
        Event::Ticked(now) => {
            purge_carries(s, now, orig);
        },
        Event::Purged(now) => {
            purge_carries(s, now, orig);
        },
        Event::Revoked(nodes) => {
            routes_without_all_from(s.routes, nodes);
            if has_key(t.routes, orig) {
                let i = place(t.routes, orig);
                assert(0 <= i < t.routes.len() && t.routes[i].0 == orig);
                let k = choose|k: int|
                    0 <= k < s.routes.len() && left_of(#[trigger] s.routes[k], t.routes[i], nodes);
                place_is(s.routes, orig, k);
            }
        },
        Event::Managed { .. } => {},
    }
}

/// An OGM leaves what is known of every other originator as it was, unless that
/// originator was evicted.
pub(crate) proof fn carried_over(
    s: EngineState,
    caps: Capacities,
    now: Duration,
    src: Mac,
    payload: Seq<u8>,
    tq: u8,
    orig: Mac,
)
    requires
        distinct_keys(s.routes),
        caps.originators > 1,
        orig != BatmanOgmPacket::parsed(payload).orig,
        has_key(after_ogm(s, caps, now, src, payload, tq).routes, orig),
    ensures
        has_key(s.routes, orig),
        after_ogm(s, caps, now, src, payload, tq).routes[place(
            after_ogm(s, caps, now, src, payload, tq).routes,
            orig,
        )] == s.routes[place(s.routes, orig)],
{
    let heard = BatmanOgmPacket::parsed(payload).orig;
    let t = after_ogm(s, caps, now, src, payload, tq);
    let routes = with_route(s.routes, caps.originators, heard, src, now);
    accepted_route(s, caps, now, src, payload, tq);
    let at = place(routes, heard);
    let p = place(t.routes, orig);
    assert(0 <= p < t.routes.len() && t.routes[p].0 == orig);
    assert(has_key(routes, heard)) by {
        if !has_key(s.routes, heard) {
            assert(routes[routes.len() - 1].0 == heard);
        }
    }
    assert(0 <= at < routes.len());
    assert(t.routes[p] == routes[p]);
    if has_key(s.routes, heard) {
        place_is(s.routes, orig, p);
    } else {
        let full = s.routes.len() >= caps.originators;
        if full {
            oldest_is_one(s.routes);
        }
        let oldest = oldest_route(s.routes);
        let kept = if full {
            swap_removed(s.routes, oldest)
        } else {
            s.routes
        };
        assert(routes == kept.push(routes.last()));
        assert(p < kept.len() && kept[p] == routes[p]);
        let j = if full && p == oldest { s.routes.len() - 1 } else { p };
        assert(kept[p] == s.routes[j]);
        place_is(s.routes, orig, j);
    }
}

/// A purge keeps the sequence number of every originator it leaves.
proof fn purge_carries(s: EngineState, now: Duration, orig: Mac)
    requires
        distinct_keys(s.routes),
    ensures
        distinct_keys(purged(s, now).routes),
        has_key(purged(s, now).routes, orig) ==> newest_seqno(purged(s, now), orig)
            == newest_seqno(s, orig),
{
    let t = purged(s, now);
    let all = all_pruned(s.routes, now, ogm_seed(s.ogm_timers));
    assert forall|a: int, b: int| 0 <= a < b < all.len() implies (#[trigger] all[a]).0 != (
    #[trigger] all[b]).0 by {
        assert(s.routes[a].0 != s.routes[b].0);
    }
    reachable_keeps_sound(all);
    if has_key(t.routes, orig) {
        let i = place(t.routes, orig);
        assert(0 <= i < t.routes.len() && t.routes[i].0 == orig);
        let k = choose|k: int| 0 <= k < all.len() && t.routes[i] == #[trigger] all[k];
        assert(s.routes[k].0 == orig);
        place_is(s.routes, orig, k);
    }
}

/// Whether an originator is known at the start of a run and after every event of
/// it.
pub open spec fn known_throughout(
    s: EngineState,
    caps: Capacities,
    events: Seq<Event>,
    orig: Mac,
) -> bool {
    forall|k: int|
        0 <= k <= events.len() ==> has_key(
            #[trigger] after_all(s, caps, events.take(k)).routes,
            orig,
        )
}

/// Over any run through which an originator stays known, the newest sequence
/// number on record for it does not fall.
pub proof fn newest_survives(
    s: EngineState,
    caps: Capacities,
    events: Seq<Event>,
    orig: Mac,
)
    requires
        distinct_keys(s.routes),
        caps.originators > 1,
        known_throughout(s, caps, events, orig),
    ensures
        newest_seqno(s, orig) <= newest_seqno(after_all(s, caps, events), orig),
        distinct_keys(after_all(s, caps, events).routes),
        has_key(after_all(s, caps, events).routes, orig),
        after_all(s, caps, events).self_ident == s.self_ident,
    decreases events.len(),
{
    assert(events.take(events.len() as int) =~= events);
    if events.len() > 0 {
        let n = events.len() as int;
        let fewer = events.drop_last();
        assert forall|k: int| 0 <= k <= fewer.len() implies has_key(
            #[trigger] after_all(s, caps, fewer.take(k)).routes,
            orig,
        ) by {
            assert(fewer.take(k) =~= events.take(k));
        }
        newest_survives(s, caps, fewer, orig);
        newest_never_falls(after_all(s, caps, fewer), caps, events.last(), orig);
        assert(has_key(after_all(s, caps, events.take(n)).routes, orig));
    } else {
        assert(has_key(after_all(s, caps, events.take(0)).routes, orig));
    }
}

/// An originator's sequence number is re-flooded at most once: once an OGM has
/// been taken in, a copy of it, or of any older one, writes no reply, whatever
/// happened in between, as long as its originator stayed known.
pub proof fn ogm_is_reflooded_once(
    s: EngineState,
    caps: Capacities,
    first: Arrival,
    events: Seq<Event>,
    again: Arrival,
)
    requires
        s.wf(caps),
        caps.originators > 1,
        first.protocol == ETH_P_BATMAN,
        first.payload.len() >= OGM_LEN,
        first.payload[0] == BATADV_IV_OGM,
        again.protocol == ETH_P_BATMAN,
        again.payload.len() >= OGM_LEN,
        again.payload[0] == BATADV_IV_OGM,
        BatmanOgmPacket::parsed(again.payload).orig == BatmanOgmPacket::parsed(
            first.payload,
        ).orig,
        BatmanOgmPacket::parsed(again.payload).seqno <= BatmanOgmPacket::parsed(
            first.payload,
        ).seqno,
        known_throughout(
            arrival_step(s, caps, first).state,
            caps,
            events,
            BatmanOgmPacket::parsed(first.payload).orig,
        ),
    ensures
        ({
            let t = after_all(arrival_step(s, caps, first).state, caps, events);
            arrival_step(t, caps, again).reply == again.reply
        }),
{
    let ogm = BatmanOgmPacket::parsed(first.payload);
    let t = arrival_step(s, caps, first).state;
    newest_never_falls(s, caps, Event::Arrived(first), ogm.orig);
    if ogm.orig != s.self_ident && ogm.seqno >= newest_seqno(s, ogm.orig) {
        let tq = attenuated(ogm.tq, first.local_quality);
        accepted_route(s, caps, first.now, first.src, first.payload, tq);
        assert(t.routes == after_ogm(s, caps, first.now, first.src, first.payload, tq).routes);
    }
    newest_survives(t, caps, events, ogm.orig);
}

/// A broadcast record written is the one found.
pub(crate) proof fn seen_is_found(seen: Seq<(Mac, u32)>, orig: Mac, seqno: u32)
    ensures
        match first_seen(seen, orig) {
            Some(i) => {
                &&& 0 <= i < seen.len()
                &&& seen[i].0 == orig
                &&& first_seen(seen.update(i, (orig, seqno)), orig) == Some(i)
            },
            None => first_seen(seen.push((orig, seqno)), orig) == Some(seen.len() as int),
        },
    decreases seen.len(),
{
    assert(seen.push((orig, seqno)).drop_last() =~= seen);
    if seen.len() > 0 {
        let front = seen.drop_last();
        seen_is_found(front, orig, seqno);
        match first_seen(front, orig) {
            Some(i) => {
                assert(seen.update(i, (orig, seqno)).drop_last() =~= front.update(
                    i,
                    (orig, seqno),
                ));
            },
            None => {
                if seen.last().0 == orig {
                    let i = seen.len() - 1;
                    assert(seen.update(i, (orig, seqno)).drop_last() =~= front);
                }
            },
        }
    }
}

/// Renumbering one originator's record leaves the others where they are.
proof fn seen_elsewhere(seen: Seq<(Mac, u32)>, orig: Mac, other: Mac, seqno: u32, at: int)
    requires
        0 <= at < seen.len(),
        seen[at].0 == other,
    ensures
        first_seen(seen.update(at, (other, seqno)), orig) == first_seen(seen, orig),
    decreases seen.len(),
{
    let front = seen.drop_last();
    let changed = seen.update(at, (other, seqno));
    if at < front.len() {
        seen_elsewhere(front, orig, other, seqno, at);
        assert(changed.drop_last() =~= front.update(at, (other, seqno)));
    } else {
        assert(changed.drop_last() =~= front);
    }
}

} // verus!
