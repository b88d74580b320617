//! Serving the timers that are due: one OGM or keep-alive for each interface.

use vstd::prelude::*;

use crate::batman::ageing::purge_is_idempotent;
use crate::batman::engine::BatmanEngine;
use crate::batman::laws::emission_clears_due;
use crate::batman::model::announcement_len;
use crate::batman::model::own_ogm;
use crate::batman::model::purged;
use crate::batman::model::ticked;
use crate::batman::model::EngineState;
use crate::batman::relaying::own_ogm_is_fresh;
use crate::batman::tables::all_armed;
use crate::batman::tables::longest_i_max;
use crate::batman::tables::most_overdue;
use crate::batman::tables::most_overdue_is_due;
use crate::batman::tables::ogm_seed;
use crate::batman::trickle::emission_backs_off;
use crate::batman::trickle::reset_is_aggressive;
use crate::batman::trickle::TrickleTimer;
use crate::batman::wire::BATADV_KEEPALIVE;
use crate::batman::wire::ETH_P_BATMAN;
use crate::batman::wire::KEEPALIVE_LEN;
use crate::batman::wire::OGM_LEN;
use crate::driver_core::sink::Egress;
use crate::driver_core::sink::Emitted;
use crate::driver_core::sink::MeshSink;
use crate::driver_core::sink::OutgoingFrame;
use crate::frame::Mac;
use crate::time::Duration;

verus! {

/// Whether a timer can be served at `now`: once served, at most twice, it is due
/// later, on a clock that can still count it.
pub open spec fn servable(t: TrickleTimer, now: Duration) -> bool {
    t.wf() && t.i_max.nanos >= 2 && TrickleTimer::in_range(now, t.i_max)
}

/// Whether a timer is due.
pub open spec fn is_due(t: TrickleTimer, now: Duration) -> bool {
    now.nanos >= t.next_fire.nanos
}

/// How often a timer is served before it is no longer due: once, or twice where
/// its interval is a single nanosecond, which leaves it due at the same instant.
pub open spec fn turns(t: TrickleTimer, now: Duration) -> nat {
    if !is_due(t, now) {
        0
    } else if t.interval.nanos >= 2 {
        1
    } else {
        2
    }
}

/// The turns of the timer at `i`, where it is armed.
pub open spec fn turns_at(timers: Seq<Option<TrickleTimer>>, now: Duration, i: int) -> nat {
    match timers[i] {
        Some(t) => turns(t, now),
        None => 0,
    }
}

/// How often the armed timers of a bank are served before none is due.
pub open spec fn all_turns(timers: Seq<Option<TrickleTimer>>, now: Duration) -> nat
    decreases timers.len(),
{
    if timers.len() == 0 {
        0
    } else {
        all_turns(timers.drop_last(), now) + turns_at(timers, now, timers.len() - 1)
    }
}

/// Where no timer has gained a turn, a bank has no more turns than before, and
/// fewer where one was taken.
proof fn turns_fall(
    before: Seq<Option<TrickleTimer>>,
    after: Seq<Option<TrickleTimer>>,
    now: Duration,
)
    requires
        before.len() == after.len(),
        forall|i: int|
            0 <= i < after.len() ==> #[trigger] turns_at(after, now, i) <= turns_at(
                before,
                now,
                i,
            ),
    ensures
        all_turns(after, now) <= all_turns(before, now),
        (exists|i: int|
            0 <= i < after.len() && #[trigger] turns_at(after, now, i) < turns_at(
                before,
                now,
                i,
            )) ==> all_turns(after, now) < all_turns(before, now),
    decreases before.len(),
{
    if before.len() > 0 {
        let b = before.drop_last();
        let a = after.drop_last();
        let last = before.len() - 1;
        assert forall|i: int| 0 <= i < a.len() implies #[trigger] turns_at(a, now, i) <= turns_at(
            b,
            now,
            i,
        ) by {
            assert(turns_at(after, now, i) <= turns_at(before, now, i));
        }
        turns_fall(b, a, now);
        assert(turns_at(after, now, last) <= turns_at(before, now, last));
        if exists|i: int|
            0 <= i < after.len() && #[trigger] turns_at(after, now, i) < turns_at(
                before,
                now,
                i,
            ) {
            let i = choose|i: int|
                0 <= i < after.len() && #[trigger] turns_at(after, now, i) < turns_at(
                    before,
                    now,
                    i,
                );
            if i < last {
                assert(turns_at(a, now, i) < turns_at(b, now, i));
            }
        }
    }
}

/// Serving a due timer takes one of its turns and keeps it servable.
proof fn serving_takes_a_turn(t: TrickleTimer, now: Duration)
    requires
        servable(t, now),
        is_due(t, now),
    ensures
        servable(t.emitted(now), now),
        turns(t.emitted(now), now) < turns(t, now),
        TrickleTimer::in_range(now, t.interval),
{
    emission_backs_off(t, now);
    if t.interval.nanos >= 2 {
        emission_clears_due(t, now);
    }
}

/// The OGM an engine sends out one interface.
pub open spec fn ogm_frame(s: EngineState, idx: int) -> Emitted {
    Emitted {
        dst: Mac::all_ones(),
        protocol: ETH_P_BATMAN,
        payload: own_ogm(s),
        egress: Egress::Iface(idx as usize),
    }
}

/// The engine and the frames sent after serving one OGM timer: the one most
/// overdue.  An interface whose link does not send OGMs is served without one.
pub open spec fn ogm_served(
    s: EngineState,
    sent: Seq<Emitted>,
    tx_ogm: Seq<bool>,
    now: Duration,
) -> (EngineState, Seq<Emitted>) {
    match most_overdue(all_armed(s.ogm_timers), now) {
        None => (s, sent),
        Some(idx) => {
            let t = if tx_ogm[idx] {
                ticked(s, now)
            } else {
                s
            };
            let served = EngineState {
                ogm_timers: t.ogm_timers.update(idx, t.ogm_timers[idx].emitted(now)),
                ..t
            };
            (
                served,
                if tx_ogm[idx] {
                    sent.push(ogm_frame(t, idx))
                } else {
                    sent
                },
            )
        },
    }
}

/// The engine and the frames sent after serving the `n` OGM timers most overdue,
/// or all that are due.
pub open spec fn ogms_served(
    s: EngineState,
    sent: Seq<Emitted>,
    tx_ogm: Seq<bool>,
    now: Duration,
    n: nat,
) -> (EngineState, Seq<Emitted>)
    decreases n,
{
    if n == 0 {
        (s, sent)
    } else {
        let (t, out) = ogms_served(s, sent, tx_ogm, now, (n - 1) as nat);
        ogm_served(t, out, tx_ogm, now)
    }
}

/// Every OGM timer can be served at `now`.
pub open spec fn ogms_servable(s: EngineState, now: Duration) -> bool {
    forall|i: int| 0 <= i < s.ogm_timers.len() ==> servable(#[trigger] s.ogm_timers[i], now)
}

/// No OGM timer resets to an interval of a single nanosecond.
pub open spec fn resets_clear(s: EngineState) -> bool {
    forall|i: int| 0 <= i < s.ogm_timers.len() ==> (#[trigger] s.ogm_timers[i]).i_min.nanos >= 2
}

/// Whether a tick at `now` resets the OGM timers.
pub open spec fn tick_resets(s: EngineState, now: Duration) -> bool {
    purged(s, now).topology_changed
}

/// The longest interval of a bank depends on its timers' bounds alone.
proof fn seed_keeps(a: Seq<TrickleTimer>, b: Seq<TrickleTimer>)
    requires
        a.len() == b.len(),
        forall|i: int| 0 <= i < a.len() ==> (#[trigger] a[i]).i_max == b[i].i_max,
    ensures
        longest_i_max(a) == longest_i_max(b),
        ogm_seed(a) == ogm_seed(b),
    decreases a.len(),
{
    if a.len() > 0 {
        assert forall|i: int| 0 <= i < a.drop_last().len() implies (
        #[trigger] a.drop_last()[i]).i_max == b.drop_last()[i].i_max by {
            assert(a[i].i_max == b[i].i_max);
        }
        seed_keeps(a.drop_last(), b.drop_last());
        assert(a[a.len() - 1].i_max == b[a.len() - 1].i_max);
    }
}

/// Serving a timer keeps every timer servable and makes progress: either the last
/// reset has been made, or a turn was taken and none added.
proof fn serving_makes_progress(s: EngineState, now: Duration, tick: bool, idx: int)
    requires
        ogms_servable(s, now),
        0 <= idx < s.ogm_timers.len(),
        is_due(s.ogm_timers[idx], now),
    ensures
        ({
            let t = if tick {
                ticked(s, now)
            } else {
                s
            };
            let timers = t.ogm_timers.update(idx, t.ogm_timers[idx].emitted(now));
            let after = EngineState { ogm_timers: timers, ..t };
            let fewer = all_turns(all_armed(timers), now) < all_turns(all_armed(s.ogm_timers), now);
            &&& timers.len() == s.ogm_timers.len()
            &&& ogms_servable(after, now)
            &&& resets_clear(s) ==> resets_clear(after) && fewer
            &&& TrickleTimer::in_range(now, t.ogm_timers[idx].interval)
            &&& tick_resets(after, now) ==> tick_resets(s, now)
            &&& (tick_resets(s, now) && !tick_resets(after, now)) || fewer
        }),
{
    let t = if tick {
        ticked(s, now)
    } else {
        s
    };
    let resets = tick && tick_resets(s, now);
    let timers = t.ogm_timers.update(idx, t.ogm_timers[idx].emitted(now));
    let after = EngineState { ogm_timers: timers, ..t };
    let b = all_armed(s.ogm_timers);
    let a = all_armed(timers);
    assert forall|i: int| 0 <= i < t.ogm_timers.len() implies {
        &&& servable(#[trigger] t.ogm_timers[i], now)
        &&& t.ogm_timers[i].i_max == s.ogm_timers[i].i_max
        &&& t.ogm_timers[i].i_min == s.ogm_timers[i].i_min
        &&& resets ==> t.ogm_timers[i] == s.ogm_timers[i].restarted(now)
        &&& !resets ==> t.ogm_timers[i] == s.ogm_timers[i]
    } by {
        assert(servable(s.ogm_timers[i], now));
        reset_is_aggressive(s.ogm_timers[i], now);
    }
    let next = t.ogm_timers[idx];
    assert(servable(next, now));
    emission_backs_off(next, now);
    assert forall|i: int| 0 <= i < timers.len() implies servable(#[trigger] timers[i], now)
        && timers[i].i_min == s.ogm_timers[i].i_min by {
        assert(servable(t.ogm_timers[i], now));
    }
    if resets_clear(s) {
        assert forall|i: int| 0 <= i < timers.len() implies (
        #[trigger] after.ogm_timers[i]).i_min.nanos >= 2 by {
            assert(s.ogm_timers[i].i_min.nanos >= 2);
        }
    }
    assert forall|i: int| 0 <= i < timers.len() implies (#[trigger] timers[i]).i_max
        == s.ogm_timers[i].i_max by {
        assert(servable(t.ogm_timers[i], now));
    }
    seed_keeps(timers, s.ogm_timers);
    purge_is_idempotent(s, now);
    if tick {
        assert(after.routes == purged(s, now).routes);
        assert(purged(purged(s, now), now).routes == purged(s, now).routes);
        assert(!tick_resets(after, now));
    }
    if !resets || resets_clear(s) {
        assert forall|i: int| 0 <= i < a.len() implies #[trigger] turns_at(a, now, i) <= turns_at(
            b,
            now,
            i,
        ) && (i == idx ==> turns_at(a, now, i) < turns_at(b, now, i)) by {
            assert(servable(t.ogm_timers[i], now));
            assert(servable(s.ogm_timers[i], now));
            if resets {
                assert(s.ogm_timers[i].i_min.nanos >= 2);
                reset_is_aggressive(s.ogm_timers[i], now);
                if i == idx {
                    emission_clears_due(next, now);
                }
            } else if i == idx {
                serving_takes_a_turn(next, now);
            }
        }
        turns_fall(b, a, now);
        assert(turns_at(a, now, idx) < turns_at(b, now, idx));
    }
}

/// Send an OGM out of each interface whose timer is due, most overdue first, and
/// move those timers on.  `tx_ogm` says of each interface whether its link sends
/// OGMs; a timer whose link does not is moved on all the same.
pub fn poll_due_ogms<
    S: MeshSink,
    const MAX_ORIGINATORS: usize,
    const MAX_INTERFACES: usize,
    const MAX_MCAST_MEMBERS: usize,
    const MAX_LOCAL_MCAST: usize,
>(
    router: &mut BatmanEngine<MAX_ORIGINATORS, MAX_INTERFACES, MAX_MCAST_MEMBERS, MAX_LOCAL_MCAST>,
    tx_ogm: &[bool],
    now: Duration,
    tx_buffer: &mut [u8],
    sink: &mut S,
)
    requires
        old(router).wf(),
        ogms_servable(old(router)@, now),
        old(router)@.ogm_timers.len() <= tx_ogm@.len(),
        OGM_LEN + announcement_len(old(router)@.local_mcast.len()) <= old(tx_buffer)@.len(),
    ensures
        final(router).wf(),
        ogms_servable(final(router)@, now),
        most_overdue(all_armed(final(router)@.ogm_timers), now) is None,
        exists|n: nat|
            (resets_clear(old(router)@) ==> n <= all_turns(
                all_armed(old(router)@.ogm_timers),
                now,
            )) && (final(router)@, final(sink).emitted()) == #[trigger] ogms_served(
                old(router)@,
                old(sink).emitted(),
                tx_ogm@,
                now,
                n,
            ),
        final(sink).delivered() == old(sink).delivered(),
        final(sink).hosted() == old(sink).hosted(),
{
    let ghost start = router@;
    let ghost sent = sink.emitted();
    let ghost mut n: nat = 0;
    loop
        invariant
            router.wf(),
            ogms_servable(router@, now),
            start == old(router)@,
            sent == old(sink).emitted(),
            router@.ogm_timers.len() == start.ogm_timers.len(),
            router@.ogm_timers.len() <= tx_ogm@.len(),
            router@.local_mcast == start.local_mcast,
            OGM_LEN + announcement_len(start.local_mcast.len()) <= tx_buffer@.len(),
            resets_clear(start) ==> resets_clear(router@) && n + all_turns(
                all_armed(router@.ogm_timers),
                now,
            ) <= all_turns(all_armed(start.ogm_timers), now),
            (router@, sink.emitted()) == ogms_served(start, sent, tx_ogm@, now, n),
            sink.delivered() == old(sink).delivered(),
            sink.hosted() == old(sink).hosted(),
        ensures
            most_overdue(all_armed(router@.ogm_timers), now) is None,
        decreases
            if tick_resets(router@, now) {
                1int
            } else {
                0int
            },
            all_turns(all_armed(router@.ogm_timers), now),
    {
        let idx: usize = match router.due_interface(now) {
            Some(idx) => idx,
            None => {
                break;
            },
        };
        let ghost before = router@;
        let tick: bool = tx_ogm[idx];
        proof {
            most_overdue_is_due(all_armed(before.ogm_timers), now);
            serving_makes_progress(before, now, tick, idx as int);
        }
        if tick {
            if let Some(payload) = router.produce_periodic_broadcast(now, tx_buffer) {
                sink.emit(
                    OutgoingFrame {
                        dst: Mac::broadcast(),
                        protocol: ETH_P_BATMAN,
                        payload,
                        egress: Egress::Iface(idx),
                    },
                );
            }
        }
        router.on_interface_emitted(idx, now);
        proof {
            n = n + 1;
        }
    }
}

/// The keep-alive sent out one interface.
pub open spec fn keepalive_frame(idx: int) -> Emitted {
    Emitted {
        dst: Mac::all_ones(),
        protocol: ETH_P_BATMAN,
        payload: seq![BATADV_KEEPALIVE, 5u8],
        egress: Egress::Iface(idx as usize),
    }
}

/// The keep-alive timers and the frames sent after serving the one most overdue,
/// with `room` bytes to write a keep-alive in.
pub open spec fn keepalive_served(
    timers: Seq<Option<TrickleTimer>>,
    sent: Seq<Emitted>,
    room: nat,
    now: Duration,
) -> (Seq<Option<TrickleTimer>>, Seq<Emitted>) {
    match most_overdue(timers, now) {
        None => (timers, sent),
        Some(idx) => (
            timers.update(idx, Some(timers[idx]->0.emitted(now))),
            if KEEPALIVE_LEN <= room {
                sent.push(keepalive_frame(idx))
            } else {
                sent
            },
        ),
    }
}

/// The keep-alive timers and the frames sent after serving the `n` most overdue,
/// or all that are due.
pub open spec fn keepalives_served(
    timers: Seq<Option<TrickleTimer>>,
    sent: Seq<Emitted>,
    room: nat,
    now: Duration,
    n: nat,
) -> (Seq<Option<TrickleTimer>>, Seq<Emitted>)
    decreases n,
{
    if n == 0 {
        (timers, sent)
    } else {
        let (t, out) = keepalives_served(timers, sent, room, now, (n - 1) as nat);
        keepalive_served(t, out, room, now)
    }
}

/// Every armed keep-alive timer can be served at `now`.
pub open spec fn keepalives_servable(timers: Seq<Option<TrickleTimer>>, now: Duration) -> bool {
    forall|i: int|
        0 <= i < timers.len() && (#[trigger] timers[i]) is Some ==> servable(timers[i]->0, now)
}

/// Send a keep-alive out of each interface whose keep-alive timer is due, most
/// overdue first, and move those timers on.  Nothing is sent where `tx_buffer` is
/// too small for one.
pub fn poll_due_keepalives<
    S: MeshSink,
    const MAX_ORIGINATORS: usize,
    const MAX_INTERFACES: usize,
    const MAX_MCAST_MEMBERS: usize,
    const MAX_LOCAL_MCAST: usize,
>(
    router: &mut BatmanEngine<MAX_ORIGINATORS, MAX_INTERFACES, MAX_MCAST_MEMBERS, MAX_LOCAL_MCAST>,
    now: Duration,
    tx_buffer: &mut [u8],
    sink: &mut S,
)
    requires
        old(router).wf(),
        keepalives_servable(old(router)@.keepalive_timers, now),
    ensures
        final(router).wf(),
        keepalives_servable(final(router)@.keepalive_timers, now),
        most_overdue(final(router)@.keepalive_timers, now) is None,
        final(router)@ == (EngineState {
            keepalive_timers: final(router)@.keepalive_timers,
            ..old(router)@
        }),
        exists|n: nat|
            n <= all_turns(old(router)@.keepalive_timers, now) && (
            final(router)@.keepalive_timers,
            final(sink).emitted(),
        ) == #[trigger] keepalives_served(
            old(router)@.keepalive_timers,
            old(sink).emitted(),
            old(tx_buffer)@.len(),
            now,
            n,
        ),
        final(sink).delivered() == old(sink).delivered(),
        final(sink).hosted() == old(sink).hosted(),
{
    let ghost start = router@;
    let ghost sent = sink.emitted();
    let ghost room = tx_buffer@.len();
    let ghost mut n: nat = 0;
    loop
        invariant
            router.wf(),
            keepalives_servable(router@.keepalive_timers, now),
            start == old(router)@,
            sent == old(sink).emitted(),
            router@ == (EngineState { keepalive_timers: router@.keepalive_timers, ..start }),
            tx_buffer@.len() == room,
            room == old(tx_buffer)@.len(),
            n + all_turns(router@.keepalive_timers, now) <= all_turns(
                start.keepalive_timers,
                now,
            ),
            (router@.keepalive_timers, sink.emitted()) == keepalives_served(
                start.keepalive_timers,
                sent,
                room,
                now,
                n,
            ),
            sink.delivered() == old(sink).delivered(),
            sink.hosted() == old(sink).hosted(),
        ensures
            most_overdue(router@.keepalive_timers, now) is None,
        decreases all_turns(router@.keepalive_timers, now),
    {
        let idx: usize = match router.due_keepalive_interface(now) {
            Some(idx) => idx,
            None => {
                break;
            },
        };
        let ghost before = router@.keepalive_timers;
        proof {
            most_overdue_is_due(before, now);
            let t = before[idx as int]->0;
            assert(servable(t, now));
            serving_takes_a_turn(t, now);
            let after = before.update(idx as int, Some(t.emitted(now)));
            assert forall|i: int| 0 <= i < after.len() implies #[trigger] turns_at(after, now, i)
                <= turns_at(before, now, i) by {}
            assert(turns_at(after, now, idx as int) < turns_at(before, now, idx as int));
            turns_fall(before, after, now);
        }
        if let Some(payload) = router.produce_keepalive(tx_buffer) {
            sink.emit(
                OutgoingFrame {
                    dst: Mac::broadcast(),
                    protocol: ETH_P_BATMAN,
                    payload,
                    egress: Egress::Iface(idx),
                },
            );
        }
        router.on_keepalive_emitted(idx, now);
        proof {
            n = n + 1;
        }
    }
}

/// Whether a frame is an OGM of the node out of one of its interfaces.
pub open spec fn is_own_ogm(f: Emitted, ident: Mac, idx: int) -> bool {
    &&& f.dst == Mac([0xff, 0xff, 0xff, 0xff, 0xff, 0xff])
    &&& f.protocol == 0x4305
    &&& f.egress == Egress::Iface(idx as usize)
    &&& f.payload.len() >= 18
    &&& f.payload[0] == 1
    &&& f.payload.subrange(8, 14) == ident.0@
}

/// Whether `f` is among the frames of `out` from `from` on and is an OGM of the
/// node out of interface `idx`.
pub open spec fn announced_on(out: Seq<Emitted>, from: int, ident: Mac, idx: int) -> bool {
    exists|k: int| from <= k < out.len() && is_own_ogm(#[trigger] out[k], ident, idx)
}

/// However many OGM timers are served, nothing sent before is lost; everything
/// sent is the node's own OGM out of an interface whose link sends OGMs; and where
/// no reset intervenes, every interface no longer due at the end that was due at
/// the start has had its OGM, if its link sends them.
pub proof fn due_interfaces_are_served(
    s: EngineState,
    sent: Seq<Emitted>,
    tx_ogm: Seq<bool>,
    now: Duration,
    n: nat,
)
    requires
        ogms_servable(s, now),
        !tick_resets(s, now),
    ensures
        ({
            let (t, out) = ogms_served(s, sent, tx_ogm, now, n);
            &&& t.self_ident == s.self_ident
            &&& t.ogm_timers.len() == s.ogm_timers.len()
            &&& ogms_servable(t, now)
            &&& !tick_resets(t, now)
            &&& sent.len() <= out.len()
            &&& out.take(sent.len() as int) == sent
            &&& forall|k: int|
                sent.len() <= k < out.len() ==> exists|i: int|
                    0 <= i < s.ogm_timers.len() && tx_ogm[i] && is_own_ogm(
                        #[trigger] out[k],
                        s.self_ident,
                        i,
                    )
            &&& forall|i: int|
                0 <= i < s.ogm_timers.len() && tx_ogm[i] && is_due(s.ogm_timers[i], now)
                    && !is_due(#[trigger] t.ogm_timers[i], now) ==> announced_on(
                    out,
                    sent.len() as int,
                    s.self_ident,
                    i,
                )
            &&& forall|i: int|
                0 <= i < s.ogm_timers.len() && !is_due(s.ogm_timers[i], now)
                    ==> #[trigger] t.ogm_timers[i] == s.ogm_timers[i]
        }),
    decreases n,
{
    if n == 0 {
        assert(sent.take(sent.len() as int) =~= sent);
    } else {
        let (b, before) = ogms_served(s, sent, tx_ogm, now, (n - 1) as nat);
        let (t, out) = ogms_served(s, sent, tx_ogm, now, n);
        due_interfaces_are_served(s, sent, tx_ogm, now, (n - 1) as nat);
        let bank = all_armed(b.ogm_timers);
        most_overdue_is_due(bank, now);
        match most_overdue(bank, now) {
            None => {},
            Some(idx) => {
                assert(bank[idx] == Some(b.ogm_timers[idx]));
                serving_makes_progress(b, now, tx_ogm[idx], idx);
                if tx_ogm[idx] {
                    let frame = out.last();
                    assert(out == before.push(frame));
                    own_ogm_is_fresh(ticked(b, now));
                    assert(is_own_ogm(out[before.len() as int], s.self_ident, idx));
                    assert(announced_on(out, sent.len() as int, s.self_ident, idx));
                }
                assert(out.take(sent.len() as int) =~= before.take(sent.len() as int));
                assert forall|k: int| sent.len() <= k < out.len() implies exists|i: int|
                    0 <= i < s.ogm_timers.len() && tx_ogm[i] && is_own_ogm(
                        #[trigger] out[k],
                        s.self_ident,
                        i,
                    ) by {
                    if k < before.len() {
                        assert(out[k] == before[k]);
                    } else {
                        assert(is_own_ogm(out[k], s.self_ident, idx));
                    }
                }
                assert forall|i: int|
                    0 <= i < s.ogm_timers.len() && tx_ogm[i] && is_due(s.ogm_timers[i], now)
                        && !is_due(#[trigger] t.ogm_timers[i], now) implies announced_on(
                    out,
                    sent.len() as int,
                    s.self_ident,
                    i,
                ) by {
                    if i != idx {
                        assert(t.ogm_timers[i] == b.ogm_timers[i]);
                        let k = choose|k: int|
                            sent.len() <= k < before.len() && is_own_ogm(
                                #[trigger] before[k],
                                s.self_ident,
                                i,
                            );
                        assert(is_own_ogm(out[k], s.self_ident, i));
                    }
                }
                assert forall|i: int|
                    0 <= i < s.ogm_timers.len() && !is_due(
                        s.ogm_timers[i],
                        now,
                    ) implies #[trigger] t.ogm_timers[i] == s.ogm_timers[i] by {
                    assert(b.ogm_timers[i] == s.ogm_timers[i]);
                    assert(i != idx);
                }
            },
        }
    }
}

/// Whether a keep-alive out of interface `idx` is among the frames of `out` from
/// `from` on.
pub open spec fn kept_alive_on(out: Seq<Emitted>, from: int, idx: int) -> bool {
    exists|k: int|
        from <= k < out.len() && (#[trigger] out[k]).egress == Egress::Iface(idx as usize)
}

/// However many keep-alive timers are served, nothing sent before is lost;
/// everything sent is a keep-alive of two bytes to everyone; every interface no
/// longer due at the end that was due at the start has had one, where there was
/// room to write it; and a timer that was not due stays as it was.
pub proof fn due_keepalives_are_served(
    timers: Seq<Option<TrickleTimer>>,
    sent: Seq<Emitted>,
    room: nat,
    now: Duration,
    n: nat,
)
    requires
        keepalives_servable(timers, now),
    ensures
        ({
            let (t, out) = keepalives_served(timers, sent, room, now, n);
            &&& t.len() == timers.len()
            &&& keepalives_servable(t, now)
            &&& sent.len() <= out.len()
            &&& out.take(sent.len() as int) == sent
            &&& forall|k: int|
                sent.len() <= k < out.len() ==> {
                    let f = #[trigger] out[k];
                    &&& f.dst == Mac([0xff, 0xff, 0xff, 0xff, 0xff, 0xff])
                    &&& f.protocol == 0x4305
                    &&& f.payload == seq![7u8, 5u8]
                }
            &&& forall|i: int|
                0 <= i < timers.len() && room >= 2 && due_at(timers, now, i)
                    && !#[trigger] due_at(t, now, i) ==> kept_alive_on(out, sent.len() as int, i)
            &&& forall|i: int|
                0 <= i < timers.len() && !due_at(timers, now, i) ==> #[trigger] t[i] == timers[i]
            &&& forall|i: int|
                0 <= i < timers.len() ==> (#[trigger] t[i] is Some) == (timers[i] is Some)
        }),
    decreases n,
{
    if n == 0 {
        assert(sent.take(sent.len() as int) =~= sent);
    } else {
        let (b, before) = keepalives_served(timers, sent, room, now, (n - 1) as nat);
        let (t, out) = keepalives_served(timers, sent, room, now, n);
        due_keepalives_are_served(timers, sent, room, now, (n - 1) as nat);
        most_overdue_is_due(b, now);
        match most_overdue(b, now) {
            None => {
                assert forall|i: int|
                    0 <= i < timers.len() && room >= 2 && due_at(timers, now, i)
                        && !#[trigger] due_at(t, now, i) implies kept_alive_on(
                    out,
                    sent.len() as int,
                    i,
                ) by {
                    assert(!due_at(b, now, i));
                }
            },
            Some(idx) => {
                assert(servable(b[idx]->0, now));
                serving_takes_a_turn(b[idx]->0, now);
                assert(due_at(b, now, idx));
                assert(due_at(timers, now, idx)) by {
                    if !due_at(timers, now, idx) {
                        assert(b[idx] == timers[idx]);
                    }
                }
                assert(out.take(sent.len() as int) =~= before.take(sent.len() as int));
                if KEEPALIVE_LEN <= room {
                    assert(out == before.push(keepalive_frame(idx)));
                    assert(out[before.len() as int].egress == Egress::Iface(idx as usize));
                    assert(kept_alive_on(out, sent.len() as int, idx));
                }
                assert forall|k: int| sent.len() <= k < out.len() implies {
                    let f = #[trigger] out[k];
                    &&& f.dst == Mac([0xff, 0xff, 0xff, 0xff, 0xff, 0xff])
                    &&& f.protocol == 0x4305
                    &&& f.payload == seq![7u8, 5u8]
                } by {
                    if k < before.len() {
                        assert(out[k] == before[k]);
                    }
                }
                assert forall|i: int|
                    0 <= i < timers.len() && room >= 2 && due_at(timers, now, i)
                        && !#[trigger] due_at(t, now, i) implies kept_alive_on(
                    out,
                    sent.len() as int,
                    i,
                ) by {
                    if i != idx {
                        assert(t[i] == b[i]);
                        assert(!due_at(b, now, i));
                        let k = choose|k: int|
                            sent.len() <= k < before.len() && (#[trigger] before[k]).egress
                                == Egress::Iface(i as usize);
                        assert(out[k].egress == Egress::Iface(i as usize));
                    }
                }
            },
        }
    }
}

/// Whether the timer at `i` is set and due.
pub open spec fn due_at(timers: Seq<Option<TrickleTimer>>, now: Duration, i: int) -> bool {
    timers[i] is Some && is_due(timers[i]->0, now)
}

} // verus!
