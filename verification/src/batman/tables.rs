//! What the routing engine remembers: routes, heartbeats, and how both age.

use vstd::prelude::*;

use crate::batman::trickle::TrickleTimer;
use crate::bounded::BoundedVec;
use crate::frame::Mac;
use crate::time::capped_product;
use crate::time::Duration;

verus! {

/// Maximum number of multicast groups a host-sized node's local host can join.
pub const MAX_LOCAL_MCAST: usize = 16;

/// Maximum number of `(group, listener)` memberships a host-sized node tracks
/// across the whole mesh.
pub const MAX_MCAST_MEMBERS: usize = 64;

/// Maximum number of mesh interfaces a host-sized node paces.
pub const MAX_INTERFACES: usize = 8;

/// How many expected OGM intervals a path may go without a refreshing OGM before
/// it is treated as dead.
pub const MAX_MISSED_OGMS: u32 = 6;

/// Expected OGM interval, in nanoseconds, before any interface is configured:
/// one second.
pub const DEFAULT_OGM_INTERVAL_NANOS: u64 = 1_000_000_000;

/// How many expected keep-alive intervals a neighbor may go without a heartbeat
/// before paths through it are deprioritized.
pub const MAX_MISSED_KEEPALIVES: u32 = 3;

/// Expected keep-alive interval, in nanoseconds, before any interface has a
/// keep-alive schedule: five seconds.
pub const DEFAULT_KEEPALIVE_INTERVAL_NANOS: u64 = 5_000_000_000;

/// How long, in seconds, a schedule with nothing to emit reports to sleep.
pub const IDLE_SECS: u64 = 3600;

/// How many alternate paths are kept per originator.
pub const MAX_PATHS: usize = 4;

/// Keep-alive liveness of a neighbor a heartbeat has been heard from.
#[derive(Debug, Clone, Copy, PartialEq, Eq, Structural)]
pub struct KeepAliveStats {
    /// When the most recent keep-alive from this neighbor was received.
    pub last_heard: Duration,
    /// The slowest cadence this neighbor settles into, as a slowly decaying
    /// peak; zero until a second heartbeat gives a gap to measure.
    pub interval_estimate: Duration,
}

/// Metrics of one path to an originator via one immediate neighbor.
#[derive(Debug, Clone, Copy)]
pub struct NeighborStats {
    /// The immediate neighbor that relays OGMs for this path.
    pub neighbor_ident: Mac,
    /// Transmission quality of the most recent OGM accepted on this path.
    pub last_tq: u8,
    /// Sequence number of the most recent OGM accepted on this path.
    pub last_seqno: u32,
    /// When the most recent OGM refreshed this path.
    pub last_heard: Duration,
    /// The slowest cadence at which this path is refreshed, as a slowly
    /// decaying peak; zero until a second OGM gives a gap to measure.
    pub interval_estimate: Duration,
}

/// A destination node in the mesh network.
pub struct OriginatorRecord {
    /// When the most recent OGM for this originator was accepted via any path.
    pub last_heard: Duration,
    /// This originator's own address: the destination this record describes.
    pub neighbor_ident: Mac,
    /// The neighbor that packets for this originator are forwarded to: the
    /// immediate neighbor of the best path.
    pub best_next_hop: Mac,
    /// The highest transmission quality among all known paths to this originator,
    /// by which the best next hop is chosen.
    pub max_tq: u8,
    /// Sequence number of the most recent OGM accepted for this originator.
    pub last_seqno: u32,
    /// Up to four alternate paths to this originator via different neighbors.  The
    /// one of highest quality backs `best_next_hop` and `max_tq`.
    pub paths: BoundedVec<NeighborStats, 4>,
}

/// An originator's record, seen as plain values.
#[verifier::ext_equal]
pub struct Route {
    pub last_heard: Duration,
    pub neighbor_ident: Mac,
    pub best_next_hop: Mac,
    pub max_tq: u8,
    pub last_seqno: u32,
    pub paths: Seq<NeighborStats>,
}

impl View for OriginatorRecord {
    type V = Route;

    open spec fn view(&self) -> Route {
        Route {
            last_heard: self.last_heard,
            neighbor_ident: self.neighbor_ident,
            best_next_hop: self.best_next_hop,
            max_tq: self.max_tq,
            last_seqno: self.last_seqno,
            paths: self.paths@,
        }
    }
}

/// A snapshot of one interface's adaptive OGM emission schedule.
#[derive(Debug, Clone, Copy, PartialEq, Eq, Structural)]
pub struct OgmScheduleEntry {
    /// Index of the interface this schedule belongs to.
    pub iface_idx: usize,
    /// The interval the link is currently emitting at.
    pub current_interval: Duration,
    /// The interval the timer resets to on a topology change.
    pub min_interval: Duration,
    /// The interval the doubling backoff is capped at.
    pub max_interval: Duration,
}

/// Whether something last heard at `last_heard` has aged out as of `now`: more
/// than `max_missed` of its expected interval has passed.  The expected interval
/// is the learned one, or `seed` until one has been learned.
pub open spec fn stale(
    now: Duration,
    last_heard: Duration,
    interval_estimate: Duration,
    seed: Duration,
    max_missed: u32,
) -> bool {
    let expected = if interval_estimate.nanos == 0 {
        seed
    } else {
        interval_estimate
    };
    now.minus(last_heard).nanos > capped_product(expected.nanos, max_missed)
}

/// Whether something last heard at `last_heard` has aged out as of `now`.
pub fn is_stale(
    now: Duration,
    last_heard: Duration,
    interval_estimate: Duration,
    seed: Duration,
    max_missed: u32,
) -> (s: bool)
    ensures
        s == stale(now, last_heard, interval_estimate, seed, max_missed),
{
    let expected = if interval_estimate.is_zero() {
        seed
    } else {
        interval_estimate
    };
    let budget = expected.saturating_mul(max_missed);
    now.saturating_sub(last_heard).nanos > budget.nanos
}

/// Whether a path has gone without a refreshing OGM for too long.
pub open spec fn path_is_stale(now: Duration, path: NeighborStats, seed: Duration) -> bool {
    stale(now, path.last_heard, path.interval_estimate, seed, MAX_MISSED_OGMS)
}

/// Whether a path has gone without a refreshing OGM for too long.
pub fn path_stale(now: Duration, path: &NeighborStats, seed: Duration) -> (s: bool)
    ensures
        s == path_is_stale(now, *path, seed),
{
    is_stale(now, path.last_heard, path.interval_estimate, seed, MAX_MISSED_OGMS)
}

/// A cadence estimate after one more observed gap: the gap itself at first, and
/// from then on the longer of the gap and seven eighths of the old estimate,
/// the latter capped at what 64 bits of nanoseconds can count.
pub open spec fn blended(old: Duration, gap: Duration) -> Duration {
    if old.nanos == 0 {
        gap
    } else {
        let decayed = old.nanos * 7 / 8;
        Duration {
            nanos: if decayed <= u64::MAX {
                decayed as u128
            } else {
                u64::MAX as u128
            },
        }.longer(gap)
    }
}

/// Fold a freshly observed gap into a cadence estimate.
pub fn blend_interval(old: Duration, gap: Duration) -> (d: Duration)
    ensures
        d == blended(old, gap),
{
    if old.is_zero() {
        return gap;
    }
    // Seven eighths, taken eight nanoseconds at a time so nothing overflows.
    let eighths: u128 = old.nanos / 8;
    let rest: u128 = old.nanos % 8;
    let decayed: u128 = eighths * 7 + rest * 7 / 8;
    assert(decayed == old.nanos * 7 / 8);
    let cap: u128 = u64::MAX as u128;
    Duration { nanos: if decayed <= cap { decayed } else { cap } }.max(gap)
}

/// A blended estimate is never below the gap just seen, and never below seven
/// eighths of what it was, as far as 64 bits of nanoseconds can count.
pub proof fn blend_holds_the_peak(old: Duration, gap: Duration)
    ensures
        blended(old, gap).nanos >= gap.nanos,
        old.nanos * 7 / 8 <= u64::MAX ==> blended(old, gap).nanos >= old.nanos * 7 / 8,
        old.nanos <= gap.nanos ==> blended(old, gap) == gap,
        blended(old, gap).nanos <= old.nanos || blended(old, gap).nanos <= gap.nanos,
{
}

/// A neighbor heard again no later than its learned cadence after it was last
/// heard is not stale, whatever the seed.
pub proof fn punctual_is_not_stale(
    now: Duration,
    last_heard: Duration,
    estimate: Duration,
    seed: Duration,
    max_missed: u32,
)
    requires
        max_missed >= 1,
        estimate.nanos > 0,
        now.nanos <= last_heard.nanos + estimate.nanos,
    ensures
        !stale(now, last_heard, estimate, seed, max_missed),
{
    assert(estimate.nanos * max_missed >= estimate.nanos) by (nonlinear_arith)
        requires
            max_missed >= 1,
            estimate.nanos > 0,
    ;
}

/// The longest `i_max` of a bank of timers.
pub open spec fn longest_i_max(timers: Seq<TrickleTimer>) -> Option<Duration>
    decreases timers.len(),
{
    if timers.len() == 0 {
        None
    } else {
        match longest_i_max(timers.drop_last()) {
            None => Some(timers.last().i_max),
            Some(d) => Some(d.longer(timers.last().i_max)),
        }
    }
}

/// The timers that are armed, in order.
pub open spec fn armed(timers: Seq<Option<TrickleTimer>>) -> Seq<TrickleTimer>
    decreases timers.len(),
{
    if timers.len() == 0 {
        Seq::empty()
    } else {
        match timers.last() {
            None => armed(timers.drop_last()),
            Some(t) => armed(timers.drop_last()).push(t),
        }
    }
}

/// The expected OGM interval of a path not yet measured: the longest configured
/// `i_max`, or a default.
pub open spec fn ogm_seed(timers: Seq<TrickleTimer>) -> Duration {
    match longest_i_max(timers) {
        None => Duration { nanos: DEFAULT_OGM_INTERVAL_NANOS as u128 },
        Some(d) => d,
    }
}

/// The expected keep-alive interval of a neighbor not yet measured: the longest
/// configured one, or a default.
pub open spec fn keepalive_seed(timers: Seq<Option<TrickleTimer>>) -> Duration {
    match longest_i_max(armed(timers)) {
        None => Duration { nanos: DEFAULT_KEEPALIVE_INTERVAL_NANOS as u128 },
        Some(d) => d,
    }
}

/// The shortest time until a timer of a bank fires.
pub open spec fn soonest(timers: Seq<TrickleTimer>, now: Duration) -> Option<Duration>
    decreases timers.len(),
{
    if timers.len() == 0 {
        None
    } else {
        let last = timers.last().next_fire.minus(now);
        match soonest(timers.drop_last(), now) {
            None => Some(last),
            Some(d) => Some(d.shorter(last)),
        }
    }
}

/// How long to sleep before a timer of the bank fires.
pub open spec fn sleep_time(timers: Seq<TrickleTimer>, now: Duration) -> Duration {
    match soonest(timers, now) {
        None => Duration { nanos: (IDLE_SECS * 1_000_000_000) as u128 },
        Some(d) => d,
    }
}

/// The armed timer that was due longest ago, the first of several due at the
/// same instant; `None` when none is due.
pub open spec fn most_overdue(timers: Seq<Option<TrickleTimer>>, now: Duration) -> Option<int>
    decreases timers.len(),
{
    if timers.len() == 0 {
        None
    } else {
        let before = most_overdue(timers.drop_last(), now);
        let at = timers.len() - 1;
        match timers.last() {
            None => before,
            Some(t) => if now.nanos < t.next_fire.nanos {
                before
            } else {
                match before {
                    None => Some(at),
                    Some(b) => match timers[b] {
                        None => Some(at),
                        Some(best) => if t.next_fire.nanos < best.next_fire.nanos {
                            Some(at)
                        } else {
                            before
                        },
                    },
                }
            },
        }
    }
}

/// The most overdue timer is armed and due, none due fires earlier, and none
/// before it fires as early; there is one exactly when some armed timer is due.
pub proof fn most_overdue_is_due(timers: Seq<Option<TrickleTimer>>, now: Duration)
    ensures
        match most_overdue(timers, now) {
            Some(b) => {
                &&& 0 <= b < timers.len()
                &&& timers[b] is Some
                &&& timers[b]->0.next_fire.nanos <= now.nanos
                &&& forall|i: int|
                    0 <= i < timers.len() && (#[trigger] timers[i]) is Some
                        ==> timers[b]->0.next_fire.nanos <= timers[i]->0.next_fire.nanos
                &&& forall|i: int|
                    0 <= i < b && (#[trigger] timers[i]) is Some
                        ==> timers[b]->0.next_fire.nanos < timers[i]->0.next_fire.nanos
            },
            None => forall|i: int|
                0 <= i < timers.len() && (#[trigger] timers[i]) is Some ==> now.nanos
                    < timers[i]->0.next_fire.nanos,
        },
    decreases timers.len(),
{
    if timers.len() > 0 {
        let t = timers.drop_last();
        most_overdue_is_due(t, now);
        assert forall|i: int| 0 <= i < t.len() implies #[trigger] timers[i] == t[i] by {}
    }
}

/// A bank of timers that are all armed.
pub open spec fn all_armed(timers: Seq<TrickleTimer>) -> Seq<Option<TrickleTimer>> {
    timers.map_values(|t: TrickleTimer| Some(t))
}

/// The sleep of a bank of timers lasts until the first of them fires: it ends no
/// later than any does, it is empty once one is due, and it ends when one fires.
/// With no timer it is an hour.
pub proof fn sleep_lasts_until_the_first_fire(timers: Seq<TrickleTimer>, now: Duration)
    ensures
        forall|i: int|
            0 <= i < timers.len() ==> {
                let fire = (#[trigger] timers[i]).next_fire.nanos;
                let sleep = sleep_time(timers, now).nanos;
                if fire > now.nanos {
                    now.nanos + sleep <= fire
                } else {
                    sleep == 0
                }
            },
        timers.len() > 0 ==> exists|i: int|
            0 <= i < timers.len() && {
                let fire = (#[trigger] timers[i]).next_fire.nanos;
                let sleep = sleep_time(timers, now).nanos;
                now.nanos + sleep == fire || (fire <= now.nanos && sleep == 0)
            },
        timers.len() == 0 ==> sleep_time(timers, now).nanos == 3_600_000_000_000,
    decreases timers.len(),
{
    if timers.len() > 0 {
        let t = timers.drop_last();
        let last = timers.len() - 1;
        sleep_lasts_until_the_first_fire(t, now);
        assert forall|i: int| 0 <= i < t.len() implies #[trigger] timers[i] == t[i] by {}
        assert(timers[last] == timers.last());
        if t.len() > 0 {
            assert(soonest(t, now) is Some);
            let i = choose|i: int|
                0 <= i < t.len() && {
                    let fire = (#[trigger] t[i]).next_fire.nanos;
                    let sleep = sleep_time(t, now).nanos;
                    now.nanos + sleep == fire || (fire <= now.nanos && sleep == 0)
                };
            assert(timers[i] == t[i]);
            if sleep_time(timers, now) != sleep_time(t, now) {
                assert(sleep_time(timers, now) == timers[last].next_fire.minus(now));
            }
        }
    }
}

/// The armed timers of a bank are exactly those that are not unset.
pub proof fn armed_are_those_set(timers: Seq<Option<TrickleTimer>>)
    ensures
        forall|i: int|
            0 <= i < timers.len() && (#[trigger] timers[i]) is Some ==> armed(timers).contains(
                timers[i]->0,
            ),
        forall|j: int|
            0 <= j < armed(timers).len() ==> timers.contains(Some(#[trigger] armed(timers)[j])),
    decreases timers.len(),
{
    if timers.len() > 0 {
        let t = timers.drop_last();
        let a = armed(t);
        let whole = armed(timers);
        armed_are_those_set(t);
        assert forall|i: int|
            0 <= i < timers.len() && (#[trigger] timers[i]) is Some implies whole.contains(
            timers[i]->0,
        ) by {
            if i < t.len() {
                assert(t[i] == timers[i]);
                let j = choose|j: int| 0 <= j < a.len() && a[j] == t[i]->0;
                assert(whole[j] == a[j]);
            } else {
                assert(whole[whole.len() - 1] == timers[i]->0);
            }
        }
        assert forall|j: int| 0 <= j < whole.len() implies timers.contains(
            Some(#[trigger] whole[j]),
        ) by {
            if j < a.len() {
                assert(whole[j] == a[j]);
                let i = choose|i: int| 0 <= i < t.len() && t[i] == Some(a[j]);
                assert(timers[i] == Some(whole[j]));
            } else {
                assert(timers[timers.len() - 1] == Some(whole[j]));
            }
        }
    }
}

/// The sleep of a bank in which some timers may be unset lasts until the first of
/// the others fires.  With none set it is an hour.
pub proof fn sleep_lasts_until_the_first_set_fires(
    timers: Seq<Option<TrickleTimer>>,
    now: Duration,
)
    ensures
        forall|i: int|
            0 <= i < timers.len() && (#[trigger] timers[i]) is Some ==> {
                let fire = timers[i]->0.next_fire.nanos;
                let sleep = sleep_time(armed(timers), now).nanos;
                if fire > now.nanos {
                    now.nanos + sleep <= fire
                } else {
                    sleep == 0
                }
            },
        (exists|i: int| 0 <= i < timers.len() && (#[trigger] timers[i]) is Some) ==> exists|i: int|
            0 <= i < timers.len() && (#[trigger] timers[i]) is Some && {
                let fire = timers[i]->0.next_fire.nanos;
                let sleep = sleep_time(armed(timers), now).nanos;
                now.nanos + sleep == fire || (fire <= now.nanos && sleep == 0)
            },
        (forall|i: int| 0 <= i < timers.len() ==> (#[trigger] timers[i]) is None) ==> sleep_time(
            armed(timers),
            now,
        ).nanos == 3_600_000_000_000,
{
    let a = armed(timers);
    let sleep = sleep_time(a, now).nanos;
    armed_are_those_set(timers);
    sleep_lasts_until_the_first_fire(a, now);
    assert forall|i: int| 0 <= i < timers.len() && (#[trigger] timers[i]) is Some implies {
        let fire = timers[i]->0.next_fire.nanos;
        if fire > now.nanos {
            now.nanos + sleep <= fire
        } else {
            sleep == 0
        }
    } by {
        let j = choose|j: int| 0 <= j < a.len() && a[j] == timers[i]->0;
        assert(a[j].next_fire == timers[i]->0.next_fire);
    }
    if a.len() > 0 {
        let j = choose|j: int|
            0 <= j < a.len() && {
                let fire = (#[trigger] a[j]).next_fire.nanos;
                now.nanos + sleep == fire || (fire <= now.nanos && sleep == 0)
            };
        let i = choose|i: int| 0 <= i < timers.len() && timers[i] == Some(a[j]);
        assert(timers[i] is Some);
    }
    if exists|i: int| 0 <= i < timers.len() && (#[trigger] timers[i]) is Some {
        let i = choose|i: int| 0 <= i < timers.len() && (#[trigger] timers[i]) is Some;
        assert(a.contains(timers[i]->0));
    } else if a.len() > 0 {
        assert(timers.contains(Some(a[0])));
    }
}

/// Something is given up on exactly when more than the allowed number of its
/// expected intervals has passed since it was last heard.  The expected interval
/// is the one learned, and the seed while none has been.
pub proof fn given_up_after_the_allowed_silence(
    now: Duration,
    last_heard: Duration,
    estimate: Duration,
    seed: Duration,
    max_missed: u32,
)
    requires
        estimate.nanos * max_missed <= u128::MAX,
        seed.nanos * max_missed <= u128::MAX,
    ensures
        estimate.nanos > 0 ==> stale(now, last_heard, estimate, seed, max_missed) == (now.nanos
            > last_heard.nanos + estimate.nanos * max_missed),
        estimate.nanos == 0 ==> stale(now, last_heard, estimate, seed, max_missed) == (now.nanos
            > last_heard.nanos + seed.nanos * max_missed),
{
    assert(estimate.nanos * max_missed >= 0 && seed.nanos * max_missed >= 0) by (nonlinear_arith);
}

/// What was heard at this very instant is not given up on.
pub proof fn just_heard_is_not_stale(
    now: Duration,
    estimate: Duration,
    seed: Duration,
    max_missed: u32,
)
    ensures
        !stale(now, now, estimate, seed, max_missed),
{
}

/// A path is given up on after six of its intervals.
pub proof fn a_path_may_miss_six(now: Duration, path: NeighborStats, seed: Duration)
    requires
        path.interval_estimate.nanos * 6 <= u128::MAX,
        seed.nanos * 6 <= u128::MAX,
    ensures
        path.interval_estimate.nanos > 0 ==> path_is_stale(now, path, seed) == (now.nanos
            > path.last_heard.nanos + 6 * path.interval_estimate.nanos),
        path.interval_estimate.nanos == 0 ==> path_is_stale(now, path, seed) == (now.nanos
            > path.last_heard.nanos + 6 * seed.nanos),
{
}

/// A blended estimate is the gap just seen or the old estimate let down by an
/// eighth, whichever is longer, and the gap alone where there was no estimate.
pub proof fn blend_decays_slowly(old: Duration, gap: Duration)
    requires
        old.nanos <= u64::MAX,
    ensures
        old.nanos == 0 ==> blended(old, gap) == gap,
        old.nanos > 0 && gap.nanos < old.nanos ==> {
            let d = blended(old, gap).nanos;
            d == gap.nanos || (8 * d <= 7 * old.nanos < 8 * d + 8)
        },
{
}

/// The expected interval of a bank is that of its slowest timer, and one second
/// where there is none.
pub proof fn seed_is_the_slowest(timers: Seq<TrickleTimer>)
    ensures
        forall|i: int|
            0 <= i < timers.len() ==> (#[trigger] timers[i]).i_max.nanos <= ogm_seed(timers).nanos,
        timers.len() > 0 ==> exists|i: int|
            0 <= i < timers.len() && (#[trigger] timers[i]).i_max == ogm_seed(timers),
        timers.len() == 0 ==> ogm_seed(timers).nanos == 1_000_000_000,
    decreases timers.len(),
{
    if timers.len() > 0 {
        let t = timers.drop_last();
        seed_is_the_slowest(t);
        assert forall|i: int| 0 <= i < t.len() implies #[trigger] timers[i] == t[i] by {}
        assert(timers[timers.len() - 1] == timers.last());
        if t.len() > 0 {
            let i = choose|i: int| 0 <= i < t.len() && (#[trigger] t[i]).i_max == ogm_seed(t);
            assert(timers[i].i_max == ogm_seed(t));
        }
    }
}

/// The expected keep-alive interval is that of the slowest schedule that is set,
/// and five seconds where none is.
pub proof fn keepalive_seed_is_the_slowest(timers: Seq<Option<TrickleTimer>>)
    ensures
        forall|i: int|
            0 <= i < timers.len() && (#[trigger] timers[i]) is Some ==> timers[i]->0.i_max.nanos
                <= keepalive_seed(timers).nanos,
        (exists|i: int| 0 <= i < timers.len() && (#[trigger] timers[i]) is Some) ==> exists|i: int|
            0 <= i < timers.len() && (#[trigger] timers[i]) is Some && timers[i]->0.i_max
                == keepalive_seed(timers),
        (forall|i: int| 0 <= i < timers.len() ==> (#[trigger] timers[i]) is None)
            ==> keepalive_seed(timers).nanos == 5_000_000_000,
{
    let a = armed(timers);
    armed_are_those_set(timers);
    seed_is_the_slowest(a);
    assert forall|i: int| 0 <= i < timers.len() && (#[trigger] timers[i]) is Some implies timers[i]
        ->0.i_max.nanos <= keepalive_seed(timers).nanos by {
        let j = choose|j: int| 0 <= j < a.len() && a[j] == timers[i]->0;
        assert(a[j].i_max.nanos <= ogm_seed(a).nanos);
    }
    if a.len() > 0 {
        let j = choose|j: int| 0 <= j < a.len() && (#[trigger] a[j]).i_max == ogm_seed(a);
        let i = choose|i: int| 0 <= i < timers.len() && timers[i] == Some(a[j]);
        assert(timers[i] is Some);
    }
    if exists|i: int| 0 <= i < timers.len() && (#[trigger] timers[i]) is Some {
        let i = choose|i: int| 0 <= i < timers.len() && (#[trigger] timers[i]) is Some;
        assert(a.contains(timers[i]->0));
    } else if a.len() > 0 {
        assert(timers.contains(Some(a[0])));
    }
}

} // verus!
