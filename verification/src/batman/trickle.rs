//! A Trickle-style adaptive broadcast timer (after RFC 6206), pacing emission on
//! one interface.
//!
//! The interval doubles from `i_min` toward `i_max` for as long as nothing
//! changes, and returns to `i_min` on an inconsistency.  Each fire is jittered
//! within `[interval/2, interval)` so neighbours that reset together do not then
//! collide.

use vstd::prelude::*;

use crate::time::Duration;

verus! {

/// One interface's adaptive emission schedule.
#[derive(Clone, Copy, Debug, PartialEq, Eq, Structural)]
pub struct TrickleTimer {
    /// Smallest interval: the one the timer starts at and resets to.
    pub i_min: Duration,
    /// Largest interval the doubling is capped at.
    pub i_max: Duration,
    /// The current interval.
    pub interval: Duration,
    /// Instant of the next scheduled emission.
    pub next_fire: Duration,
    /// State of the jitter generator, never zero.
    pub rng: u32,
}

/// One step of the 32-bit xorshift generator.
pub open spec fn xorshift32(x: u32) -> u32 {
    let a = x ^ (x << 13);
    let b = a ^ (a >> 17);
    b ^ (b << 5)
}

/// The generator never falls to zero.
pub proof fn xorshift32_stays_nonzero(x: u32)
    requires
        x != 0,
    ensures
        xorshift32(x) != 0,
{
    assert(x != 0 ==> {
        let a = x ^ (x << 13);
        let b = a ^ (a >> 17);
        (b ^ (b << 5)) != 0
    }) by (bit_vector);
}

/// The generator's first state for a seed.
pub open spec fn first_state(seed: u32) -> u32 {
    if seed ^ 0x9E37_79B9u32 == 0 {
        0x9E37_79B9
    } else {
        seed ^ 0x9E37_79B9u32
    }
}

/// The wait that the random word `word` picks within `[span/2, span)`.
pub open spec fn jitter(word: u32, span: Duration) -> Duration {
    let half = span.nanos / 2;
    Duration { nanos: (half + word as int % (span.nanos - half)) as u128 }
}

/// A wait lies in the upper half of its span.
pub proof fn jitter_in_window(word: u32, span: Duration)
    requires
        span.nanos > 0,
    ensures
        span.nanos / 2 <= jitter(word, span).nanos < span.nanos,
{
    let half = span.nanos / 2;
    let width = span.nanos - half;
    vstd::arithmetic::div_mod::lemma_mod_bound(word as int, width);
}

impl TrickleTimer {
    /// Bounds in order, interval within them, generator alive.
    pub open spec fn wf(self) -> bool {
        &&& 0 < self.i_min.nanos <= self.interval.nanos <= self.i_max.nanos
        &&& self.rng != 0
    }

    /// The wait picked for `span` by the next random word.
    pub open spec fn next_wait(self, span: Duration) -> Duration {
        jitter(xorshift32(self.rng), span)
    }

    /// The timer after an emission at `now`.
    pub open spec fn emitted(self, now: Duration) -> TrickleTimer {
        TrickleTimer {
            next_fire: Duration {
                nanos: (now.nanos + self.next_wait(self.interval).nanos) as u128,
            },
            interval: Duration {
                nanos: if self.interval.nanos * 2 <= self.i_max.nanos {
                    (self.interval.nanos * 2) as u128
                } else {
                    self.i_max.nanos
                },
            },
            rng: xorshift32(self.rng),
            ..self
        }
    }

    /// The timer after a reset at `now`.
    pub open spec fn restarted(self, now: Duration) -> TrickleTimer {
        TrickleTimer {
            interval: self.i_min,
            next_fire: Duration {
                nanos: (now.nanos + self.next_wait(self.i_min).nanos) as u128,
            },
            rng: xorshift32(self.rng),
            ..self
        }
    }

    /// A timer built at `now`.
    pub open spec fn fresh(
        i_min: Duration,
        i_max: Duration,
        now: Duration,
        seed: u32,
    ) -> TrickleTimer {
        let lo = i_min.longer(Duration { nanos: 1 });
        let rng = first_state(seed);
        TrickleTimer {
            i_min: lo,
            i_max: i_max.longer(lo),
            interval: lo,
            next_fire: Duration { nanos: (now.nanos + jitter(xorshift32(rng), lo).nanos) as u128 },
            rng: xorshift32(rng),
        }
    }

    /// The instant of a fire scheduled at `now` within `span` can be counted.
    pub open spec fn in_range(now: Duration, span: Duration) -> bool {
        now.nanos + span.nanos <= u128::MAX
    }

    /// Build a timer with the given bounds, scheduling its first emission within
    /// `[i_min/2, i_min)` after `now`.  `i_max` is raised to `i_min` where it is
    /// below, and `i_min` is at least 1 ns.
    pub fn new(i_min: Duration, i_max: Duration, now: Duration, seed: u32) -> (t: TrickleTimer)
        requires
            TrickleTimer::in_range(now, i_min.longer(Duration { nanos: 1 })),
        ensures
            t == TrickleTimer::fresh(i_min, i_max, now, seed),
            t.wf(),
    {
        let lo = i_min.max(Duration::from_nanos(1));
        let hi = i_max.max(lo);
        let folded: u32 = seed ^ 0x9E37_79B9;
        let rng: u32 = if folded == 0 { 0x9E37_79B9 } else { folded };
        let mut timer = TrickleTimer { i_min: lo, i_max: hi, interval: lo, next_fire: now, rng };
        let wait = timer.jittered(lo);
        timer.next_fire = now.plus(wait);
        timer
    }

    /// Advance the generator and return the next pseudo-random word.
    fn next_rand(&mut self) -> (word: u32)
        requires
            old(self).rng != 0,
        ensures
            word == xorshift32(old(self).rng),
            *final(self) == (TrickleTimer { rng: word, ..*old(self) }),
            word != 0,
    {
        let mut x: u32 = self.rng;
        proof {
            xorshift32_stays_nonzero(x);
        }
        x = x ^ (x << 13);
        x = x ^ (x >> 17);
        x = x ^ (x << 5);
        self.rng = x;
        x
    }

    /// A wait within `[span/2, span)`.
    fn jittered(&mut self, span: Duration) -> (wait: Duration)
        requires
            old(self).rng != 0,
            span.nanos > 0,
        ensures
            wait == old(self).next_wait(span),
            span.nanos / 2 <= wait.nanos < span.nanos,
            *final(self) == (TrickleTimer { rng: xorshift32(old(self).rng), ..*old(self) }),
            final(self).rng != 0,
    {
        let half: u128 = span.nanos / 2;
        let width: u128 = span.nanos - half;
        let word: u32 = self.next_rand();
        proof {
            jitter_in_window(word, span);
        }
        Duration { nanos: half + (word as u128) % width }
    }

    /// Record that an emission just happened at `now`: schedule the next fire
    /// within `[interval/2, interval)`, then double the interval toward `i_max`.
    pub fn on_emit(&mut self, now: Duration)
        requires
            old(self).wf(),
            TrickleTimer::in_range(now, old(self).interval),
        ensures
            *final(self) == old(self).emitted(now),
            final(self).wf(),
    {
        let wait = self.jittered(self.interval);
        self.next_fire = now.plus(wait);
        self.interval = if self.interval.nanos <= self.i_max.nanos / 2 {
            Duration { nanos: self.interval.nanos * 2 }
        } else {
            self.i_max
        };
    }

    /// Reset to the smallest interval and reschedule the next fire within
    /// `[i_min/2, i_min)` after `now`.
    pub fn reset(&mut self, now: Duration)
        requires
            old(self).wf(),
            TrickleTimer::in_range(now, old(self).i_min),
        ensures
            *final(self) == old(self).restarted(now),
            final(self).wf(),
    {
        self.interval = self.i_min;
        let wait = self.jittered(self.i_min);
        self.next_fire = now.plus(wait);
    }

    /// Time remaining until the next scheduled emission, zero once it has passed.
    pub fn time_until(&self, now: Duration) -> (d: Duration)
        ensures
            d == self.next_fire.minus(now),
    {
        self.next_fire.saturating_sub(now)
    }

    /// Whether an emission is due as of `now`.
    pub fn due(&self, now: Duration) -> (d: bool)
        ensures
            d == (now.nanos >= self.next_fire.nanos),
    {
        now.nanos >= self.next_fire.nanos
    }

    /// The current interval.
    pub fn interval(&self) -> (d: Duration)
        ensures
            d == self.interval,
    {
        self.interval
    }

    /// The smallest interval.
    pub fn i_min(&self) -> (d: Duration)
        ensures
            d == self.i_min,
    {
        self.i_min
    }

    /// The largest interval.
    pub fn i_max(&self) -> (d: Duration)
        ensures
            d == self.i_max,
    {
        self.i_max
    }
}

/// An emission never shortens the interval and never takes it past `i_max`; it
/// schedules the next fire in the upper half of the interval then in force.
pub proof fn emission_backs_off(t: TrickleTimer, now: Duration)
    requires
        t.wf(),
        TrickleTimer::in_range(now, t.interval),
    ensures
        t.emitted(now).wf(),
        t.interval.nanos <= t.emitted(now).interval.nanos <= t.i_max.nanos,
        t.emitted(now).interval.nanos == t.interval.nanos * 2 || t.emitted(now).interval
            == t.i_max,
        now.nanos + t.interval.nanos / 2 <= t.emitted(now).next_fire.nanos,
        t.emitted(now).next_fire.nanos < now.nanos + t.interval.nanos,
{
    xorshift32_stays_nonzero(t.rng);
    jitter_in_window(xorshift32(t.rng), t.interval);
}

/// A reset brings the interval back to `i_min` and the next fire into its upper
/// half.
pub proof fn reset_is_aggressive(t: TrickleTimer, now: Duration)
    requires
        t.wf(),
        TrickleTimer::in_range(now, t.i_min),
    ensures
        t.restarted(now).wf(),
        t.restarted(now).interval == t.i_min,
        now.nanos + t.i_min.nanos / 2 <= t.restarted(now).next_fire.nanos,
        t.restarted(now).next_fire.nanos < now.nanos + t.i_min.nanos,
{
    xorshift32_stays_nonzero(t.rng);
    jitter_in_window(xorshift32(t.rng), t.i_min);
}

/// A timer with equal bounds keeps one cadence for ever.
pub proof fn equal_bounds_never_back_off(t: TrickleTimer, now: Duration)
    requires
        t.wf(),
        t.i_min == t.i_max,
        TrickleTimer::in_range(now, t.interval),
    ensures
        t.emitted(now).interval == t.interval,
{
}

/// A timer after emissions at the given instants, in order.
pub open spec fn after_emissions(t: TrickleTimer, times: Seq<Duration>) -> TrickleTimer
    decreases times.len(),
{
    if times.len() == 0 {
        t
    } else {
        after_emissions(t, times.drop_last()).emitted(times.last())
    }
}

/// `2` to the `n`.
pub open spec fn doubled(n: nat) -> nat
    decreases n,
{
    if n == 0 {
        1
    } else {
        2 * doubled((n - 1) as nat)
    }
}

/// The interval backs off exponentially: `n` emissions after it stood at `i_min`
/// it is `i_min` doubled `n` times, capped at `i_max`, whenever they happened.
pub proof fn interval_doubles_to_the_cap(t: TrickleTimer, times: Seq<Duration>)
    requires
        t.wf(),
        t.interval == t.i_min,
    ensures
        ({
            let n = times.len();
            let after = after_emissions(t, times);
            &&& after.i_min == t.i_min
            &&& after.i_max == t.i_max
            &&& after.interval.nanos == (if t.i_min.nanos * doubled(n) <= t.i_max.nanos {
                t.i_min.nanos * doubled(n)
            } else {
                t.i_max.nanos as int
            })
        }),
    decreases times.len(),
{
    let n = times.len();
    if n == 0 {
        assert(doubled(0) == 1);
        assert(t.i_min.nanos * doubled(n) == t.i_min.nanos) by (nonlinear_arith)
            requires
                doubled(n) == 1,
        ;
    } else {
        interval_doubles_to_the_cap(t, times.drop_last());
        let before = doubled((n - 1) as nat);
        assert(t.i_min.nanos * doubled(n) == 2 * (t.i_min.nanos * before)) by (nonlinear_arith)
            requires
                doubled(n) == 2 * before,
        ;
        if t.i_min.nanos * before > t.i_max.nanos {
            assert(t.i_min.nanos * doubled(n) > t.i_max.nanos);
        }
    }
}

/// Every wait in the upper half of a span is drawn by some random word, so that
/// neighbours that reset together spread out over it.
pub proof fn every_wait_can_be_drawn(span: Duration, wait: Duration)
    requires
        span.nanos / 2 <= wait.nanos < span.nanos,
        wait.nanos - span.nanos / 2 <= u32::MAX,
    ensures
        exists|word: u32| #[trigger] jitter(word, span) == wait,
{
    let word = (wait.nanos - span.nanos / 2) as u32;
    vstd::arithmetic::div_mod::lemma_small_mod(
        word as nat,
        (span.nanos - span.nanos / 2) as nat,
    );
    assert(jitter(word, span) == wait);
}

/// Each word drawn differs from the one before.
pub proof fn generator_moves_on(x: u32)
    requires
        x != 0,
    ensures
        xorshift32(x) != x,
{
    assert(x != 0 ==> {
        let a = x ^ (x << 13);
        let b = a ^ (a >> 17);
        (b ^ (b << 5)) != x
    }) by (bit_vector);
}

/// Different seeds start the generator at different places, but for one seed that
/// would start it at zero.
pub proof fn seeds_start_apart(a: u32, b: u32)
    requires
        a != b,
        a != 0x9E37_79B9,
        b != 0x9E37_79B9,
    ensures
        first_state(a) != first_state(b),
        first_state(a) != 0,
{
    assert(a != b ==> a ^ 0x9E37_79B9u32 != b ^ 0x9E37_79B9u32) by (bit_vector);
    assert(a != 0x9E37_79B9u32 ==> a ^ 0x9E37_79B9u32 != 0) by (bit_vector);
    assert(b != 0x9E37_79B9u32 ==> b ^ 0x9E37_79B9u32 != 0) by (bit_vector);
}

/// A new timer starts at its smallest interval, at least a nanosecond, with its
/// largest no smaller, and fires first in the upper half of it.
pub proof fn new_timer_starts_small(i_min: Duration, i_max: Duration, now: Duration, seed: u32)
    requires
        now.nanos + i_min.nanos < u128::MAX,
    ensures
        ({
            let t = TrickleTimer::fresh(i_min, i_max, now, seed);
            &&& t.interval == t.i_min
            &&& i_min.nanos > 0 ==> t.i_min == i_min
            &&& i_min.nanos == 0 ==> t.i_min.nanos == 1
            &&& i_max.nanos >= t.i_min.nanos ==> t.i_max == i_max
            &&& i_max.nanos < t.i_min.nanos ==> t.i_max == t.i_min
            &&& now.nanos + t.i_min.nanos / 2 <= t.next_fire.nanos < now.nanos + t.i_min.nanos
        }),
{
    let t = TrickleTimer::fresh(i_min, i_max, now, seed);
    jitter_in_window(xorshift32(first_state(seed)), t.i_min);
}

/// Neither an emission nor a reset changes a timer's bounds.
pub proof fn bounds_stay(t: TrickleTimer, now: Duration)
    ensures
        t.emitted(now).i_min == t.i_min,
        t.emitted(now).i_max == t.i_max,
        t.restarted(now).i_min == t.i_min,
        t.restarted(now).i_max == t.i_max,
{
}

} // verus!
