//! The adaptive emission timer.

use wayfinder::batman::trickle::TrickleTimer;
use wayfinder::time::Duration;

fn i_min() -> Duration {
    Duration::from_secs(1)
}

fn i_max() -> Duration {
    Duration::from_secs(64)
}

// Half of a span.
fn half(d: Duration) -> Duration {
    Duration { nanos: d.nanos / 2 }
}

/// A fresh timer schedules its first fire within `[i_min/2, i_min)` and
/// starts at the `i_min` interval.
#[test]
fn first_fire_is_within_i_min_window() {
    let t = TrickleTimer::new(i_min(), i_max(), Duration::zero(), 1);
    assert_eq!(t.interval(), i_min());
    let until = t.time_until(Duration::zero());
    assert!(until >= half(i_min()) && until < i_min(), "first fire {until:?}");
}

/// Each emission doubles the interval, and the scheduled wait always falls
/// within `[interval/2, interval)` of the new interval.
#[test]
fn interval_doubles_on_each_emit() {
    let mut t = TrickleTimer::new(i_min(), i_max(), Duration::zero(), 7);
    let mut now = Duration::zero();
    let mut expected = i_min();
    for _ in 0..5 {
        // The wait scheduled by this emit must lie in [expected/2, expected).
        t.on_emit(now);
        let wait = t.time_until(now);
        assert!(
            wait >= half(expected) && wait < expected,
            "wait {wait:?} not within [{:?}, {:?})",
            half(expected),
            expected
        );
        now = t.next_fire;
        expected = expected.saturating_mul(2).min(i_max());
        assert_eq!(t.interval(), expected);
    }
}

/// The interval saturates at `i_max` rather than growing without bound.
#[test]
fn interval_caps_at_i_max() {
    let mut t = TrickleTimer::new(i_min(), i_max(), Duration::zero(), 3);
    let mut now = Duration::zero();
    for _ in 0..20 {
        t.on_emit(now);
        now = t.next_fire;
    }
    assert_eq!(t.interval(), i_max());
}

/// `reset` collapses a grown interval back to `i_min` and reschedules the
/// next fire into the aggressive window.
#[test]
fn reset_returns_to_i_min() {
    let mut t = TrickleTimer::new(i_min(), i_max(), Duration::zero(), 11);
    let mut now = Duration::zero();
    for _ in 0..6 {
        t.on_emit(now);
        now = t.next_fire;
    }
    assert!(t.interval() > i_min(), "interval should have grown");

    t.reset(now);
    assert_eq!(t.interval(), i_min());
    let until = t.time_until(now);
    assert!(
        until >= half(i_min()) && until < i_min(),
        "post-reset fire {until:?}"
    );
}

/// Two timers with different bounds progress independently — the per-link
/// requirement: a fast link and a slow link back off on their own schedules.
#[test]
fn distinct_bounds_progress_independently() {
    let fast_min = Duration::from_millis(100);
    let fast_max = Duration::from_secs(2);
    let slow_min = Duration::from_secs(5);
    let slow_max = Duration::from_secs(300);

    let mut fast = TrickleTimer::new(fast_min, fast_max, Duration::zero(), 1);
    let mut slow = TrickleTimer::new(slow_min, slow_max, Duration::zero(), 2);

    // The fast link's first fire is strictly sooner than the slow link's.
    assert!(fast.time_until(Duration::zero()) < slow.time_until(Duration::zero()));

    // Drive each a few rounds; they cap at their own ceilings.
    let mut now = Duration::zero();
    for _ in 0..12 {
        fast.on_emit(now);
        now = fast.next_fire;
    }
    assert_eq!(fast.interval(), fast_max);

    let mut now = Duration::zero();
    for _ in 0..12 {
        slow.on_emit(now);
        now = slow.next_fire;
    }
    assert_eq!(slow.interval(), slow_max);
    assert_ne!(fast_max, slow_max);
}

/// An interval of one nanosecond fires again at the instant it emitted.
#[test]
fn shortest_interval_is_due_at_once() {
    let mut t = TrickleTimer::new(Duration::zero(), Duration::zero(), Duration::zero(), 9);
    assert_eq!(t.i_min(), Duration::from_nanos(1));
    assert_eq!(t.i_max(), Duration::from_nanos(1));
    t.on_emit(Duration::from_secs(1));
    assert!(t.due(Duration::from_secs(1)));
}

/// `i_max` below `i_min` is raised to it.
#[test]
fn inverted_bounds_are_raised() {
    let t = TrickleTimer::new(Duration::from_secs(5), Duration::from_secs(2), Duration::zero(), 1);
    assert_eq!(t.i_min(), Duration::from_secs(5));
    assert_eq!(t.i_max(), Duration::from_secs(5));
}

/// The same seed gives the same schedule.
#[test]
fn schedule_is_deterministic() {
    let a = TrickleTimer::new(i_min(), i_max(), Duration::zero(), 42);
    let b = TrickleTimer::new(i_min(), i_max(), Duration::zero(), 42);
    assert_eq!(a, b);
}

/// A seed that would leave the generator at zero is replaced.
#[test]
fn the_generator_never_starts_at_zero() {
    let mut t = TrickleTimer::new(i_min(), i_max(), Duration::zero(), 0x9E37_79B9);
    assert_ne!(t.rng, 0);
    t.on_emit(Duration::zero());
    assert_ne!(t.rng, 0);
}
