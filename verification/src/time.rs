//! The engine's clock: spans of time counted in whole nanoseconds.

use vstd::prelude::*;

verus! {

/// A span of time, or an instant measured from the engine's start.
#[derive(Clone, Copy, Debug, PartialEq, Eq, PartialOrd, Ord, Hash, Structural)]
pub struct Duration {
    /// The span in nanoseconds.
    pub nanos: u128,
}

/// `n * k`, or the largest `u128` where that does not fit.
pub open spec fn capped_product(n: u128, k: u32) -> u128 {
    if n * k <= u128::MAX {
        (n * k) as u128
    } else {
        u128::MAX
    }
}

impl Duration {
    /// The empty span.
    pub fn zero() -> (d: Duration)
        ensures
            d.nanos == 0,
    {
        Duration { nanos: 0 }
    }

    /// A span of whole nanoseconds.
    pub fn from_nanos(nanos: u64) -> (d: Duration)
        ensures
            d.nanos == nanos,
    {
        Duration { nanos: nanos as u128 }
    }

    /// A span of whole milliseconds.
    pub fn from_millis(millis: u64) -> (d: Duration)
        ensures
            d.nanos == millis * 1_000_000,
    {
        Duration { nanos: millis as u128 * 1_000_000 }
    }

    /// A span of whole seconds.
    pub fn from_secs(secs: u64) -> (d: Duration)
        ensures
            d.nanos == secs * 1_000_000_000,
    {
        Duration { nanos: secs as u128 * 1_000_000_000 }
    }

    /// The span in nanoseconds.
    pub fn as_nanos(&self) -> (n: u128)
        ensures
            n == self.nanos,
    {
        self.nanos
    }

    /// Whether the span is empty.
    pub fn is_zero(&self) -> (z: bool)
        ensures
            z == (self.nanos == 0),
    {
        self.nanos == 0
    }

    /// `self - other`, or zero where `other` is the longer.
    pub open spec fn minus(self, other: Duration) -> Duration {
        Duration {
            nanos: if self.nanos >= other.nanos {
                (self.nanos - other.nanos) as u128
            } else {
                0
            },
        }
    }

    /// `self - other`, or zero where `other` is the longer.
    pub fn saturating_sub(self, other: Duration) -> (d: Duration)
        ensures
            d == self.minus(other),
    {
        Duration {
            nanos: if self.nanos >= other.nanos {
                self.nanos - other.nanos
            } else {
                0
            },
        }
    }

    /// `self` taken `k` times, capped at the largest span.
    pub fn saturating_mul(self, k: u32) -> (d: Duration)
        ensures
            d.nanos == capped_product(self.nanos, k),
    {
        let product: Option<u128> = self.nanos.checked_mul(k as u128);
        match product {
            Some(nanos) => Duration { nanos },
            None => Duration { nanos: u128::MAX },
        }
    }

    /// The longer of two spans.
    pub open spec fn longer(self, other: Duration) -> Duration {
        if self.nanos >= other.nanos {
            self
        } else {
            other
        }
    }

    /// The shorter of two spans.
    pub open spec fn shorter(self, other: Duration) -> Duration {
        if self.nanos <= other.nanos {
            self
        } else {
            other
        }
    }

    /// The longer of two spans.
    pub fn max(self, other: Duration) -> (d: Duration)
        ensures
            d == self.longer(other),
    {
        if self.nanos >= other.nanos {
            self
        } else {
            other
        }
    }

    /// The shorter of two spans.
    pub fn min(self, other: Duration) -> (d: Duration)
        ensures
            d == self.shorter(other),
    {
        if self.nanos <= other.nanos {
            self
        } else {
            other
        }
    }

    /// The sum of two spans whose sum can be counted.
    pub fn plus(self, other: Duration) -> (d: Duration)
        requires
            self.nanos + other.nanos <= u128::MAX,
        ensures
            d.nanos == self.nanos + other.nanos,
    {
        Duration { nanos: self.nanos + other.nanos }
    }
}

/// What a difference and the shorter span make up is the longer; the longer of two
/// spans is no shorter than either, the shorter no longer, and each is one of them.
pub proof fn spans_compare(a: Duration, b: Duration)
    ensures
        a.nanos >= b.nanos ==> a.minus(b).nanos + b.nanos == a.nanos,
        a.nanos <= b.nanos ==> a.minus(b).nanos == 0,
        a.longer(b).nanos >= a.nanos && a.longer(b).nanos >= b.nanos,
        a.longer(b) == a || a.longer(b) == b,
        a.shorter(b).nanos <= a.nanos && a.shorter(b).nanos <= b.nanos,
        a.shorter(b) == a || a.shorter(b) == b,
        a.longer(b).nanos + a.shorter(b).nanos == a.nanos + b.nanos,
{
}

/// A capped product is the product wherever that can be counted, and the most that
/// can be counted otherwise.
pub proof fn capped_product_is_the_product(n: u128, k: u32)
    ensures
        n * k <= u128::MAX ==> capped_product(n, k) == n * k,
        n * k > u128::MAX ==> capped_product(n, k) == u128::MAX,
{
}

} // verus!
