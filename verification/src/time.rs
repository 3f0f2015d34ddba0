//! A span of time, counted in whole nanoseconds.
//!
//! The library's decisions are all about how long something has been quiet
//! and how long to wait, so time is a value here rather than a clock: a test
//! can hand a decision the fourth second directly. The range is the same as
//! `core::time::Duration`'s — up to `u64::MAX` seconds and 999 999 999
//! nanoseconds — and every operation that could leave it saturates.

use vstd::prelude::*;

verus! {

/// The largest span there is, in nanoseconds.
pub const MAX_NANOS: u128 = 18_446_744_073_709_551_615_999_999_999u128;

/// Nanoseconds in a millisecond.
pub const NANOS_PER_MILLI: u128 = 1_000_000u128;

/// Nanoseconds in a second.
pub const NANOS_PER_SEC: u128 = 1_000_000_000u128;

/// A span of time.
#[derive(Clone, Copy, Debug, PartialEq, Eq, Structural, PartialOrd, Ord, Hash)]
pub struct Duration {
    pub(crate) nanos: u128,
}

impl View for Duration {
    type V = nat;

    /// The span in nanoseconds.
    closed spec fn view(&self) -> nat {
        self.nanos as nat
    }
}

/// The smaller of two integers.
pub open spec fn min_int(a: int, b: int) -> int {
    if a <= b { a } else { b }
}

impl Duration {
    #[verifier::type_invariant]
    spec fn within_range(self) -> bool {
        self.nanos <= MAX_NANOS
    }

    /// Nothing at all.
    pub fn zero() -> (d: Duration)
        ensures
            d@ == 0,
    {
        Duration { nanos: 0 }
    }

    /// The longest span there is.
    pub fn max_value() -> (d: Duration)
        ensures
            d@ == MAX_NANOS,
    {
        Duration { nanos: MAX_NANOS }
    }

    /// Whole seconds.
    pub fn from_secs(secs: u64) -> (d: Duration)
        ensures
            d@ == secs * NANOS_PER_SEC,
    {
        assert(secs * NANOS_PER_SEC <= MAX_NANOS) by (nonlinear_arith)
            requires
                secs <= u64::MAX,
        ;
        Duration { nanos: (secs as u128) * NANOS_PER_SEC }
    }

    /// Whole milliseconds.
    pub fn from_millis(millis: u64) -> (d: Duration)
        ensures
            d@ == millis * NANOS_PER_MILLI,
    {
        assert(millis * NANOS_PER_MILLI <= MAX_NANOS) by (nonlinear_arith)
            requires
                millis <= u64::MAX,
        ;
        Duration { nanos: (millis as u128) * NANOS_PER_MILLI }
    }

    /// Seconds and a number of nanoseconds on top, which may itself be more
    /// than a second; saturating at the longest span.
    pub fn from_secs_nanos(secs: u64, nanos: u32) -> (d: Duration)
        ensures
            d@ == min_int(secs * NANOS_PER_SEC + nanos, MAX_NANOS as int),
    {
        let whole = Duration::from_secs(secs);
        let part = Duration { nanos: nanos as u128 };
        whole.saturating_add(part)
    }

    /// The span in nanoseconds.
    pub fn as_nanos(&self) -> (n: u128)
        ensures
            n == self@,
    {
        self.nanos
    }

    /// The span in whole milliseconds, rounded down.
    pub fn as_millis(&self) -> (n: u128)
        ensures
            n == self@ / NANOS_PER_MILLI as nat,
    {
        self.nanos / NANOS_PER_MILLI
    }

    /// Whether it is no time at all.
    pub fn is_zero(&self) -> (b: bool)
        ensures
            b == (self@ == 0),
    {
        self.nanos == 0
    }

    /// The sum, or the longest span if the sum would be longer.
    pub fn saturating_add(self, other: Duration) -> (d: Duration)
        ensures
            d@ == min_int(self@ + other@ as int, MAX_NANOS as int),
    {
        proof {
            use_type_invariant(self);
            use_type_invariant(other);
        }
        if self.nanos > MAX_NANOS - other.nanos {
            Duration { nanos: MAX_NANOS }
        } else {
            Duration { nanos: self.nanos + other.nanos }
        }
    }

    /// The difference, or nothing if `other` is the longer.
    pub fn saturating_sub(self, other: Duration) -> (d: Duration)
        ensures
            d@ == (if self@ >= other@ { self@ - other@ } else { 0 }),
    {
        proof {
            use_type_invariant(self);
        }
        if self.nanos >= other.nanos {
            Duration { nanos: self.nanos - other.nanos }
        } else {
            Duration { nanos: 0 }
        }
    }

    /// The product, or the longest span if it would be longer.
    pub fn saturating_mul(self, by: u32) -> (d: Duration)
        ensures
            d@ == min_int(self@ * by, MAX_NANOS as int),
            self@ <= MAX_NANOS,
    {
        proof {
            use_type_invariant(self);
        }
        if by == 0 {
            assert(self@ * by == 0) by (nonlinear_arith)
                requires
                    by == 0,
            ;
            return Duration { nanos: 0 };
        }
        let limit = MAX_NANOS / (by as u128);
        if self.nanos > limit {
            assert(self@ * by > MAX_NANOS) by (nonlinear_arith)
                requires
                    self@ > limit,
                    limit == MAX_NANOS / (by as u128),
                    by > 0,
            ;
            Duration { nanos: MAX_NANOS }
        } else {
            assert(self@ * by <= MAX_NANOS) by (nonlinear_arith)
                requires
                    self@ <= limit,
                    limit == MAX_NANOS / (by as u128),
                    by > 0,
            ;
            Duration { nanos: self.nanos * (by as u128) }
        }
    }

    /// The shorter of the two.
    pub fn min(self, other: Duration) -> (d: Duration)
        ensures
            d@ == min_int(self@ as int, other@ as int),
    {
        if self.nanos <= other.nanos {
            self
        } else {
            other
        }
    }

    /// The longer of the two.
    pub fn max(self, other: Duration) -> (d: Duration)
        ensures
            d@ == (if self@ >= other@ { self@ } else { other@ }),
    {
        if self.nanos >= other.nanos {
            self
        } else {
            other
        }
    }

    /// Whether this is no longer than `other`.
    pub fn at_most(&self, other: &Duration) -> (b: bool)
        ensures
            b == (self@ <= other@),
    {
        self.nanos <= other.nanos
    }

    /// Whether this is strictly shorter than `other`.
    pub fn shorter_than(&self, other: &Duration) -> (b: bool)
        ensures
            b == (self@ < other@),
    {
        self.nanos < other.nanos
    }
}

} // verus!
