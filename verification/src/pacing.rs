//! How often to look, when looking costs something.
//!
//! Keep the fast interval while the bytes are changing, and back off
//! geometrically when they are not. The backoff resets the instant anything
//! moves rather than easing back down.

use crate::time::{Duration, MAX_NANOS, NANOS_PER_MILLI, min_int};
use vstd::prelude::*;

verus! {

/// How long to wait when something is happening, in milliseconds.
pub const QUICK_MILLIS: u64 = 4;

/// How long to wait when nothing has happened for a while, in milliseconds.
pub const SLOWEST_MILLIS: u64 = 64;

/// How long to wait when something is happening: four milliseconds, well
/// inside both a 333 Hz writer and a 60 Hz reader.
pub fn quick() -> (d: Duration)
    ensures
        d@ == QUICK_MILLIS * NANOS_PER_MILLI,
{
    Duration::from_millis(QUICK_MILLIS)
}

/// How long to wait when nothing has happened for a while: sixty-four
/// milliseconds. The ceiling rather than the resting place.
pub fn slowest() -> (d: Duration)
    ensures
        d@ == SLOWEST_MILLIS * NANOS_PER_MILLI,
{
    Duration::from_millis(SLOWEST_MILLIS)
}

/// The pace to look at one page, and how it moves.
#[derive(Debug, PartialEq, Eq)]
pub struct Pacing {
    quick: Duration,
    slowest: Duration,
    current: Duration,
}

impl Pacing {
    #[verifier::type_invariant]
    spec fn keeps_its_bounds(self) -> bool {
        self.quick@ <= self.current@ <= self.slowest@
    }

    /// The pace while something is changing.
    pub closed spec fn floor(self) -> nat {
        self.quick@
    }

    /// The slowest it will ever look.
    pub closed spec fn ceiling(self) -> nat {
        self.slowest@
    }

    /// The pace right now.
    pub closed spec fn pace(self) -> nat {
        self.current@
    }

    /// A pace of your own, for a program that writes at another rate.
    ///
    /// A `slowest` below `quick` is raised to it rather than refused: the
    /// meaning of "never back off" is a ceiling equal to the floor.
    pub fn new(quick: Duration, slowest: Duration) -> (p: Pacing)
        ensures
            p.floor() == quick@,
            p.ceiling() == (if slowest@ < quick@ { quick@ } else { slowest@ }),
            p.pace() == quick@,
    {
        let slowest = if slowest.shorter_than(&quick) {
            quick
        } else {
            slowest
        };
        Pacing { quick, slowest, current: quick }
    }

    /// What this page's pace is right now; never quicker than the floor nor
    /// slower than the ceiling.
    pub fn interval(&self) -> (d: Duration)
        ensures
            d@ == self.pace(),
            self.floor() <= d@ <= self.ceiling(),
    {
        proof {
            use_type_invariant(self);
        }
        self.current
    }

    /// Tell it what the last look found, and get the next wait.
    ///
    /// **Asymmetric on purpose.** A change jumps straight back to the floor;
    /// a look that found nothing doubles the pace, saturating, up to the
    /// ceiling. Either way the pace stays between the two.
    pub fn after(&mut self, changed: bool) -> (d: Duration)
        ensures
            final(self).floor() == old(self).floor(),
            final(self).ceiling() == old(self).ceiling(),
            final(self).pace() == (if changed {
                old(self).floor() as int
            } else {
                backed_off(old(self).pace(), old(self).ceiling())
            }),
            d@ == final(self).pace(),
            final(self).floor() <= d@ <= final(self).ceiling(),
    {
        proof {
            use_type_invariant(&*self);
        }
        let next = if changed {
            self.quick
        } else {
            let doubled = self.current.saturating_mul(2);
            assert(doubled@ >= self.current@);
            doubled.min(self.slowest)
        };
        assert(self.quick@ <= next@ <= self.slowest@);
        self.current = next;
        next
    }
}

impl Clone for Pacing {
    fn clone(&self) -> (p: Pacing)
        ensures
            p == *self,
    {
        proof {
            use_type_invariant(self);
        }
        Pacing { quick: self.quick, slowest: self.slowest, current: self.current }
    }
}

impl Default for Pacing {
    fn default() -> (p: Pacing)
        ensures
            p.floor() == QUICK_MILLIS * NANOS_PER_MILLI,
            p.ceiling() == SLOWEST_MILLIS * NANOS_PER_MILLI,
            p.pace() == QUICK_MILLIS * NANOS_PER_MILLI,
    {
        Pacing::new(quick(), slowest())
    }
}

/// The pace after a look that found nothing: doubled, saturating, and
/// capped at the ceiling.
pub open spec fn backed_off(pace: nat, ceiling: nat) -> int {
    min_int(min_int(pace * 2int, MAX_NANOS as int), ceiling as int)
}

/// **Backing off only ever slows, and never past the ceiling**: however
/// long nothing changes, each look waits at least as long as the one before
/// — a ceiling near the top of the range included — and no longer than the
/// ceiling. A change is what brings it back.
pub proof fn lemma_backing_off_only_slows(pace: nat, floor: nat, ceiling: nat)
    requires
        floor <= pace <= ceiling <= MAX_NANOS,
    ensures
        pace <= backed_off(pace, ceiling) <= ceiling,
        floor <= backed_off(pace, ceiling),
{
}

/// **A pace that never changes reaches the ceiling**: from the floor, a
/// run of looks that all found nothing is at the ceiling once the floor
/// doubled that many times would pass it.
pub open spec fn paced(pace: nat, ceiling: nat, looks: nat) -> nat
    decreases looks,
{
    if looks == 0 {
        pace
    } else {
        paced(backed_off(pace, ceiling) as nat, ceiling, (looks - 1) as nat)
    }
}

/// Silence long enough leaves the pace at the ceiling, and once there it
/// stays there.
pub proof fn lemma_silence_settles_at_the_ceiling(pace: nat, ceiling: nat, looks: nat)
    requires
        0 < pace <= ceiling <= MAX_NANOS,
        ceiling <= pace * vstd::arithmetic::power2::pow2(looks),
    ensures
        paced(pace, ceiling, looks) == ceiling,
    decreases looks,
{
    if looks == 0 {
        vstd::arithmetic::power2::lemma_pow2(0);
        vstd::arithmetic::power::lemma_pow0(2);
        assert(pace * 1 == pace);
    } else {
        let next = backed_off(pace, ceiling) as nat;
        vstd::arithmetic::power2::lemma_pow2_unfold(looks);
        assert(pace * vstd::arithmetic::power2::pow2(looks) == (pace * 2) * vstd::arithmetic::power2::pow2(
            (looks - 1) as nat,
        )) by (nonlinear_arith)
            requires
                vstd::arithmetic::power2::pow2(looks) == 2 * vstd::arithmetic::power2::pow2(
                    (looks - 1) as nat,
                ),
        ;
        if pace * 2 >= ceiling {
            assert(next == ceiling);
            lemma_stays_at_ceiling(ceiling, (looks - 1) as nat);
        } else {
            assert(next == pace * 2);
            lemma_silence_settles_at_the_ceiling(next, ceiling, (looks - 1) as nat);
        }
    }
}

/// At the ceiling, silence keeps it there.
pub proof fn lemma_stays_at_ceiling(ceiling: nat, looks: nat)
    requires
        ceiling <= MAX_NANOS,
    ensures
        paced(ceiling, ceiling, looks) == ceiling,
    decreases looks,
{
    if looks > 0 {
        assert(backed_off(ceiling, ceiling) == ceiling);
        lemma_stays_at_ceiling(ceiling, (looks - 1) as nat);
    }
}

} // verus!
