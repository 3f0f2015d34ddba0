//! Telling a bridge that is running from one that was killed.
//!
//! The bridge writes its note again every [`beat`], so the file's modified
//! time is a pulse. A reader that finds one older than [`stale`] is looking
//! at something abandoned. Nothing here reads a clock.

use crate::time::{Duration, NANOS_PER_SEC};
use vstd::prelude::*;

verus! {

/// How often a running bridge touches its note, in seconds.
pub const BEAT_SECS: u64 = 2;

/// How old a note has to be, in seconds, before the bridge behind it is
/// presumed gone: three beats.
pub const STALE_SECS: u64 = 6;

/// How often a running bridge touches its note: two seconds. One small write,
/// and short enough that a reader notices an abandoned bridge quickly.
pub fn beat() -> (d: Duration)
    ensures
        d@ == BEAT_SECS * NANOS_PER_SEC,
{
    Duration::from_secs(BEAT_SECS)
}

/// How old a note has to be before the bridge behind it is presumed gone.
/// One missed beat is a busy machine; three is a process that is not there.
pub fn stale() -> (d: Duration)
    ensures
        d@ == STALE_SECS * NANOS_PER_SEC,
{
    Duration::from_secs(STALE_SECS)
}

/// What a note's age says about the bridge that wrote it.
#[derive(Debug, Clone, Copy, PartialEq, Eq, Structural)]
pub enum Pulse {
    /// Touched recently. Something is running.
    Beating,
    /// Old enough that nothing is maintaining it.
    Abandoned,
    /// In the future, which a clock change can do. Treated as alive.
    Ahead,
}

impl Pulse {
    /// Whether a reader should trust the pages beside this note: anything
    /// but an abandoned one.
    pub fn is_worth_reading(self) -> (b: bool)
        ensures
            b == !(self is Abandoned),
    {
        match self {
            Pulse::Beating | Pulse::Ahead => true,
            Pulse::Abandoned => false,
        }
    }

    /// One word, for a machine.
    pub fn word(self) -> (w: &'static str)
        ensures
            w@ == (match self {
                Pulse::Beating => "beating"@,
                Pulse::Abandoned => "abandoned"@,
                Pulse::Ahead => "ahead"@,
            }),
    {
        match self {
            Pulse::Beating => "beating",
            Pulse::Abandoned => "abandoned",
            Pulse::Ahead => "ahead",
        }
    }

    /// A sentence for a person.
    pub fn describe(self) -> (w: &'static str)
        ensures
            w@ == description(self),
    {
        match self {
            Pulse::Beating => "a bridge is running",
            Pulse::Abandoned => "the bridge that published this is gone — the pages are whatever it left",
            Pulse::Ahead => "the note is dated ahead of this clock, which is not a fault",
        }
    }
}

/// The sentence that says what a pulse means.
pub open spec fn description(p: Pulse) -> Seq<char> {
    match p {
        Pulse::Beating => "a bridge is running"@,
        Pulse::Abandoned => "the bridge that published this is gone — the pages are whatever it left"@,
        Pulse::Ahead => "the note is dated ahead of this clock, which is not a fault"@,
    }
}

/// What a note's age says: ahead wins, then an age past `stale_after` is
/// abandoned, and anything else — exactly at the edge included — is beating.
pub open spec fn pulse_of(age: nat, ahead: bool, stale_after: nat) -> Pulse {
    if ahead {
        Pulse::Ahead
    } else if age > stale_after {
        Pulse::Abandoned
    } else {
        Pulse::Beating
    }
}

/// Read a pulse from how long ago the note was touched: ahead wins, then an
/// age past `stale_after` is abandoned, and anything else — exactly at the
/// edge included — is beating.
pub fn pulse(age: Duration, ahead: bool, stale_after: Duration) -> (p: Pulse)
    ensures
        p == pulse_of(age@, ahead, stale_after@),
{
    if ahead {
        return Pulse::Ahead;
    }
    if stale_after.shorter_than(&age) {
        return Pulse::Abandoned;
    }
    Pulse::Beating
}

/// Whether it is time to touch the note again: once a whole beat has passed.
pub fn due_to_beat(since_last: Duration, every: Duration) -> (b: bool)
    ensures
        b == (since_last@ >= every@),
{
    every.at_most(&since_last)
}

} // verus!
