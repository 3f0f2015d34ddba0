//! Whether anything is actually moving.
//!
//! `--verify` says what is published and how big it is; nothing said whether
//! a single byte had changed since the game loaded. Watching answers that
//! from the Linux side, where the pages are ordinary files.
//!
//! A block written at 333 Hz cannot be counted by sampling slowly, so what is
//! reported is the proportion of looks that found something different. That
//! separates the cases that matter: written constantly, written now and
//! then, and not written at all.

use crate::time::{Duration, MAX_NANOS, NANOS_PER_MILLI, NANOS_PER_SEC, min_int};
use vstd::prelude::*;

verus! {

/// How often to look while watching, in milliseconds.
pub const LOOK_EVERY_MILLIS: u64 = 20;

/// How long, in seconds, a block may be unchanged before it is called still.
pub const STILL_AFTER_SECS: u64 = 1;

/// How often to look while watching: twenty milliseconds. Fast enough that a
/// block written every frame reads as moving at any frame rate, slow enough
/// that watching a handful of pages is not a core.
pub fn look_every() -> (d: Duration)
    ensures
        d@ == LOOK_EVERY_MILLIS * NANOS_PER_MILLI,
{
    Duration::from_millis(LOOK_EVERY_MILLIS)
}

/// How long a block may be unchanged before it is called still: a second.
pub fn still_after() -> (d: Duration)
    ensures
        d@ == STILL_AFTER_SECS * NANOS_PER_SEC,
{
    Duration::from_secs(STILL_AFTER_SECS)
}

/// What a block is doing.
#[derive(Debug, Clone, Copy, PartialEq, Eq, Structural)]
pub enum Doing {
    /// Changing right now.
    Moving,
    /// Not changing, but it has at some point.
    Still,
    /// Has never changed since watching began.
    Never,
}

impl Doing {
    /// One word for the table.
    pub fn word(self) -> (w: &'static str)
        ensures
            w@ == (match self {
                Doing::Moving => "moving"@,
                Doing::Still => "still"@,
                Doing::Never => "never"@,
            }),
            w@.len() > 0,
    {
        proof {
            reveal_strlit("moving");
            reveal_strlit("still");
            reveal_strlit("never");
        }
        match self {
            Doing::Moving => "moving",
            Doing::Still => "still",
            Doing::Never => "never",
        }
    }
}

/// A span that may not be there, as a number of nanoseconds.
pub open spec fn span_of(d: Option<Duration>) -> Option<nat> {
    match d {
        Some(d) => Some(d@),
        None => None,
    }
}

/// `n + 1`, stopping at the top of `u64`.
pub open spec fn bump(n: u64) -> u64 {
    if n == u64::MAX { n } else { (n + 1) as u64 }
}

/// The proportion of looks that found a change, 0 to 100: `changes * 200`
/// (saturating) over `looks`, halved rounding up, and capped at 100.
pub open spec fn percent_of(looks: u64, changes: u64) -> nat {
    if looks == 0 {
        0
    } else {
        let scaled = min_int(changes * 200, u64::MAX as int) as nat / (looks as nat);
        let rounded = (scaled + 1) / 2;
        if rounded > 100 { 100 } else { rounded as nat }
    }
}

/// What has been seen of one block.
#[derive(Debug, Clone, Copy, PartialEq, Eq, Structural)]
pub struct Activity {
    /// How many looks have been taken.
    pub looks: u64,
    /// How many of them found a change.
    pub changes: u64,
    /// How long since it last changed, if it ever has.
    pub since_change: Option<Duration>,
}

/// What has been seen of one block, as numbers: the looks and changes, and
/// the silence since the last change, if there has been one.
pub struct ActivityView {
    pub looks: u64,
    pub changes: u64,
    pub since_change: Option<nat>,
}

impl View for Activity {
    type V = ActivityView;

    open spec fn view(&self) -> ActivityView {
        ActivityView {
            looks: self.looks,
            changes: self.changes,
            since_change: span_of(self.since_change),
        }
    }
}

/// What one look does to what has been seen: it is counted (saturating); a
/// change is counted too and restarts the silence; no change lengthens a
/// silence there is, saturating.
pub open spec fn saw_step(a: ActivityView, changed: bool, since: nat) -> ActivityView {
    ActivityView {
        looks: bump(a.looks),
        changes: if changed { bump(a.changes) } else { a.changes },
        since_change: if changed {
            Some(0nat)
        } else {
            match a.since_change {
                Some(s) => Some(min_int((s + since) as int, MAX_NANOS as int) as nat),
                None => None,
            }
        },
    }
}

/// What a block is doing, from its silence and how long a block may rest.
pub open spec fn doing_of(since_change: Option<nat>, still_after: nat) -> Doing {
    match since_change {
        None => Doing::Never,
        Some(s) => if s < still_after { Doing::Moving } else { Doing::Still },
    }
}

impl Default for Activity {
    fn default() -> (a: Activity)
        ensures
            a@ == (ActivityView { looks: 0, changes: 0, since_change: None }),
    {
        Activity { looks: 0, changes: 0, since_change: None }
    }
}

impl Activity {
    /// Record one look: count it, and either restart the silence on a change
    /// or lengthen it, saturating, if there has ever been one.
    pub fn saw(&mut self, changed: bool, since_last_look: Duration)
        ensures
            final(self)@ == saw_step(old(self)@, changed, since_last_look@),
    {
        self.looks = self.looks.saturating_add(1);
        if changed {
            self.changes = self.changes.saturating_add(1);
            self.since_change = Some(Duration::zero());
        } else {
            match self.since_change {
                Some(since) => {
                    self.since_change = Some(since.saturating_add(since_last_look));
                },
                None => {},
            }
        }
    }

    /// How many looks have been taken.
    pub fn looks(&self) -> (n: u64)
        ensures
            n == self@.looks,
    {
        self.looks
    }

    /// What it is doing, given how long a block may rest: never if it has
    /// never changed, moving while the silence is shorter than the rest, and
    /// still after that.
    pub fn doing(&self, still_after: Duration) -> (d: Doing)
        ensures
            d == doing_of(self@.since_change, still_after@),
    {
        match self.since_change {
            None => Doing::Never,
            Some(since) => {
                if since.shorter_than(&still_after) {
                    Doing::Moving
                } else {
                    Doing::Still
                }
            },
        }
    }

    /// The proportion of looks that found a change, 0 to 100.
    ///
    /// Rounded rather than truncated, so a block that changed once in two
    /// hundred looks reads as 1 and not 0.
    pub fn percent(&self) -> (p: u8)
        ensures
            p == percent_of(self@.looks, self@.changes),
            p <= 100,
    {
        if self.looks == 0 {
            return 0;
        }
        let times: u64 = if self.changes > u64::MAX / 200 {
            u64::MAX
        } else {
            self.changes * 200
        };
        assert(times == min_int(self.changes * 200, u64::MAX as int));
        let scaled = times / self.looks;
        let rounded = scaled / 2 + scaled % 2;
        assert(rounded == (scaled + 1) / 2);
        if rounded > 100 {
            100
        } else {
            rounded as u8
        }
    }

    /// How long since it last changed, if it ever has.
    pub fn since_change(&self) -> (d: Option<Duration>)
        ensures
            d == self.since_change,
            span_of(d) == self@.since_change,
    {
        self.since_change
    }

    /// Forget the counts but not the silence: the proportion is per
    /// reporting period, how long it has been quiet is not.
    pub fn new_period(&mut self)
        ensures
            final(self)@ == period_step(old(self)@),
    {
        self.looks = 0;
        self.changes = 0;
    }
}

/// What starting a new reporting period does: the counts go, the silence
/// stays.
pub open spec fn period_step(a: ActivityView) -> ActivityView {
    ActivityView { looks: 0, changes: 0, since_change: a.since_change }
}

/// One thing that can happen to what has been seen of a block: a look that
/// did or did not find a change, so long after the one before, or (`None`)
/// the start of a new reporting period.
pub open spec fn activity_step(a: ActivityView, e: Option<(bool, nat)>) -> ActivityView {
    match e {
        Some((changed, since)) => saw_step(a, changed, since),
        None => period_step(a),
    }
}

/// What has been seen after a run of such events, in order.
pub open spec fn activity_after(a: ActivityView, events: Seq<Option<(bool, nat)>>) -> ActivityView
    decreases events.len(),
{
    if events.len() == 0 {
        a
    } else {
        activity_step(activity_after(a, events.drop_last()), events.last())
    }
}

/// How many of the events are looks that found a change.
pub open spec fn changes_in(events: Seq<Option<(bool, nat)>>) -> nat
    decreases events.len(),
{
    if events.len() == 0 {
        0
    } else {
        changes_in(events.drop_last()) + if events.last() matches Some((true, _)) {
            1nat
        } else {
            0nat
        }
    }
}

/// Where the last look that found a change is, if any did.
pub open spec fn last_change(events: Seq<Option<(bool, nat)>>) -> Option<int>
    decreases events.len(),
{
    if events.len() == 0 {
        None
    } else if events.last() matches Some((true, _)) {
        Some(events.len() - 1)
    } else {
        last_change(events.drop_last())
    }
}

/// The time the looks among the events waited, added up.
pub open spec fn waited(events: Seq<Option<(bool, nat)>>) -> nat
    decreases events.len(),
{
    if events.len() == 0 {
        0
    } else {
        waited(events.drop_last()) + match events.last() {
            Some((_, since)) => since,
            None => 0nat,
        }
    }
}

/// The last change is one of the events.
proof fn lemma_last_change_is_an_event(events: Seq<Option<(bool, nat)>>)
    ensures
        last_change(events) matches Some(k) ==> 0 <= k < events.len(),
    decreases events.len(),
{
    if events.len() > 0 {
        lemma_last_change_is_an_event(events.drop_last());
    }
}

/// Whether every event is a look, none a new period.
pub open spec fn all_looks(events: Seq<Option<(bool, nat)>>) -> bool {
    forall|i: int| 0 <= i < events.len() ==> (#[trigger] events[i]) is Some
}

/// The counts over a run of looks with no new period: every look and every
/// change is counted, while they fit.
proof fn lemma_counts_over_looks(a: ActivityView, events: Seq<Option<(bool, nat)>>)
    requires
        all_looks(events),
        a.looks + events.len() <= u64::MAX,
        a.changes + changes_in(events) <= u64::MAX,
    ensures
        activity_after(a, events).looks == a.looks + events.len(),
        activity_after(a, events).changes == a.changes + changes_in(events),
        changes_in(events) <= events.len(),
    decreases events.len(),
{
    if events.len() > 0 {
        let pre = events.drop_last();
        assert forall|i: int| 0 <= i < pre.len() implies (#[trigger] pre[i]) is Some by {
            assert(pre[i] == events[i]);
        }
        assert(events[events.len() - 1] is Some);
        lemma_counts_over_looks(a, pre);
    }
}

/// The proportion of `changes` in `looks` is `100 * changes / looks`
/// rounded half up, and needs no cap, while `changes * 200` fits.
proof fn lemma_percent_is_the_share(looks: u64, changes: u64)
    requires
        changes <= looks,
        changes * 200 <= u64::MAX,
    ensures
        percent_of(looks, changes) == (if looks == 0 {
            0
        } else {
            ((200 * changes as nat) / (looks as nat) + 1) / 2
        }),
{
    if looks > 0 {
        assert(min_int(changes * 200, u64::MAX as int) == 200 * changes);
        assert((200 * changes as nat) / (looks as nat) <= 200) by (nonlinear_arith)
            requires
                changes <= looks,
                looks > 0,
        ;
    }
}

/// **The proportion is the share of looks that found a change**: starting
/// from nothing seen, after any run of looks with no new period between
/// them, `percent` is a hundred times the changes over the looks, rounded
/// half up — for as many looks as a `u64` counts and as many changes as
/// can be doubled a hundred times in one.
pub proof fn lemma_percent_over_a_run(events: Seq<Option<(bool, nat)>>)
    requires
        all_looks(events),
        events.len() <= u64::MAX,
        changes_in(events) * 200 <= u64::MAX,
    ensures
        ({
            let a = activity_after(ActivityView { looks: 0, changes: 0, since_change: None }, events);
            &&& a.looks == events.len()
            &&& a.changes == changes_in(events)
            &&& percent_of(a.looks, a.changes) == (if events.len() == 0 {
                0
            } else {
                ((200 * changes_in(events)) / events.len() + 1) / 2
            })
        }),
{
    let start = ActivityView { looks: 0, changes: 0, since_change: None };
    lemma_counts_over_looks(start, events);
    let a = activity_after(start, events);
    lemma_percent_is_the_share(a.looks, a.changes);
}

/// **The silence is the time since the last change**: starting from a block
/// that has never changed, after any run of looks and new periods, there is
/// no silence if no look found a change, and otherwise the silence is the
/// time the looks after the last change waited, added up and stopping at
/// the top of a `Duration` — and what the block is doing follows from it.
pub proof fn lemma_silence_over_a_run(
    looks: u64,
    changes: u64,
    events: Seq<Option<(bool, nat)>>,
    still_after: nat,
)
    ensures
        ({
            let a = activity_after(
                ActivityView { looks, changes, since_change: None },
                events,
            );
            &&& a.since_change == match last_change(events) {
                None => None,
                Some(k) => Some(min_int(waited(events.skip(k + 1)) as int, MAX_NANOS as int) as nat),
            }
            &&& doing_of(a.since_change, still_after) == match last_change(events) {
                None => Doing::Never,
                Some(k) => if min_int(waited(events.skip(k + 1)) as int, MAX_NANOS as int)
                    < still_after {
                    Doing::Moving
                } else {
                    Doing::Still
                },
            }
        }),
    decreases events.len(),
{
    let start = ActivityView { looks, changes, since_change: None };
    if events.len() > 0 {
        let n = events.len();
        let pre = events.drop_last();
        lemma_silence_over_a_run(looks, changes, pre, still_after);
        lemma_last_change_is_an_event(events);
        lemma_last_change_is_an_event(pre);
        match last_change(events) {
            None => {},
            Some(k) => {
                if k < n - 1 {
                    assert(last_change(pre) == Some(k));
                    let tail = events.skip(k + 1);
                    assert(tail.drop_last() =~= pre.skip(k + 1));
                    assert(tail.last() == events.last());
                    assert(waited(tail) == waited(pre.skip(k + 1)) + match events.last() {
                        Some((_, since)) => since,
                        None => 0nat,
                    });
                } else {
                    assert(events.skip(k + 1) =~= Seq::<Option<(bool, nat)>>::empty());
                }
            },
        }
    }
}

} // verus!
