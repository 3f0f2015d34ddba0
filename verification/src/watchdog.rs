//! Noticing that the writer has gone, and blanking what it left.
//!
//! The pages outlive the program that filled them: a game exits, the section
//! stays because this bridge holds it, and the file goes on holding the last
//! frame for ever. Zeroes are the honest answer, because every reader already
//! knows how to wait through them.
//!
//! What counts as gone: a block the caller says changes constantly while the
//! writer is alive — a heartbeat — going quiet for long enough. Nothing is
//! blanked unless one is named.

use crate::time::{Duration, MAX_NANOS, NANOS_PER_SEC, min_int};
use vstd::prelude::*;

verus! {

/// How long, in seconds, a heartbeat block may go unchanged before the
/// writer is presumed gone.
pub const BLANK_AFTER_SECS: u64 = 5;

/// How long a heartbeat block may go unchanged before the writer is presumed
/// gone: five seconds. Long enough to survive a loading screen or a shader
/// compile; short enough that alt-tabbing out and back does not read a stale
/// frame. `--blank-after` moves it.
pub fn blank_after() -> (d: Duration)
    ensures
        d@ == BLANK_AFTER_SECS * NANOS_PER_SEC,
{
    Duration::from_secs(BLANK_AFTER_SECS)
}

/// What the watchdog wants done, having looked.
#[derive(Debug, Clone, Copy, PartialEq, Eq, Structural)]
pub enum Verdict {
    /// Carry on.
    Nothing,
    /// The writer has gone quiet: zero every block, once.
    Blank,
    /// It is writing again. Nothing to do but note it.
    Writing,
}

/// A watchdog as numbers: its patience, how long it has been quiet, and
/// whether it has blanked the blocks.
pub struct WatchdogView {
    pub blank_after: nat,
    pub quiet_for: nat,
    pub blanked: bool,
}

/// What one look does to a watchdog: the state after it and the verdict.
///
/// A change resets the quiet and, if the blocks were blanked, reports the
/// writer back. Silence adds to the quiet, saturating, and asks for a
/// blanking the first time the quiet reaches the patience.
pub open spec fn step(w: WatchdogView, changed: bool, since: nat) -> (WatchdogView, Verdict) {
    if changed {
        (
            WatchdogView { blank_after: w.blank_after, quiet_for: 0, blanked: false },
            if w.blanked { Verdict::Writing } else { Verdict::Nothing },
        )
    } else {
        let quiet = min_int((w.quiet_for + since) as int, MAX_NANOS as int) as nat;
        if !w.blanked && quiet >= w.blank_after {
            (WatchdogView { blank_after: w.blank_after, quiet_for: quiet, blanked: true }, Verdict::Blank)
        } else {
            (WatchdogView { blank_after: w.blank_after, quiet_for: quiet, blanked: w.blanked }, Verdict::Nothing)
        }
    }
}

/// Watches one block for signs of life.
#[derive(Debug, PartialEq, Eq)]
pub struct Watchdog {
    blank_after: Duration,
    quiet_for: Duration,
    blanked: bool,
}

impl View for Watchdog {
    type V = WatchdogView;

    closed spec fn view(&self) -> WatchdogView {
        WatchdogView {
            blank_after: self.blank_after@,
            quiet_for: self.quiet_for@,
            blanked: self.blanked,
        }
    }
}

impl Clone for Watchdog {
    fn clone(&self) -> (w: Watchdog)
        ensures
            w@ == self@,
    {
        Watchdog { blank_after: self.blank_after, quiet_for: self.quiet_for, blanked: self.blanked }
    }
}

impl Watchdog {
    /// A watchdog with its own patience, quiet for no time and not blanked.
    pub fn new(blank_after: Duration) -> (w: Watchdog)
        ensures
            w@ == (WatchdogView { blank_after: blank_after@, quiet_for: 0, blanked: false }),
    {
        Watchdog { blank_after, quiet_for: Duration::zero(), blanked: false }
    }

    /// Whether the blocks are currently blanked.
    pub fn is_blanked(&self) -> (b: bool)
        ensures
            b == self@.blanked,
    {
        self.blanked
    }

    /// How long the heartbeat has been quiet.
    pub fn quiet_for(&self) -> (d: Duration)
        ensures
            d@ == self@.quiet_for,
    {
        self.quiet_for
    }

    /// Tell it what the last look found, and how long since the one before.
    ///
    /// `Blank` is returned once per silence, not every look: zeroing a page
    /// that is already zeroes is exactly the cost this program avoids.
    pub fn saw(&mut self, changed: bool, since_last_look: Duration) -> (v: Verdict)
        ensures
            (final(self)@, v) == step(old(self)@, changed, since_last_look@),
    {
        if changed {
            self.quiet_for = Duration::zero();
            if self.blanked {
                self.blanked = false;
                return Verdict::Writing;
            }
            return Verdict::Nothing;
        }
        self.quiet_for = self.quiet_for.saturating_add(since_last_look);
        if !self.blanked && self.blank_after.at_most(&self.quiet_for) {
            self.blanked = true;
            return Verdict::Blank;
        }
        Verdict::Nothing
    }
}

/// How many times a watchdog asks for a blanking over a run of looks that
/// all found nothing, the looks `since` apart.
pub open spec fn blanks_in_silence(w: WatchdogView, since: Seq<nat>) -> nat
    decreases since.len(),
{
    if since.len() == 0 {
        0
    } else {
        let (next, verdict) = step(w, false, since[0]);
        (if verdict is Blank { 1nat } else { 0nat }) + blanks_in_silence(next, since.drop_first())
    }
}

/// A blanked watchdog stays blanked, and asks for nothing, through silence.
proof fn lemma_blanked_stays_silent(w: WatchdogView, since: Seq<nat>)
    requires
        w.blanked,
    ensures
        blanks_in_silence(w, since) == 0,
    decreases since.len(),
{
    if since.len() > 0 {
        let (next, _) = step(w, false, since[0]);
        lemma_blanked_stays_silent(next, since.drop_first());
    }
}

/// One silence, one blanking: however long the writer stays quiet and
/// however the looks are spaced, the watchdog asks for the blocks to be
/// zeroed at most once until something changes.
pub proof fn lemma_blank_once_per_silence(w: WatchdogView, since: Seq<nat>)
    ensures
        blanks_in_silence(w, since) <= 1,
    decreases since.len(),
{
    if since.len() > 0 {
        let (next, verdict) = step(w, false, since[0]);
        if verdict is Blank {
            lemma_blanked_stays_silent(next, since.drop_first());
        } else {
            lemma_blank_once_per_silence(next, since.drop_first());
        }
    }
}

/// Silence never shortens the quiet: each look that found nothing leaves the
/// quiet at least as long as it was, so a long session cannot wrap it.
pub proof fn lemma_quiet_only_grows_in_silence(w: WatchdogView, since: nat)
    requires
        w.quiet_for <= MAX_NANOS,
    ensures
        step(w, false, since).0.quiet_for >= w.quiet_for,
        step(w, false, since).0.quiet_for <= MAX_NANOS,
{
}

/// A writer that comes back after a blanking is reported once, and the next
/// change after that is ordinary again.
pub proof fn lemma_return_is_noticed_once(w: WatchdogView)
    requires
        w.blanked,
    ensures
        step(w, true, 0).1 == Verdict::Writing,
        step(step(w, true, 0).0, true, 0).1 == Verdict::Nothing,
{
}

/// A watchdog after a run of looks that all found nothing, the looks
/// `since` apart.
pub open spec fn after_silence(w: WatchdogView, since: Seq<nat>) -> WatchdogView
    decreases since.len(),
{
    if since.len() == 0 {
        w
    } else {
        after_silence(step(w, false, since[0]).0, since.drop_first())
    }
}

/// The total of a run of spans.
pub open spec fn total(since: Seq<nat>) -> nat
    decreases since.len(),
{
    if since.len() == 0 {
        0
    } else {
        since[0] + total(since.drop_first())
    }
}

/// **The patience is time, not looks**: through a silence, the quiet is
/// the time that has passed (saturating), and the blocks are blanked once
/// that time reaches the patience — however many looks it took, so looking
/// more often does not shorten it.
pub proof fn lemma_patience_is_time_not_looks(w: WatchdogView, since: Seq<nat>)
    requires
        w.quiet_for <= MAX_NANOS,
        since.len() > 0,
    ensures
        after_silence(w, since).quiet_for == min_int((w.quiet_for + total(since)) as int, MAX_NANOS as int),
        after_silence(w, since).blanked == (w.blanked || min_int(
            (w.quiet_for + total(since)) as int,
            MAX_NANOS as int,
        ) >= w.blank_after),
        after_silence(w, since).blank_after == w.blank_after,
    decreases since.len(),
{
    let next = step(w, false, since[0]).0;
    if since.len() == 1 {
        assert(since.drop_first().len() == 0);
        assert(total(since.drop_first()) == 0);
        assert(total(since) == since[0]);
        assert(after_silence(next, since.drop_first()) == next);
        assert(after_silence(w, since) == next);
    } else {
        lemma_patience_is_time_not_looks(next, since.drop_first());
        let q = min_int((w.quiet_for + since[0]) as int, MAX_NANOS as int);
        assert(next.quiet_for == q);
        assert(min_int(q + total(since.drop_first()), MAX_NANOS as int) == min_int(
            (w.quiet_for + total(since)) as int,
            MAX_NANOS as int,
        ));
        assert(q <= min_int((w.quiet_for + total(since)) as int, MAX_NANOS as int));
    }
}

/// **A writer that comes back leaves a watchdog as good as new**, so a game
/// restarted can be blanked again when its second session ends.
pub proof fn lemma_a_change_starts_afresh(w: WatchdogView, since: nat)
    ensures
        step(w, true, since).0 == (WatchdogView { blank_after: w.blank_after, quiet_for: 0, blanked: false }),
{
}

/// What a watchdog answers, look by look, over a run of looks that all
/// found nothing, the looks `since` apart.
pub open spec fn verdicts_in_silence(w: WatchdogView, since: Seq<nat>) -> Seq<Verdict>
    decreases since.len(),
{
    if since.len() == 0 {
        seq![]
    } else {
        let (next, verdict) = step(w, false, since[0]);
        seq![verdict] + verdicts_in_silence(next, since.drop_first())
    }
}

/// A blanked watchdog answers nothing at all through silence.
proof fn lemma_blanked_answers_nothing(w: WatchdogView, since: Seq<nat>)
    requires
        w.blanked,
    ensures
        verdicts_in_silence(w, since).len() == since.len(),
        forall|i: int|
            0 <= i < since.len() ==> #[trigger] verdicts_in_silence(w, since)[i] == Verdict::Nothing,
    decreases since.len(),
{
    if since.len() > 0 {
        let (next, _) = step(w, false, since[0]);
        lemma_blanked_answers_nothing(next, since.drop_first());
        let rest = verdicts_in_silence(next, since.drop_first());
        assert forall|i: int| 0 <= i < since.len() implies #[trigger] verdicts_in_silence(w, since)[i]
            == Verdict::Nothing by {
            if i > 0 {
                assert(verdicts_in_silence(w, since)[i] == rest[i - 1]);
            }
        }
    }
}

/// **Silence is never taken for the writer**: over any run of looks that
/// all found nothing, from any watchdog, no look answers `Writing`, and at
/// most one answers `Blank` — after which every look answers `Nothing`.
pub proof fn lemma_silence_answers_blank_at_most_once(w: WatchdogView, since: Seq<nat>)
    ensures
        verdicts_in_silence(w, since).len() == since.len(),
        forall|i: int|
            0 <= i < since.len() ==> #[trigger] verdicts_in_silence(w, since)[i] != Verdict::Writing,
        forall|i: int, j: int|
            0 <= i < j < since.len() && (#[trigger] verdicts_in_silence(w, since)[i]) is Blank
                ==> #[trigger] verdicts_in_silence(w, since)[j] == Verdict::Nothing,
    decreases since.len(),
{
    if since.len() > 0 {
        let (next, verdict) = step(w, false, since[0]);
        let rest = verdicts_in_silence(next, since.drop_first());
        let all = verdicts_in_silence(w, since);
        lemma_silence_answers_blank_at_most_once(next, since.drop_first());
        if verdict is Blank {
            lemma_blanked_answers_nothing(next, since.drop_first());
        }
        assert forall|i: int| 0 <= i < since.len() implies #[trigger] all[i] != Verdict::Writing by {
            if i > 0 {
                assert(all[i] == rest[i - 1]);
            }
        }
        assert forall|i: int, j: int|
            0 <= i < j < since.len() && (#[trigger] all[i]) is Blank implies #[trigger] all[j]
                == Verdict::Nothing by {
            assert(all[j] == rest[j - 1]);
            if i > 0 {
                assert(all[i] == rest[i - 1]);
            }
        }
    }
}

} // verus!
