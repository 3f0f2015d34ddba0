//! Being told to stop by something other than a person typing `exit`.
//!
//! The pages outlive a killed bridge: the watchdog handles the writer going
//! away, but nothing of this program is left to notice when it is the one
//! going. Windows gives a few seconds' warning before it kills a program for
//! a closed window, a logoff or a shutdown, and that is enough to blank the
//! pages and unlink them. `TerminateProcess` and a power cut give none; the
//! note's pulse covers those.
//!
//! The handler itself — a callback on a thread of the system's making, and
//! the flags it raises — belongs to the program. What an event means is
//! here.

pub mod event;

use crate::time::{Duration, NANOS_PER_SEC};
use vstd::prelude::*;

verus! {

/// How long, in seconds, the handler may hold the process open while it
/// tidies up.
pub const GRACE_SECS: u64 = 4;

/// How long the handler may hold the process open while it tidies up: four
/// seconds, a margin under the five Windows allows, because being killed
/// halfway through unlinking leaves some pages gone and some behind.
pub fn grace() -> (d: Duration)
    ensures
        d@ == GRACE_SECS * NANOS_PER_SEC,
{
    Duration::from_secs(GRACE_SECS)
}

/// Why the program is being asked to stop, in words a log can use.
#[derive(Debug, Clone, Copy, PartialEq, Eq, Structural)]
pub enum Reason {
    /// Somebody pressed Ctrl-C or Ctrl-Break.
    Interrupted,
    /// The window was closed.
    WindowClosed,
    /// The session is ending — a logoff or a shutdown.
    SessionEnding,
}

impl Reason {
    /// What to print, phrased as the thing that happened.
    pub fn told(self) -> (s: &'static str)
        ensures
            s@ == (match self {
                Reason::Interrupted => "interrupted"@,
                Reason::WindowClosed => "the window was closed"@,
                Reason::SessionEnding => "the session is ending"@,
            }),
            s@.len() > 0,
    {
        proof {
            reveal_strlit("interrupted");
            reveal_strlit("the window was closed");
            reveal_strlit("the session is ending");
        }
        match self {
            Reason::Interrupted => "interrupted",
            Reason::WindowClosed => "the window was closed",
            Reason::SessionEnding => "the session is ending",
        }
    }
}

/// What a console control event means, or `None` for one this does not
/// know: every event Windows defines means stop, and a number nobody
/// documented is left to the system's own handling.
pub fn reason(event: u32) -> (r: Option<Reason>)
    ensures
        r == (if event == event::CTRL_C || event == event::CTRL_BREAK {
            Some(Reason::Interrupted)
        } else if event == event::CLOSE {
            Some(Reason::WindowClosed)
        } else if event == event::LOGOFF || event == event::SHUTDOWN {
            Some(Reason::SessionEnding)
        } else {
            None
        }),
{
    if event == event::CTRL_C || event == event::CTRL_BREAK {
        Some(Reason::Interrupted)
    } else if event == event::CLOSE {
        Some(Reason::WindowClosed)
    } else if event == event::LOGOFF || event == event::SHUTDOWN {
        Some(Reason::SessionEnding)
    } else {
        None
    }
}

/// Whether the handler should go on holding the process open: until the
/// tidying is finished, and never past the grace.
pub fn keep_holding(finished: bool, held_for: Duration, grace: Duration) -> (b: bool)
    ensures
        b == (!finished && held_for@ < grace@),
{
    !finished && held_for.shorter_than(&grace)
}

/// Ask to be told before the program is killed.
///
/// These four are the half a program off Windows gets — the Linux side of
/// the bridge, or a Linux program embedding this library — and such a
/// program holds no pages to tidy, so nothing is listened to and the answer
/// is no. On Windows the program registers the console handler itself,
/// because its callback runs on a thread of the system's making, and uses
/// [`event`], [`reason`] and [`keep_holding`] for what the events mean.
pub fn listen() -> (b: bool)
    ensures
        !b,
{
    false
}

/// Whether something has asked this program to stop: never, with nothing
/// listening.
pub fn asked_to_stop() -> (b: bool)
    ensures
        !b,
{
    false
}

/// Why, once asked to stop: nothing, with nothing listening.
pub fn why() -> (r: Option<Reason>)
    ensures
        r is None,
{
    None
}

/// Tell the handler the tidying is finished: nothing to tell, with nothing
/// listening.
pub fn finished() {
}

/// One step of putting the pages back when the program stops.
#[derive(Debug, Clone, Copy, PartialEq, Eq, Structural)]
pub enum PutBack {
    /// Take the note away.
    RemoveNote,
    /// Write zeroes over the `i`th page.
    Blank(usize),
    /// Take the `i`th page's file away.
    Unlink(usize),
}

/// The order pages are put back in: the note first, because while it is
/// there a reader takes it as a promise that the pages are too; then every
/// page zeroed; then every page unlinked — zeroed before unlinked, so that
/// a page that cannot be unlinked still leaves nothing readable.
pub open spec fn put_back_order(pages: nat) -> Seq<PutBack> {
    Seq::new(
        2 * pages + 1,
        |i: int|
            if i == 0 {
                PutBack::RemoveNote
            } else if i <= pages {
                PutBack::Blank((i - 1) as usize)
            } else {
                PutBack::Unlink((i - 1 - pages) as usize)
            },
    )
}

/// [`put_back_order`], for this many pages.
pub fn putting_back(pages: usize) -> (r: Vec<PutBack>)
    requires
        2 * pages + 1 <= usize::MAX,
    ensures
        r@ == put_back_order(pages as nat),
{
    let ghost want = put_back_order(pages as nat);
    let mut r: Vec<PutBack> = Vec::new();
    r.push(PutBack::RemoveNote);
    assert(r@ =~= want.take(1));
    for i in 0..pages
        invariant
            want == put_back_order(pages as nat),
            2 * pages + 1 <= usize::MAX,
            r@ =~= want.take(i + 1),
    {
        r.push(PutBack::Blank(i));
        assert(want[i + 1] == PutBack::Blank(i));
        assert(r@ =~= want.take(i + 2));
    }
    for i in 0..pages
        invariant
            want == put_back_order(pages as nat),
            2 * pages + 1 <= usize::MAX,
            r@ =~= want.take(pages + 1 + i),
    {
        r.push(PutBack::Unlink(i));
        assert(want[pages + 1 + i] == PutBack::Unlink(i));
        assert(r@ =~= want.take(pages + 1 + i + 1));
    }
    assert(r@ =~= want);
    r
}

/// **The note goes first, and every page is zeroed before any is
/// unlinked**: in the order pages are put back, the note is taken away
/// first and only then; every page is zeroed once and unlinked once; and
/// every zeroing comes before every unlinking.
pub proof fn lemma_put_back_note_first_zero_before_unlink(pages: nat)
    ensures
        put_back_order(pages)[0] == PutBack::RemoveNote,
        forall|i: int|
            0 < i < put_back_order(pages).len() ==> !(#[trigger] put_back_order(pages)[i] is RemoveNote),
        forall|p: usize|
            p < pages ==> put_back_order(pages)[p + 1] == PutBack::Blank(p) && put_back_order(
                pages,
            )[pages + 1 + p] == PutBack::Unlink(p),
        forall|i: int|
            0 <= i < put_back_order(pages).len() ==> match #[trigger] put_back_order(pages)[i] {
                PutBack::RemoveNote => true,
                PutBack::Blank(p) => p < pages,
                PutBack::Unlink(p) => p < pages,
            },
        forall|i: int, j: int|
            0 <= i < put_back_order(pages).len() && 0 <= j < put_back_order(pages).len()
                && (#[trigger] put_back_order(pages)[i]) is Blank
                && (#[trigger] put_back_order(pages)[j]) is Unlink ==> i < j,
{
}

} // verus!
