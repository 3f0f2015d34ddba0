//! When to look at which page, and when to stop.
//!
//! The program's loop is a sleep, a Win32 call and a print; all of the
//! decisions are here. Time is a [`Duration`] since the program started
//! rather than a clock reading, so a test can hand this the fourth second
//! directly.

use crate::text::{chars_of, trim, trimmed};
use crate::time::{Duration, MAX_NANOS, NANOS_PER_MILLI, NANOS_PER_SEC, min_int};
use vstd::prelude::*;

verus! {

/// How long to wait from `at` until `when`: nothing if it has passed.
pub open spec fn wait_until(when: nat, at: nat) -> nat {
    if when >= at { (when - at) as nat } else { 0 }
}

/// Which pages are due to be looked at, and when the next one is.
#[derive(Debug, PartialEq, Eq)]
pub struct Schedule {
    due: Vec<Duration>,
}

impl View for Schedule {
    type V = Seq<nat>;

    /// When each page is next due, in nanoseconds since the start.
    closed spec fn view(&self) -> Seq<nat> {
        self.due@.map_values(|d: Duration| d@)
    }
}

impl Clone for Schedule {
    fn clone(&self) -> (s: Schedule)
        ensures
            s@ == self@,
    {
        let mut due: Vec<Duration> = Vec::new();
        let n = self.due.len();
        for i in 0..n
            invariant
                n == self.due.len(),
                due@ == self.due@.take(i as int),
        {
            due.push(self.due[i]);
            assert(due@ =~= self.due@.take(i + 1));
        }
        assert(due@ =~= self.due@);
        Schedule { due }
    }
}

impl Schedule {
    /// A schedule for `count` pages, all due immediately.
    pub fn new(count: usize) -> (s: Schedule)
        ensures
            s@ == Seq::new(count as nat, |i: int| 0nat),
    {
        let mut due: Vec<Duration> = Vec::new();
        for i in 0..count
            invariant
                due@.len() == i,
                forall|j: int| 0 <= j < i ==> (#[trigger] due@[j])@ == 0,
        {
            due.push(Duration::zero());
        }
        let s = Schedule { due };
        assert(s@ =~= Seq::new(count as nat, |i: int| 0nat));
        s
    }

    /// How many pages it is keeping.
    pub fn len(&self) -> (n: usize)
        ensures
            n == self@.len(),
    {
        self.due.len()
    }

    /// Whether it is keeping none.
    pub fn is_empty(&self) -> (b: bool)
        ensures
            b == (self@.len() == 0),
    {
        self.due.len() == 0
    }

    /// Whether this page wants looking at by `at`. A page it does not keep
    /// never does.
    pub fn is_due(&self, index: usize, at: Duration) -> (b: bool)
        ensures
            b == (index < self@.len() && self@[index as int] <= at@),
    {
        if index < self.due.len() {
            self.due[index].at_most(&at)
        } else {
            false
        }
    }

    /// Say a page has just been looked at, and when it wants looking at next:
    /// `wait` after `at`, saturating. A page it does not keep is ignored.
    pub fn looked_at(&mut self, index: usize, at: Duration, wait: Duration)
        ensures
            final(self)@ == (if index < old(self)@.len() {
                old(self)@.update(index as int, min_int((at@ + wait@) as int, MAX_NANOS as int) as nat)
            } else {
                old(self)@
            }),
    {
        if index < self.due.len() {
            let when = at.saturating_add(wait);
            self.due.set(index, when);
            assert(self@ =~= old(self)@.update(index as int, when@));
        }
    }

    /// How long to sleep before anything is due again.
    ///
    /// The soonest wait over all pages, capped by `ceiling` so that a
    /// schedule with nothing in it still wakes often enough to notice it has
    /// been asked to stop. Zero when something is already overdue.
    pub fn nap(&self, at: Duration, ceiling: Duration) -> (d: Duration)
        ensures
            d@ <= ceiling@,
            forall|i: int| 0 <= i < self@.len() ==> d@ <= wait_until(#[trigger] self@[i], at@),
            d@ == ceiling@ || exists|i: int|
                0 <= i < self@.len() && d@ == wait_until(#[trigger] self@[i], at@),
    {
        let mut best = ceiling;
        let n = self.due.len();
        for k in 0..n
            invariant
                n == self.due.len(),
                n == self@.len(),
                best@ <= ceiling@,
                forall|i: int| 0 <= i < k ==> best@ <= wait_until(#[trigger] self@[i], at@),
                best@ == ceiling@ || exists|i: int|
                    0 <= i < k && best@ == wait_until(#[trigger] self@[i], at@),
        {
            let wait = self.due[k].saturating_sub(at);
            assert(self@[k as int] == self.due@[k as int]@);
            if wait.shorter_than(&best) {
                best = wait;
            }
        }
        best
    }
}

/// How long, in seconds, input has to last before its ending counts as
/// somebody asking.
pub const GRACE_SECS: u64 = 2;

/// How long an input has to last before its ending counts as somebody
/// asking: two seconds. The only thing that can be mistaken for nobody is a
/// parent that dies within two seconds of starting this.
pub fn grace() -> (d: Duration)
    ensures
        d@ == GRACE_SECS * NANOS_PER_SEC,
{
    Duration::from_secs(GRACE_SECS)
}

/// Whether input ending means nobody was ever there, rather than stop.
///
/// A parent closing a pipe, or Ctrl-D in a terminal, asks the program to
/// stop. Started from a file manager there is no input at all and the first
/// read ends at once. Under Wine the handle cannot tell these apart, so a
/// console is recognised on its own and the rest is answered by how quickly
/// the input ended.
pub fn nobody_was_there(console: bool, ended_after: Duration, grace: Duration) -> (b: bool)
    ensures
        b == (!console && ended_after@ < grace@),
{
    !console && ended_after.shorter_than(&grace)
}

/// A character with an ASCII capital made small, and anything else as it is.
pub open spec fn ascii_lower(c: char) -> char {
    if 65 <= (c as u32) && (c as u32) <= 90 {
        ((c as u32) + 32) as char
    } else {
        c
    }
}

/// Whether two runs of characters are the same but for ASCII case.
pub open spec fn same_but_ascii_case(a: Seq<char>, b: Seq<char>) -> bool {
    a.len() == b.len() && forall|i: int| 0 <= i < a.len() ==> ascii_lower(#[trigger] a[i])
        == ascii_lower(b[i])
}

/// Whether a line typed at the program asks it to stop: `exit`, in any ASCII
/// case, with white space around it or not.
pub open spec fn is_exit_command(line: Seq<char>) -> bool {
    same_but_ascii_case(trim(line), "exit"@)
}

/// [`is_exit_command`], computed.
pub fn is_exit(line: &str) -> (b: bool)
    ensures
        b == is_exit_command(line@),
{
    let t = trimmed(&chars_of(line));
    let w = chars_of("exit");
    proof {
        reveal_strlit("exit");
        assert(w@ =~= seq!['e', 'x', 'i', 't']);
    }
    if t.len() != w.len() {
        return false;
    }
    let n = t.len();
    for i in 0..n
        invariant
            n == t.len(),
            n == w.len(),
            w@ == "exit"@,
            w@ == seq!['e', 'x', 'i', 't'],
            t@ == trim(line@),
            forall|j: int| 0 <= j < i ==> ascii_lower(#[trigger] t@[j]) == ascii_lower(w@[j]),
    {
        let c = t[i];
        let k = c as u32;
        let matched = c == w[i] || (65 <= k && k <= 90 && k + 32 == w[i] as u32);
        proof {
            assert(w@[i as int] == 'e' || w@[i as int] == 'x' || w@[i as int] == 'i' || w@[i as int]
                == 't');
            assert(ascii_lower(w@[i as int]) == w@[i as int]);
        }
        if !matched {
            assert(ascii_lower(t@[i as int]) != ascii_lower(w@[i as int]));
            assert(!same_but_ascii_case(t@, w@));
            return false;
        }
    }
    true
}

/// The longest the holding loop naps between looks: the slowest pace, but
/// never less than a tenth of a second, so a loop with nothing due is not a
/// spin.
pub fn nap_ceiling(slowest: Duration) -> (d: Duration)
    ensures
        d@ == (if slowest@ >= 100 * NANOS_PER_MILLI {
            slowest@ as int
        } else {
            100 * NANOS_PER_MILLI
        }),
{
    slowest.max(Duration::from_millis(100))
}

} // verus!
