//! Watching pages the writer is holding, for a program that has its own loop.
//!
//! Once the copy inside the prefix has handed the section over, something
//! outside has to keep the note's pulse beating and notice the writer going.
//! That is usually a program already running for the whole session and
//! already awake sixty times a second — so the rule lives here, once, and
//! both the `wineshm` binary and any program embedding it use it.
//!
//! The supervisor never blocks and touches nothing: each look is handed the
//! bytes just read, how long since the last look and since the last beat,
//! and answers what was seen and what to do — rewrite the note, or take
//! everything away.

use crate::announce::{
    FORMAT, Mode, Note, NoteView, entries_view, is_sound_entry, lemma_note_round_trip, parse_note,
    render_note,
};
use crate::liveness::{BEAT_SECS, due_to_beat};
use crate::page::{Page, PageView, pages_view};
use crate::shadow::{Shadow, ShadowView, look_at};
use crate::text::{lemma_trim_clean, owned, push_str, same_text};
use crate::time::{Duration, NANOS_PER_SEC};
use crate::watchdog::{Verdict, Watchdog, WatchdogView, step};
use vstd::prelude::*;

verus! {

/// What one look found.
#[derive(Debug, Clone, Copy, PartialEq, Eq, Structural)]
pub enum Seen {
    /// The block moved. The game is there.
    Writing,
    /// It did not move, and not for long enough to mean anything.
    Quiet,
    /// It has been quiet long enough that the writer has gone, and the pages
    /// are to be taken away; nothing is left to watch.
    WriterGone,
}

/// What one look found, and what the caller is to do about it.
#[derive(Debug, Clone, Copy, PartialEq, Eq, Structural)]
pub struct Look {
    /// What was seen.
    pub seen: Seen,
    /// Write the note again: a beat is due.
    pub beat: bool,
    /// Take everything away now — the note first, then every page zeroed
    /// and unlinked. Asked for once, on the look that found the writer gone.
    pub tidy: bool,
}

/// A supervisor as values, as far as its looks go: whether the writer has
/// gone, its watchdog, and the bytes last seen of the watched page.
pub struct Watch {
    pub gone: bool,
    pub dog: WatchdogView,
    pub last: Seq<u8>,
}

/// The bytes handed to a look, if any.
pub open spec fn fresh_view(fresh: Option<&[u8]>) -> Option<Seq<u8>> {
    match fresh {
        Some(f) => Some(f@),
        None => None,
    }
}

/// The answer every look gives once the writer is gone.
pub open spec fn gone_look() -> Look {
    Look { seen: Seen::WriterGone, beat: false, tidy: false }
}

/// What one look does: once the writer is gone nothing changes and every
/// look says so. Before that, bytes that differ from the last ones are a
/// stir; the watchdog is told of it, or of the silence, and the time since
/// the last look; a `Blank` from it means the writer has gone, to be tidied
/// away now; a beat is due once `BEAT_SECS` have passed since the last one.
pub open spec fn look_step(w: Watch, fresh: Option<Seq<u8>>, since_look: nat, since_beat: nat) -> (
    Watch,
    Look,
) {
    if w.gone {
        (w, gone_look())
    } else {
        let stirred = match fresh {
            Some(f) => w.last != f,
            None => false,
        };
        let (dog, verdict) = step(w.dog, stirred, since_look);
        let last = match fresh {
            Some(f) => f,
            None => w.last,
        };
        let gone = verdict is Blank;
        (
            Watch { gone, dog, last },
            Look {
                seen: if gone {
                    Seen::WriterGone
                } else if stirred {
                    Seen::Writing
                } else {
                    Seen::Quiet
                },
                beat: since_beat >= BEAT_SECS * NANOS_PER_SEC,
                tidy: gone,
            },
        )
    }
}

/// One look's inputs: the bytes read, if any, and the time since the last
/// look and since the last beat.
pub struct LookEvent {
    pub fresh: Option<Seq<u8>>,
    pub since_look: nat,
    pub since_beat: nat,
}

/// A run of looks: the supervisor after them, and what each one answered.
pub open spec fn run_looks(w: Watch, events: Seq<LookEvent>) -> (Watch, Seq<Look>)
    decreases events.len(),
{
    if events.len() == 0 {
        (w, seq![])
    } else {
        let e = events[0];
        let (next, l) = look_step(w, e.fresh, e.since_look, e.since_beat);
        let (end, rest) = run_looks(next, events.drop_first());
        (end, seq![l] + rest)
    }
}

/// A supervisor whose writer has gone answers every look alike.
proof fn lemma_gone_stays_gone(w: Watch, events: Seq<LookEvent>)
    requires
        w.gone,
    ensures
        run_looks(w, events).0 == w,
        run_looks(w, events).1.len() == events.len(),
        forall|i: int| 0 <= i < events.len() ==> #[trigger] run_looks(w, events).1[i] == gone_look(),
    decreases events.len(),
{
    if events.len() > 0 {
        lemma_gone_stays_gone(w, events.drop_first());
        let ls = run_looks(w, events).1;
        let rest = run_looks(w, events.drop_first()).1;
        assert forall|i: int| 0 <= i < events.len() implies #[trigger] ls[i] == gone_look() by {
            if i > 0 {
                assert(ls[i] == rest[i - 1]);
            }
        }
    }
}

/// **Gone is for good, and tidied once**: over any run of looks, the writer
/// is gone at the end exactly when it was at the start or some look
/// answered `WriterGone`; after a look answers `WriterGone` every later one
/// answers it too, asking for nothing; and at most one look of the run asks
/// for the pages to be taken away — none, if the writer was already gone —
/// that look being one that answered `WriterGone`.
pub proof fn lemma_gone_is_for_good(w: Watch, events: Seq<LookEvent>)
    ensures
        ({
            let (end, ls) = run_looks(w, events);
            &&& ls.len() == events.len()
            &&& end.gone == (w.gone || exists|i: int|
                0 <= i < ls.len() && (#[trigger] ls[i]).seen is WriterGone)
            &&& forall|i: int, j: int|
                0 <= i < j < ls.len() && (#[trigger] ls[i]).seen is WriterGone ==> #[trigger] ls[j]
                    == gone_look()
            &&& forall|i: int, j: int|
                0 <= i < j < ls.len() && (#[trigger] ls[i]).tidy ==> !(#[trigger] ls[j]).tidy
            &&& forall|i: int| 0 <= i < ls.len() && (#[trigger] ls[i]).tidy ==> ls[i].seen is WriterGone
                && !w.gone
        }),
    decreases events.len(),
{
    if w.gone {
        lemma_gone_stays_gone(w, events);
        let ls = run_looks(w, events).1;
        if events.len() > 0 {
            assert(ls[0].seen is WriterGone);
        }
    } else if events.len() > 0 {
        let e = events[0];
        let (next, l) = look_step(w, e.fresh, e.since_look, e.since_beat);
        let tail = events.drop_first();
        lemma_gone_is_for_good(next, tail);
        let (end, rest) = run_looks(next, tail);
        let ls = run_looks(w, events).1;
        assert(ls =~= seq![l] + rest);
        assert(l.seen is WriterGone <==> next.gone);
        assert(l.tidy <==> next.gone);
        if next.gone {
            lemma_gone_stays_gone(next, tail);
        }
        assert forall|i: int| 0 <= i < ls.len() implies #[trigger] ls[i] == (if i == 0 {
            l
        } else {
            rest[i - 1]
        }) by {}
        if end.gone {
            if !next.gone {
                let k = choose|k: int| 0 <= k < rest.len() && (#[trigger] rest[k]).seen is WriterGone;
                assert(ls[k + 1].seen is WriterGone);
            } else {
                assert(ls[0].seen is WriterGone);
            }
        }
        assert forall|i: int, j: int|
            0 <= i < j < ls.len() && (#[trigger] ls[i]).seen is WriterGone implies #[trigger] ls[j]
                == gone_look() by {
            assert(ls[j] == rest[j - 1]);
            if i > 0 {
                assert(ls[i] == rest[i - 1]);
            }
        }
        assert forall|i: int, j: int|
            0 <= i < j < ls.len() && (#[trigger] ls[i]).tidy implies !(#[trigger] ls[j]).tidy by {
            assert(ls[j] == rest[j - 1]);
            if i > 0 {
                assert(ls[i] == rest[i - 1]);
            }
        }
        assert forall|i: int| 0 <= i < ls.len() && (#[trigger] ls[i]).tidy implies ls[i].seen is WriterGone
            && !w.gone by {
            if i > 0 {
                assert(ls[i] == rest[i - 1]);
            }
        }
    }
}

/// The note a supervisor publishes in its own name: this version, this
/// format, this process, every page owned.
pub open spec fn owned_note(pages: Seq<PageView>, pid: u32) -> NoteView {
    NoteView {
        version: crate::VERSION@,
        format: FORMAT,
        pid,
        pages: pages.map_values(|p: PageView| (p, Mode::Owned)),
    }
}

/// Where the first page of this name is.
fn find_page(pages: &Vec<Page>, name: &str) -> (r: Option<usize>)
    ensures
        match r {
            Some(i) => i < pages.len() && pages@[i as int].name@ == name@ && forall|j: int|
                0 <= j < i ==> (#[trigger] pages@[j]).name@ != name@,
            None => forall|i: int| 0 <= i < pages.len() ==> (#[trigger] pages@[i]).name@ != name@,
        },
{
    let n = pages.len();
    for i in 0..n
        invariant
            n == pages.len(),
            forall|j: int| 0 <= j < i ==> (#[trigger] pages@[j]).name@ != name@,
    {
        if same_text(pages[i].name.as_str(), name) {
            return Some(i);
        }
    }
    None
}

/// Keeps a handed-over set of pages honest.
#[derive(Debug)]
pub struct Supervisor {
    pages: Vec<Page>,
    heartbeat: Page,
    shadow: Shadow,
    dog: Watchdog,
    note: String,
    done: bool,
}

impl Supervisor {
    /// The pages it keeps.
    pub closed spec fn kept(self) -> Seq<PageView> {
        pages_view(self.pages@)
    }

    /// The page it watches.
    pub closed spec fn watched(self) -> PageView {
        self.heartbeat@
    }

    /// What it has seen of the watched page.
    pub closed spec fn seen_so_far(self) -> ShadowView {
        self.shadow@
    }

    /// Its watchdog.
    pub closed spec fn dog(self) -> WatchdogView {
        self.dog@
    }

    /// The note's text.
    pub closed spec fn note_text(self) -> Seq<char> {
        self.note@
    }

    /// Whether the writer has gone.
    pub closed spec fn gone(self) -> bool {
        self.done
    }

    /// What its looks go by.
    pub closed spec fn watch(self) -> Watch {
        Watch { gone: self.done, dog: self.dog@, last: self.shadow@.last }
    }

    /// What its looks go by is whether the writer has gone, its watchdog and
    /// what it has seen of the watched page.
    pub proof fn lemma_watch_is_what_it_keeps(self)
        ensures
            self.watch() == (Watch { gone: self.gone(), dog: self.dog(), last: self.seen_so_far().last }),
    {
    }

    /// Take over a set of pages the writer is now holding, watching the one
    /// named `heartbeat`.
    ///
    /// The note is written anew in this process's name, because the one
    /// there was written by the copy inside the prefix and that process no
    /// longer exists. A heartbeat that is not one of the pages is refused.
    pub fn start(pages: Vec<Page>, heartbeat: &str, blank_after: Duration, pid: u32) -> (r: Result<
        Supervisor,
        String,
    >)
        ensures
            match r {
                Ok(s) => exists|i: int|
                    0 <= i < pages.len() && (#[trigger] pages@[i]).name@ == heartbeat@
                    && s.watched() == pages@[i]@
                    && forall|j: int| 0 <= j < i ==> (#[trigger] pages@[j]).name@ != heartbeat@,
                Err(_) => forall|i: int| 0 <= i < pages.len() ==> (#[trigger] pages@[i]).name@ != heartbeat@,
            },
            r matches Ok(s) ==> s.kept() == pages_view(pages@) && s.seen_so_far().last == Seq::new(
                s.watched().bytes,
                |k: int| 0u8,
            ) && s.seen_so_far().looks == 0 && s.seen_so_far().bytes_copied == 0 && s.dog() == (
            WatchdogView { blank_after: blank_after@, quiet_for: 0, blanked: false }) && !s.gone()
                && s.note_text() == render_note(owned_note(pages_view(pages@), pid)),
            r matches Err(e) ==> e@ == heartbeat@ + " is not one of the pages handed over"@,
    {
        let n = pages.len();
        let at = match find_page(&pages, heartbeat) {
            Some(at) => at,
            None => {
                let mut e = owned(heartbeat);
                push_str(&mut e, " is not one of the pages handed over");
                return Err(e);
            },
        };
        let beating = pages[at].clone();
        let mut entries: Vec<(Page, Mode)> = Vec::new();
        for i in 0..n
            invariant
                n == pages.len(),
                entries.len() == i,
                entries_view(entries@) == pages_view(pages@).take(i as int).map_values(
                    |p: PageView| (p, Mode::Owned),
                ),
        {
            let ghost before = entries@;
            let p = pages[i].clone();
            let ghost pv = p@;
            entries.push((p, Mode::Owned));
            let ghost target = pages_view(pages@).take(i + 1).map_values(|p: PageView| (p, Mode::Owned));
            assert forall|k: int| 0 <= k < i + 1 implies #[trigger] entries_view(entries@)[k]
                == target[k] by {
                if k < i {
                    assert(entries@[k] == before[k]);
                    assert(entries_view(before)[k] == pages_view(pages@).take(i as int).map_values(
                        |p: PageView| (p, Mode::Owned),
                    )[k]);
                } else {
                    assert(entries@[k].0@ == pv && entries@[k].1 == Mode::Owned);
                    assert(pages_view(pages@)[k] == pages@[k]@);
                }
            }
            assert(entries_view(entries@) =~= target);
        }
        assert(pages_view(pages@).take(n as int) =~= pages_view(pages@));
        let note = Note { version: owned(crate::VERSION), format: FORMAT, pid, pages: entries };
        let text = note.render();
        let bytes = beating.bytes;
        Ok(
            Supervisor {
                pages,
                heartbeat: beating,
                shadow: Shadow::new(bytes),
                dog: Watchdog::new(blank_after),
                note: text,
                done: false,
            },
        )
    }

    /// Which block is being watched.
    pub fn heartbeat(&self) -> (p: &Page)
        ensures
            p@ == self.watched(),
    {
        &self.heartbeat
    }

    /// The pages it keeps, for taking away.
    pub fn pages(&self) -> (p: &Vec<Page>)
        ensures
            pages_view(p@) == self.kept(),
    {
        &self.pages
    }

    /// What has been seen of the watched page, and what it cost.
    pub fn shadow(&self) -> (s: &Shadow)
        ensures
            s@ == self.seen_so_far(),
    {
        &self.shadow
    }

    /// The note to write, and write again on every beat.
    pub fn note(&self) -> (s: &str)
        ensures
            s@ == self.note_text(),
    {
        self.note.as_str()
    }

    /// Whether the writer has gone and the pages are to be away.
    pub fn is_finished(&self) -> (b: bool)
        ensures
            b == self.gone(),
    {
        self.done
    }

    /// How long the watched block has been unchanged.
    pub fn quiet_for(&self) -> (d: Duration)
        ensures
            d@ == self.dog().quiet_for,
    {
        self.dog.quiet_for()
    }

    /// One look. Never blocks.
    ///
    /// `fresh` is what the watched block holds now, or `None` when it could
    /// not be read — which counts as nothing having moved. The watchdog is
    /// told how long it has been since the last look, so looking twice as
    /// often does not halve the patience. Once the writer is gone every look
    /// says so and asks for nothing more.
    pub fn look(&mut self, fresh: Option<&[u8]>, since_look: Duration, since_beat: Duration) -> (l: Look)
        requires
            old(self).seen_so_far().looks < u64::MAX,
            match fresh {
                Some(f) => old(self).seen_so_far().last != f@ ==> old(self).seen_so_far().bytes_copied
                    + f@.len() <= u64::MAX,
                None => true,
            },
        ensures
            final(self).kept() == old(self).kept(),
            final(self).watched() == old(self).watched(),
            final(self).note_text() == old(self).note_text(),
            (final(self).watch(), l) == look_step(
                old(self).watch(),
                fresh_view(fresh),
                since_look@,
                since_beat@,
            ),
            final(self).watch().gone == final(self).gone(),
            old(self).gone() ==> l == (Look { seen: Seen::WriterGone, beat: false, tidy: false })
                && final(self).gone() && final(self).dog() == old(self).dog(),
            !old(self).gone() ==> {
                let stirred = match fresh {
                    Some(f) => old(self).seen_so_far().last != f@,
                    None => false,
                };
                let (dog, verdict) = step(old(self).dog(), stirred, since_look@);
                &&& final(self).dog() == dog
                &&& final(self).gone() == (verdict is Blank)
                &&& l.tidy == (verdict is Blank)
                &&& l.beat == (since_beat@ >= BEAT_SECS * NANOS_PER_SEC)
                &&& l.seen == (if verdict is Blank {
                    Seen::WriterGone
                } else if stirred {
                    Seen::Writing
                } else {
                    Seen::Quiet
                })
                &&& match fresh {
                    Some(f) => final(self).seen_so_far().last == f@
                        && final(self).seen_so_far().looks == old(self).seen_so_far().looks + 1
                        && final(self).seen_so_far() == look_at(old(self).seen_so_far(), f@),
                    None => final(self).seen_so_far() == old(self).seen_so_far(),
                }
            },
    {
        if self.done {
            return Look { seen: Seen::WriterGone, beat: false, tidy: false };
        }
        let stirred = match fresh {
            Some(f) => self.shadow.changed(f),
            None => false,
        };
        let beat = due_to_beat(since_beat, crate::liveness::beat());
        let verdict = self.dog.saw(stirred, since_look);
        if verdict == Verdict::Blank {
            self.done = true;
            return Look { seen: Seen::WriterGone, beat, tidy: true };
        }
        let seen = if stirred {
            Seen::Writing
        } else {
            Seen::Quiet
        };
        Look { seen, beat, tidy: false }
    }
}

/// **The note a supervisor writes reads back in its own name**: every page
/// owned, this version, this process — for pages a note can carry.
pub proof fn lemma_supervisor_note_reads_back(pages: Seq<PageView>, pid: u32)
    requires
        forall|i: int| 0 <= i < pages.len() ==> is_sound_entry((#[trigger] pages[i], Mode::Owned)),
    ensures
        parse_note(render_note(owned_note(pages, pid))) == Some(owned_note(pages, pid)),
{
    let n = owned_note(pages, pid);
    reveal_strlit("0.1.0");
    assert(crate::VERSION@ =~= seq!['0', '.', '1', '.', '0']);
    lemma_trim_clean(crate::VERSION@);
    assert forall|i: int| 0 <= i < n.pages.len() implies is_sound_entry(#[trigger] n.pages[i]) by {
        assert(n.pages[i] == (pages[i], Mode::Owned));
    }
    lemma_note_round_trip(n);
}

} // verus!
