//! The Linux side, for the program that wants the data.
//!
//! "It is just a file" is true and still not enough. A reader has to know
//! whether anything is publishing, whether the block it wants is one of
//! them, and whether the file it is about to read is the size it expects —
//! and if it skips those, the failure is not an error but a page of zeroes
//! that looks like a car sitting still.
//!
//! Opening files and reading them is the program's part; what counts as a
//! note worth believing, which size a block was published at, and which
//! reads are refused are decided here.

use crate::announce::{FORMAT, Note, NoteView, parse_note};
use crate::liveness::Pulse;
use crate::time::Duration;
use crate::page::Page;
use crate::text::{decimal, push_decimal, push_str, same_text};
use vstd::prelude::*;

verus! {

/// What a note's text says is publishing, if it is a note of this format:
/// a note from a format this does not know is not to be trusted, and
/// neither are the files beside it.
pub open spec fn believed(text: Seq<char>) -> Option<NoteView> {
    match parse_note(text) {
        Some(n) => if n.format == FORMAT { Some(n) } else { None },
        None => None,
    }
}

/// What is publishing, from the text of the note in the directory.
///
/// `None` when the text is no note, or a note of another format — both of
/// which mean "do not trust the files beside it". This does not say whether
/// the bridge is still alive; [`live_publishing`] asks that too.
pub fn publishing_in(text: &str) -> (r: Option<Note>)
    ensures
        match r {
            Some(n) => believed(text@) == Some(n@),
            None => believed(text@) is None,
        },
{
    match Note::parse(text) {
        Some(n) => {
            if n.is_understood() {
                Some(n)
            } else {
                None
            }
        },
        None => None,
    }
}

/// What is publishing, and only if something still is: a note left behind
/// by a bridge that died answers `None` rather than a session that ended
/// hours ago with every number in it looking real. So does a note with no
/// pulse to take.
pub fn live_publishing(note: Option<Note>, pulse: Option<Pulse>) -> (r: Option<Note>)
    ensures
        match (note, pulse) {
            (Some(n), Some(p)) => if p is Abandoned { r is None } else { r == Some(n) },
            _ => r is None,
        },
{
    let note = match note {
        Some(n) => n,
        None => return None,
    };
    match pulse {
        Some(p) => {
            if p.is_worth_reading() {
                Some(note)
            } else {
                None
            }
        },
        None => None,
    }
}

/// What the note's age says, for a caller with its own patience: `None`
/// when there is no note to take an age from. A note dated ahead of the
/// clock — which a clock change does — arrives as `ahead`.
pub fn pulse_after(age: Option<Duration>, ahead: bool, stale_after: Duration) -> (r: Option<Pulse>)
    ensures
        match age {
            None => r is None,
            Some(a) => r == Some(crate::liveness::pulse_of(a@, ahead, stale_after@)),
        },
{
    match age {
        None => None,
        Some(a) => Some(crate::liveness::pulse(a, ahead, stale_after)),
    }
}

/// Whether the bridge that wrote the note is still there, at the patience a
/// reader should have: a running bridge touches its note every beat, and one
/// untouched for [`crate::liveness::stale`] is gone.
pub fn pulse(age: Option<Duration>, ahead: bool) -> (r: Option<Pulse>)
    ensures
        match age {
            None => r is None,
            Some(a) => r == Some(
                crate::liveness::pulse_of(
                    a@,
                    ahead,
                    (crate::liveness::STALE_SECS * crate::time::NANOS_PER_SEC) as nat,
                ),
            ),
        },
{
    pulse_after(age, ahead, crate::liveness::stale())
}

/// Whether a named block is published, and at what size: the first entry
/// with that name.
pub fn published_size(note: Option<Note>, name: &str) -> (r: Option<usize>)
    ensures
        note is None ==> r is None,
        note matches Some(n) ==> match r {
            Some(b) => exists|i: int|
                0 <= i < n.pages.len() && (#[trigger] n.pages[i]).0.name@ == name@
                && n.pages[i].0.bytes == b
                && forall|j: int| 0 <= j < i ==> (#[trigger] n.pages[j]).0.name@ != name@,
            None => forall|i: int| 0 <= i < n.pages.len() ==> (#[trigger] n.pages[i]).0.name@ != name@,
        },
{
    match &note {
        None => None,
        Some(n) => {
            let count = n.pages.len();
            for i in 0..count
                invariant
                    count == n.pages.len(),
                    note == Some(*n),
                    forall|j: int| 0 <= j < i ==> (#[trigger] n.pages[j]).0.name@ != name@,
            {
                if same_text(n.pages[i].0.name.as_str(), name) {
                    let b = n.pages[i].0.bytes;
                    assert(note->0 == *n);
                    assert(n.pages[i as int].0.name@ == name@);
                    return Some(b);
                }
            }
            assert(note->0 == *n);
            None
        },
    }
}

/// Why a read of a published page was refused.
#[derive(Debug, Clone, PartialEq, Eq)]
pub enum ReadRefusal {
    /// The file is not the size the page says: the two sides are different
    /// versions, and this is the one failure that reads as data.
    WrongFileSize {
        /// Where the file is.
        path: String,
        /// How big it is.
        found: u64,
        /// How big the page says it should be.
        expected: usize,
    },
    /// A buffer that is not exactly the page's size.
    WrongBuffer {
        /// The buffer's size.
        len: usize,
        /// The page's.
        page: usize,
    },
    /// A part of the page that runs past its end.
    PastEnd {
        /// Where the part would end, saturating.
        end: u64,
        /// The page's size.
        page: usize,
    },
}

impl ReadRefusal {
    /// What to say.
    pub fn message(&self) -> (s: String)
        ensures
            s@ == (match self {
                ReadRefusal::WrongFileSize { path, found, expected } => path@ + " is "@ + decimal(
                    *found as nat,
                ) + " bytes and "@ + decimal(*expected as nat) + " was expected — the two sides are different versions"@,
                ReadRefusal::WrongBuffer { len, page } => "a buffer of "@ + decimal(*len as nat)
                    + " bytes for a "@ + decimal(*page as nat) + "-byte page"@,
                ReadRefusal::PastEnd { end, page } => decimal(*end as nat) + " bytes asked for from a "@
                    + decimal(*page as nat) + "-byte page"@,
            }),
    {
        let mut s = String::new();
        match self {
            ReadRefusal::WrongFileSize { path, found, expected } => {
                push_str(&mut s, path.as_str());
                push_str(&mut s, " is ");
                push_decimal(&mut s, *found as u128);
                push_str(&mut s, " bytes and ");
                push_decimal(&mut s, *expected as u128);
                push_str(&mut s, " was expected — the two sides are different versions");
            },
            ReadRefusal::WrongBuffer { len, page } => {
                push_str(&mut s, "a buffer of ");
                push_decimal(&mut s, *len as u128);
                push_str(&mut s, " bytes for a ");
                push_decimal(&mut s, *page as u128);
                push_str(&mut s, "-byte page");
            },
            ReadRefusal::PastEnd { end, page } => {
                push_decimal(&mut s, *end as u128);
                push_str(&mut s, " bytes asked for from a ");
                push_decimal(&mut s, *page as u128);
                push_str(&mut s, "-byte page");
            },
        }
        s
    }
}

/// Whether a file found at `path` may be opened as `page`: only at exactly
/// the page's size.
pub fn check_file_size(path: &str, found: u64, page: &Page) -> (r: Result<(), ReadRefusal>)
    ensures
        match r {
            Ok(()) => found == page.bytes,
            Err(e) => found != page.bytes && e == (ReadRefusal::WrongFileSize {
                path: e->path,
                found,
                expected: page.bytes,
            }) && e->path@ == path@,
        },
{
    if found != page.bytes as u64 {
        return Err(ReadRefusal::WrongFileSize {
            path: crate::text::owned(path),
            found,
            expected: page.bytes,
        });
    }
    Ok(())
}

/// Whether a whole read of `page` into a buffer of `len` bytes is allowed:
/// only into a buffer of exactly the page's size, never part-filled.
pub fn check_buffer(len: usize, page: &Page) -> (r: Result<(), ReadRefusal>)
    ensures
        match r {
            Ok(()) => len == page.bytes,
            Err(e) => len != page.bytes && e == (ReadRefusal::WrongBuffer { len, page: page.bytes }),
        },
{
    if len != page.bytes {
        return Err(ReadRefusal::WrongBuffer { len, page: page.bytes });
    }
    Ok(())
}

/// Where a read of `len` bytes from `offset` ends, stopping at the top of
/// `u64`.
pub open spec fn read_end(offset: u64, len: usize) -> nat {
    if offset + len > u64::MAX { u64::MAX as nat } else { (offset + len) as nat }
}

/// Whether a read of part of `page` is allowed: right up to the end, and
/// not one byte past it.
pub fn check_part(offset: u64, len: usize, page: &Page) -> (r: Result<(), ReadRefusal>)
    ensures
        match r {
            Ok(()) => read_end(offset, len) <= page.bytes,
            Err(e) => read_end(offset, len) > page.bytes && e == (ReadRefusal::PastEnd {
                end: read_end(offset, len) as u64,
                page: page.bytes,
            }),
        },
{
    let len64: u64 = if len as u128 > u64::MAX as u128 { u64::MAX } else { len as u64 };
    let end: u64 = if offset > u64::MAX - len64 { u64::MAX } else { offset + len64 };
    assert(end == read_end(offset, len));
    if end as u128 > page.bytes as u128 {
        return Err(ReadRefusal::PastEnd { end, page: page.bytes });
    }
    Ok(())
}

} // verus!
