//! `--verify`: what a person is told about a directory somebody already
//! published in.
//!
//! The program reads the note, its age and the size of each page's file;
//! what is said about them, and whether it amounts to a healthy bridge, is
//! decided here.

use crate::announce::{entries_view, mode_word, Mode, Note, NoteView, FORMAT};
use crate::liveness::{description, Pulse};
use crate::page::{Page, PageView};
use crate::text::{chars_of, decimal, decimal_of, owned, push_all, push_char, push_str};
use vstd::prelude::*;

verus! {

/// The line above the pages, ending in its newline.
pub const HEADER: &'static str = "  PAGE                                  BYTES  MODE      ON DISK\n";

/// A run of spaces.
pub open spec fn spaces(n: nat) -> Seq<char> {
    Seq::new(n, |i: int| ' ')
}

/// Left-aligned in a column this wide: spaces after, none when it is
/// already as wide.
pub open spec fn padded_right(s: Seq<char>, width: nat) -> Seq<char> {
    if s.len() >= width {
        s
    } else {
        s + spaces((width - s.len()) as nat)
    }
}

/// Right-aligned in a column this wide: spaces before, none when it is
/// already as wide.
pub open spec fn padded_left(s: Seq<char>, width: nat) -> Seq<char> {
    if s.len() >= width {
        s
    } else {
        spaces((width - s.len()) as nat) + s
    }
}

/// What is on disk for a page: `MISSING` when its file could not be looked
/// at, its length when that is the page's size, and its length with what it
/// should be otherwise.
pub open spec fn on_disk_text(found: Option<u64>, page: PageView) -> Seq<char> {
    match found {
        None => "MISSING"@,
        Some(len) => if len == page.bytes {
            decimal(len as nat) + " bytes"@
        } else {
            decimal(len as nat) + " bytes — SHOULD BE "@ + decimal(page.bytes)
        },
    }
}

/// **What is on disk is called right only when it is the page's size**:
/// a file that could not be looked at is `MISSING`; a file whose length is
/// the page's size is its length in bytes and nothing more; and a file of
/// any other length — longer or shorter — is its length followed by what it
/// should be.
pub proof fn lemma_on_disk_says_should_be_on_any_mismatch(len: u64, page: PageView)
    ensures
        on_disk_text(None, page) == "MISSING"@,
        (on_disk_text(Some(len), page) == decimal(len as nat) + " bytes"@) == (len == page.bytes),
        len != page.bytes ==> on_disk_text(Some(len), page) == decimal(len as nat)
            + " bytes — SHOULD BE "@ + decimal(page.bytes),
{
    reveal_strlit(" bytes");
    reveal_strlit(" bytes — SHOULD BE ");
    if len != page.bytes {
        let a = decimal(len as nat) + " bytes"@;
        let b = decimal(len as nat) + " bytes — SHOULD BE "@ + decimal(page.bytes);
        assert(a.len() < b.len());
    }
}

/// One page's row: name, size, mode and what is on disk, in columns.
pub open spec fn row_text(e: (PageView, Mode), found: Option<u64>) -> Seq<char> {
    "  "@ + padded_right(e.0.name, 32) + " "@ + padded_left(decimal(e.0.bytes), 10) + "  "@
        + padded_right(mode_word(e.1), 9) + " "@ + on_disk_text(found, e.0) + "\n"@
}

/// Every page's row, the `i`th with the `i`th of what was found on disk.
pub open spec fn rows_text(pages: Seq<(PageView, Mode)>, found: Seq<Option<u64>>) -> Seq<char>
    decreases pages.len(),
{
    if pages.len() == 0 {
        seq![]
    } else {
        rows_text(pages.drop_last(), found) + row_text(pages.last(), found[pages.len() - 1])
    }
}

/// The line about the note's age: only when it says the bridge is gone.
pub open spec fn pulse_text(pulse: Option<Pulse>) -> Seq<char> {
    match pulse {
        Some(p) => if p is Abandoned {
            "  "@ + description(p) + "\n"@
        } else {
            seq![]
        },
        None => seq![],
    }
}

/// The line about the note's format: only when this build does not read it.
pub open spec fn format_text(n: NoteView) -> Seq<char> {
    if n.format == FORMAT {
        seq![]
    } else {
        "  note format "@ + decimal(n.format as nat) + " — this build reads "@ + decimal(
            FORMAT as nat,
        ) + "\n"@
    }
}

/// The whole report: who is publishing, what is wrong with the note if
/// anything, and a row per page.
pub open spec fn report_text(n: NoteView, pulse: Option<Pulse>, found: Seq<Option<u64>>) -> Seq<
    char,
> {
    "wineshm "@ + n.version + " is publishing, pid "@ + decimal(n.pid as nat) + "\n"@ + pulse_text(
        pulse,
    ) + format_text(n) + HEADER@ + rows_text(n.pages, found)
}

/// Whether what is published can be trusted: there is no pulse to go by, or
/// it is not an abandoned one.
pub open spec fn is_healthy(pulse: Option<Pulse>) -> bool {
    match pulse {
        Some(p) => !(p is Abandoned),
        None => true,
    }
}

/// [`is_healthy`], computed: what `--verify` exits with.
pub fn healthy(pulse: Option<Pulse>) -> (b: bool)
    ensures
        b == is_healthy(pulse),
{
    match pulse {
        Some(p) => p.is_worth_reading(),
        None => true,
    }
}

/// Append `n` spaces.
fn push_spaces(out: &mut String, n: usize)
    ensures
        final(out)@ == old(out)@ + spaces(n as nat),
{
    let ghost start = out@;
    let mut i: usize = 0;
    while i < n
        invariant
            i <= n,
            out@ == start + spaces(i as nat),
        decreases n - i,
    {
        push_char(out, ' ');
        i += 1;
        assert(out@ =~= start + spaces(i as nat));
    }
}

/// Append characters left-aligned in a column.
fn push_padded_right(out: &mut String, s: &Vec<char>, width: usize)
    ensures
        final(out)@ == old(out)@ + padded_right(s@, width as nat),
{
    push_all(out, s);
    if s.len() < width {
        push_spaces(out, width - s.len());
    }
    assert(out@ =~= old(out)@ + padded_right(s@, width as nat));
}

/// Append characters right-aligned in a column.
fn push_padded_left(out: &mut String, s: &Vec<char>, width: usize)
    ensures
        final(out)@ == old(out)@ + padded_left(s@, width as nat),
{
    if s.len() < width {
        push_spaces(out, width - s.len());
    }
    push_all(out, s);
    assert(out@ =~= old(out)@ + padded_left(s@, width as nat));
}

/// Append what is on disk for a page.
fn push_on_disk(out: &mut String, found: Option<u64>, page: &Page)
    ensures
        final(out)@ == old(out)@ + on_disk_text(found, page@),
{
    match found {
        None => push_str(out, "MISSING"),
        Some(len) => {
            push_all(out, &decimal_of(len as u128));
            if page.bytes as u64 == len {
                push_str(out, " bytes");
            } else {
                push_str(out, " bytes — SHOULD BE ");
                push_all(out, &decimal_of(page.bytes as u128));
            }
        },
    }
}

/// Append one page's row.
fn push_row(out: &mut String, e: &(Page, Mode), found: Option<u64>)
    ensures
        final(out)@ == old(out)@ + row_text((e.0@, e.1), found),
{
    push_str(out, "  ");
    push_padded_right(out, &chars_of(e.0.name.as_str()), 32);
    push_str(out, " ");
    push_padded_left(out, &decimal_of(e.0.bytes as u128), 10);
    push_str(out, "  ");
    push_padded_right(out, &chars_of(e.1.word()), 9);
    push_str(out, " ");
    push_on_disk(out, found, &e.0);
    push_str(out, "\n");
    assert(out@ =~= old(out)@ + row_text((e.0@, e.1), found));
}

/// [`on_disk_text`], computed.
pub fn on_disk(found: Option<u64>, page: &Page) -> (r: String)
    ensures
        r@ == on_disk_text(found, page@),
{
    let mut out = String::new();
    push_on_disk(&mut out, found, page);
    assert(out@ =~= on_disk_text(found, page@));
    out
}

/// [`report_text`], computed: `found` holds, for each page in the note's
/// order, the length of its file, or nothing where it could not be looked at.
pub fn report(note: &Note, pulse: Option<Pulse>, found: &Vec<Option<u64>>) -> (r: String)
    requires
        found.len() == note.pages.len(),
    ensures
        r@ == report_text(note@, pulse, found@),
{
    let mut out = owned("wineshm ");
    push_str(&mut out, note.version.as_str());
    push_str(&mut out, " is publishing, pid ");
    push_all(&mut out, &decimal_of(note.pid as u128));
    push_str(&mut out, "\n");
    if let Some(p) = pulse {
        if !p.is_worth_reading() {
            push_str(&mut out, "  ");
            push_str(&mut out, p.describe());
            push_str(&mut out, "\n");
        }
    }
    if !note.is_understood() {
        push_str(&mut out, "  note format ");
        push_all(&mut out, &decimal_of(note.format as u128));
        push_str(&mut out, " — this build reads ");
        push_all(&mut out, &decimal_of(FORMAT as u128));
        push_str(&mut out, "\n");
    }
    push_str(&mut out, HEADER);
    let ghost head = out@;
    proof {
        assert(head =~= "wineshm "@ + note@.version + " is publishing, pid "@ + decimal(
            note@.pid as nat,
        ) + "\n"@ + pulse_text(pulse) + format_text(note@) + HEADER@);
    }
    let ghost all = note@.pages;
    let mut i: usize = 0;
    while i < note.pages.len()
        invariant
            i <= note.pages.len(),
            found.len() == note.pages.len(),
            all == entries_view(note.pages@),
            out@ == head + rows_text(all.take(i as int), found@),
        decreases note.pages.len() - i,
    {
        let ghost before = out@;
        push_row(&mut out, &note.pages[i], found[i]);
        proof {
            let t = all.take(i + 1);
            assert(t.drop_last() =~= all.take(i as int));
            assert(t.last() == all[i as int]);
            assert(all[i as int] == (note.pages@[i as int].0@, note.pages@[i as int].1));
            assert(rows_text(t, found@) == rows_text(all.take(i as int), found@) + row_text(
                all[i as int],
                found@[i as int],
            ));
            assert(out@ =~= head + rows_text(t, found@));
        }
        i += 1;
    }
    assert(all.take(i as int) =~= all);
    proof {
        assert(out@ =~= report_text(note@, pulse, found@));
    }
    out
}

} // verus!
