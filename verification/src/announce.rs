//! The note a running bridge leaves, so the Linux side knows what it is
//! talking to.
//!
//! **Because there is no other channel.** The bridge is a Windows process
//! inside a Wine prefix; the program reading the pages is a Linux process
//! outside it. They share exactly one thing — a directory — so the note goes
//! in the directory.

use crate::liveness::Pulse;
use crate::page::{BadPageView, Page, PageView, parse_page, is_valid_page, page_text, lemma_page_text_round_trip};
use crate::text::{
    lemma_decimal, lemma_digits_are_plain, lemma_first_at, lemma_first_at_none, lemma_last_at,
    lemma_parse_decimal, lemma_trim_clean, strip_cr, is_digit,
    chars_of, decimal, decimal_of, first_at, is_white, lines, lines_of, owned, parse_uint,
    parse_uint_of, push_all, push_str, same, split_first, split_last, split_once, rsplit_once,
    string_of, trim, trimmed, digit_char, push_char,
};
use vstd::prelude::*;

verus! {

/// The file the note is written to, inside the same directory as the pages.
pub const FILE: &'static str = "wineshm.info";

/// The note's own shape. Raised when a key is added or removed, not when the
/// program changes — a reader keys off this, not off the version.
pub const FORMAT: u32 = 1;

/// How one page is being served.
#[derive(Debug, Clone, Copy, PartialEq, Eq, Structural)]
pub enum Mode {
    /// This bridge created the Win32 section, backed by the file. The writer
    /// writes straight into it and nothing is copied, ever.
    Owned,
    /// Somebody else had already created the section, so it is opened and
    /// copied. Costs a comparison per look and a copy per change.
    Mirrored,
}

/// The word for a mode.
pub open spec fn mode_word(m: Mode) -> Seq<char> {
    match m {
        Mode::Owned => "owned"@,
        Mode::Mirrored => "mirrored"@,
    }
}

/// The mode a word names, if it names one.
pub open spec fn mode_named(word: Seq<char>) -> Option<Mode> {
    if word == "owned"@ {
        Some(Mode::Owned)
    } else if word == "mirrored"@ {
        Some(Mode::Mirrored)
    } else {
        None
    }
}

impl Mode {
    /// The word used in the note and in the program's own output.
    pub fn word(self) -> (w: &'static str)
        ensures
            w@ == mode_word(self),
    {
        match self {
            Mode::Owned => "owned",
            Mode::Mirrored => "mirrored",
        }
    }

    /// Read one back.
    pub fn from_word(word: &str) -> (m: Option<Mode>)
        ensures
            m == mode_named(word@),
    {
        let v = chars_of(word);
        Mode::from_chars(&v)
    }

    /// [`Mode::from_word`], on text already in characters.
    pub fn from_chars(v: &Vec<char>) -> (m: Option<Mode>)
        ensures
            m == mode_named(v@),
    {
        if same(v, &chars_of("owned")) {
            Some(Mode::Owned)
        } else if same(v, &chars_of("mirrored")) {
            Some(Mode::Mirrored)
        } else {
            None
        }
    }
}

/// **A mode's word reads back as the same mode.**
pub proof fn lemma_mode_word_round_trip(m: Mode)
    ensures
        mode_named(mode_word(m)) == Some(m),
{
    reveal_strlit("owned");
    reveal_strlit("mirrored");
    assert("mirrored"@.len() == 8);
    assert("owned"@.len() == 5);
}

/// What a running bridge is doing.
#[derive(Debug, PartialEq, Eq)]
pub struct Note {
    /// The version of the program that wrote it.
    pub version: String,
    /// [`FORMAT`], so a reader can refuse a note it does not understand.
    pub format: u32,
    /// The Windows process id, for somebody trying to find it.
    pub pid: u32,
    /// Every page, with the size published and how it is served.
    pub pages: Vec<(Page, Mode)>,
}

/// What a note says.
pub struct NoteView {
    pub version: Seq<char>,
    pub format: u32,
    pub pid: u32,
    pub pages: Seq<(PageView, Mode)>,
}

/// The view of every entry of a page list.
pub open spec fn entries_view(pages: Seq<(Page, Mode)>) -> Seq<(PageView, Mode)> {
    pages.map_values(|e: (Page, Mode)| (e.0@, e.1))
}

impl View for Note {
    type V = NoteView;

    open spec fn view(&self) -> NoteView {
        NoteView {
            version: self.version@,
            format: self.format,
            pid: self.pid,
            pages: entries_view(self.pages@),
        }
    }
}

impl Clone for Note {
    fn clone(&self) -> (r: Note)
        ensures
            r@ == self@,
    {
        let mut pages: Vec<(Page, Mode)> = Vec::new();
        let mut i: usize = 0;
        while i < self.pages.len()
            invariant
                i <= self.pages.len(),
                pages.len() == i,
                entries_view(pages@) == entries_view(self.pages@).take(i as int),
            decreases self.pages.len() - i,
        {
            let entry = &self.pages[i];
            let ghost before = pages@;
            pages.push((entry.0.clone(), entry.1));
            assert forall|j: int| 0 <= j < i + 1 implies #[trigger] entries_view(pages@)[j]
                == entries_view(self.pages@)[j] by {
                if j < i {
                    assert(pages@[j] == before[j]);
                    assert(entries_view(before)[j] == entries_view(self.pages@).take(i as int)[j]);
                }
            }
            assert(entries_view(pages@) =~= entries_view(self.pages@).take(i + 1));
            i += 1;
        }
        assert(entries_view(self.pages@).take(i as int) =~= entries_view(self.pages@));
        Note { version: self.version.clone(), format: self.format, pid: self.pid, pages }
    }
}

/// A `key=value` line, without its newline.
pub open spec fn note_line(key: Seq<char>, value: Seq<char>) -> Seq<char> {
    key + seq!['='] + value
}

/// What a page line says after its `=`: `NAME:SIZE:MODE`.
pub open spec fn page_entry_text(e: (PageView, Mode)) -> Seq<char> {
    page_text(e.0) + seq![':'] + mode_word(e.1)
}

/// One page's line, without its newline: `page=NAME:SIZE:MODE`.
pub open spec fn page_line(e: (PageView, Mode)) -> Seq<char> {
    note_line("page"@, page_entry_text(e))
}

/// Every page's line, each ending in a newline.
pub open spec fn page_block(pages: Seq<(PageView, Mode)>) -> Seq<char>
    decreases pages.len(),
{
    if pages.len() == 0 {
        seq![]
    } else {
        page_line(pages[0]) + seq!['\n'] + page_block(pages.drop_first())
    }
}

/// The three lines every note starts with.
pub open spec fn note_header(n: NoteView) -> Seq<char> {
    note_line("format"@, decimal(n.format as nat)) + seq!['\n'] + note_line("version"@, n.version)
        + seq!['\n'] + note_line("pid"@, decimal(n.pid as nat)) + seq!['\n']
}

/// A note, as text: one `key=value` per line.
pub open spec fn render_note(n: NoteView) -> Seq<char> {
    note_header(n) + page_block(n.pages)
}

/// What has been read of a note so far.
pub struct NoteScan {
    pub format: Option<u32>,
    pub version: Option<Seq<char>>,
    pub pid: Option<u32>,
    pub pages: Seq<(PageView, Mode)>,
}

/// Nothing read yet.
pub open spec fn scan_start() -> NoteScan {
    NoteScan { format: None, version: None, pid: None, pages: seq![] }
}

/// `str::parse::<u32>().ok()`.
pub open spec fn u32_of(text: Seq<char>) -> Option<u32> {
    match parse_uint(text, u32::MAX as nat) {
        Some(n) => Some(n as u32),
        None => None,
    }
}

/// One line of a note, read. `None` when it is a page line that makes no
/// sense — refused rather than skipped; a line that is not `key=value`, or
/// has a key nobody knows, is passed over.
pub open spec fn scan_line(st: NoteScan, line: Seq<char>) -> Option<NoteScan> {
    match split_once(line, '=') {
        None => Some(st),
        Some((key, value)) => {
            let key = trim(key);
            let value = trim(value);
            if key == "format"@ {
                Some(NoteScan { format: u32_of(value), ..st })
            } else if key == "version"@ {
                Some(NoteScan { version: Some(value), ..st })
            } else if key == "pid"@ {
                Some(NoteScan { pid: u32_of(value), ..st })
            } else if key == "page"@ {
                match rsplit_once(value, ':') {
                    None => None,
                    Some((spec, word)) => match parse_page(spec) {
                        Err(_) => None,
                        Ok(page) => match mode_named(word) {
                            None => None,
                            Some(mode) => Some(NoteScan { pages: st.pages.push((page, mode)), ..st }),
                        },
                    },
                }
            } else {
                Some(st)
            }
        },
    }
}

/// Every line of a note, read in order.
pub open spec fn scan_lines(lines: Seq<Seq<char>>) -> Option<NoteScan>
    decreases lines.len(),
{
    if lines.len() == 0 {
        Some(scan_start())
    } else {
        match scan_lines(lines.drop_last()) {
            None => None,
            Some(st) => scan_line(st, lines.last()),
        }
    }
}

/// A note, read back: every line scanned, and the format, the version and
/// the pid all found.
pub open spec fn parse_note(text: Seq<char>) -> Option<NoteView> {
    match scan_lines(lines(text)) {
        Some(st) => match (st.format, st.version, st.pid) {
            (Some(format), Some(version), Some(pid)) => Some(
                NoteView { version, format, pid, pages: st.pages },
            ),
            _ => None,
        },
        None => None,
    }
}

/// A text, as characters, if there is one.
pub open spec fn text_view(t: Option<String>) -> Option<Seq<char>> {
    match t {
        Some(s) => Some(s@),
        None => None,
    }
}

/// Once a line has been refused, the note is refused whatever follows.
pub proof fn lemma_scan_stays_refused(ls: Seq<Seq<char>>, k: int)
    requires
        0 <= k <= ls.len(),
        scan_lines(ls.take(k)) is None,
    ensures
        scan_lines(ls) is None,
    decreases ls.len() - k,
{
    if k < ls.len() {
        let next = ls.take(k + 1);
        assert(next.drop_last() =~= ls.take(k));
        lemma_scan_stays_refused(ls, k + 1);
    } else {
        assert(ls.take(k) =~= ls);
    }
}

/// Reading one more line is scanning it.
pub proof fn lemma_scan_step(ls: Seq<Seq<char>>, k: int)
    requires
        0 <= k < ls.len(),
    ensures
        scan_lines(ls.take(k + 1)) == (match scan_lines(ls.take(k)) {
            None => None,
            Some(st) => scan_line(st, ls[k]),
        }),
{
    let next = ls.take(k + 1);
    assert(next.drop_last() =~= ls.take(k));
    assert(next.last() == ls[k]);
}

impl Note {
    /// Read one back, or `None` if it is not a note this understands.
    ///
    /// Unknown keys are skipped rather than refused, so a later version adding
    /// a line does not make an older reader call the file corrupt; a page line
    /// that makes no sense is refused rather than skipped.
    pub fn parse(text: &str) -> (r: Option<Note>)
        ensures
            match r {
                Some(n) => parse_note(text@) == Some(n@),
                None => parse_note(text@) is None,
            },
    {
        let v = chars_of(text);
        let all = lines_of(&v);
        let ghost ls = all.deep_view();
        let k_format = chars_of("format");
        let k_version = chars_of("version");
        let k_pid = chars_of("pid");
        let k_page = chars_of("page");
        let mut format: Option<u32> = None;
        let mut version: Option<String> = None;
        let mut pid: Option<u32> = None;
        let mut pages: Vec<(Page, Mode)> = Vec::new();
        let mut i: usize = 0;
        assert(ls.take(0) =~= Seq::<Seq<char>>::empty());
        assert(entries_view(pages@) =~= Seq::<(PageView, Mode)>::empty());
        while i < all.len()
            invariant
                i <= all.len(),
                ls == all.deep_view(),
                ls == lines(text@),
                k_format@ == "format"@,
                k_version@ == "version"@,
                k_pid@ == "pid"@,
                k_page@ == "page"@,
                scan_lines(ls.take(i as int)) == Some(
                    NoteScan {
                        format,
                        version: text_view(version),
                        pid,
                        pages: entries_view(pages@),
                    },
                ),
            decreases all.len() - i,
        {
            let line = &all[i];
            assert(ls[i as int] == line.deep_view());
            assert(line.deep_view() =~= line@);
            proof {
                lemma_scan_step(ls, i as int);
            }
            match split_first(line, '=') {
                None => {},
                Some((key, value)) => {
                    let key = trimmed(&key);
                    let value = trimmed(&value);
                    if same(&key, &k_format) {
                        format = match parse_uint_of(&value, u32::MAX as u128) {
                            Some(n) => Some(n as u32),
                            None => None,
                        };
                    } else if same(&key, &k_version) {
                        version = Some(string_of(&value));
                    } else if same(&key, &k_pid) {
                        pid = match parse_uint_of(&value, u32::MAX as u128) {
                            Some(n) => Some(n as u32),
                            None => None,
                        };
                    } else if same(&key, &k_page) {
                        let (spec, word) = match split_last(&value, ':') {
                            Some(parts) => parts,
                            None => {
                                proof {
                                    lemma_scan_stays_refused(ls, i + 1);
                                }
                                return None;
                            },
                        };
                        let page = match Page::parse_chars(&spec) {
                            Ok(page) => page,
                            Err(_) => {
                                proof {
                                    lemma_scan_stays_refused(ls, i + 1);
                                }
                                return None;
                            },
                        };
                        let mode = match Mode::from_chars(&word) {
                            Some(mode) => mode,
                            None => {
                                proof {
                                    lemma_scan_stays_refused(ls, i + 1);
                                }
                                return None;
                            },
                        };
                        let ghost before = pages@;
                        pages.push((page, mode));
                        assert(entries_view(pages@) =~= entries_view(before).push((page@, mode)));
                    }
                },
            }
            i += 1;
        }
        assert(ls.take(i as int) =~= ls);
        match (format, version, pid) {
            (Some(format), Some(version), Some(pid)) => Some(Note { version, format, pid, pages }),
            _ => None,
        }
    }

    /// Render it. One `key=value` per line, values never containing a newline.
    pub fn render(&self) -> (r: String)
        ensures
            r@ == render_note(self@),
    {
        let mut out = owned("format");
        push_str(&mut out, "=");
        push_all(&mut out, &decimal_of(self.format as u128));
        push_str(&mut out, "\n");
        push_str(&mut out, "version");
        push_str(&mut out, "=");
        push_str(&mut out, self.version.as_str());
        push_str(&mut out, "\n");
        push_str(&mut out, "pid");
        push_str(&mut out, "=");
        push_all(&mut out, &decimal_of(self.pid as u128));
        push_str(&mut out, "\n");
        proof {
            reveal_strlit("\n");
            reveal_strlit("=");
            assert(out@ =~= note_header(self@));
        }
        let ghost all = self@.pages;
        let mut i: usize = 0;
        assert(all.skip(0) =~= all);
        while i < self.pages.len()
            invariant
                i <= self.pages.len(),
                all == entries_view(self.pages@),
                out@ + page_block(all.skip(i as int)) == render_note(self@),
            decreases self.pages.len() - i,
        {
            let ghost before = out@;
            let entry = &self.pages[i];
            push_str(&mut out, "page");
            push_str(&mut out, "=");
            push_str(&mut out, entry.0.name.as_str());
            push_str(&mut out, ":");
            push_all(&mut out, &decimal_of(entry.0.bytes as u128));
            push_str(&mut out, ":");
            push_str(&mut out, entry.1.word());
            push_str(&mut out, "\n");
            proof {
                reveal_strlit(":");
                reveal_strlit("=");
                reveal_strlit("\n");
                let rest = all.skip(i as int);
                assert(rest[0] == all[i as int]);
                assert(rest.drop_first() =~= all.skip(i + 1));
                assert(out@ =~= before + page_line(all[i as int]) + seq!['\n']);
                assert(page_block(rest) == page_line(rest[0]) + seq!['\n'] + page_block(
                    rest.drop_first(),
                ));
                assert(out@ + page_block(all.skip(i + 1)) =~= before + page_block(rest));
            }
            i += 1;
        }
        assert(all.skip(i as int) =~= Seq::<(PageView, Mode)>::empty());
        assert(out@ + page_block(all.skip(i as int)) =~= out@);
        out
    }

    /// Whether a reader of this format can trust the rest of the file.
    pub fn is_understood(&self) -> (b: bool)
        ensures
            b == (self.format == FORMAT),
    {
        self.format == FORMAT
    }
}

// ---------------------------------------------------------------------------
// Writing a note and reading it back
// ---------------------------------------------------------------------------

/// Whether a run of characters is all on one line.
pub open spec fn one_line(s: Seq<char>) -> bool {
    forall|j: int| 0 <= j < s.len() ==> #[trigger] s[j] != '\n'
}

/// An entry a note can carry and read back: a page [`Page::parse`] accepts,
/// whose name is on one line and does not start with white space.
pub open spec fn is_sound_entry(e: (PageView, Mode)) -> bool {
    &&& is_valid_page(e.0)
    &&& one_line(e.0.name)
    &&& !is_white(e.0.name[0])
}

/// A note whose text reads back as itself: its version is on one line and
/// has no white space at either end, and every entry is sound.
pub open spec fn is_sound_note(n: NoteView) -> bool {
    &&& one_line(n.version)
    &&& trim(n.version) == n.version
    &&& forall|i: int| 0 <= i < n.pages.len() ==> is_sound_entry(#[trigger] n.pages[i])
}

proof fn lemma_one_line_concat(a: Seq<char>, b: Seq<char>)
    requires
        one_line(a),
        one_line(b),
    ensures
        one_line(a + b),
{
    assert forall|j: int| 0 <= j < (a + b).len() implies #[trigger] (a + b)[j] != '\n' by {
        if j < a.len() {
            assert((a + b)[j] == a[j]);
        } else {
            assert((a + b)[j] == b[j - a.len()]);
        }
    }
}

/// A `key=value` line with both halves on one line is one line, and ends
/// where its value ends.
proof fn lemma_note_line(key: Seq<char>, value: Seq<char>)
    requires
        one_line(key),
        one_line(value),
    ensures
        one_line(note_line(key, value)),
        value.len() > 0 ==> note_line(key, value).last() == value.last(),
        value.len() == 0 ==> note_line(key, value).last() == '=',
{
    lemma_one_line_concat(key, seq!['=']);
    lemma_one_line_concat(key + seq!['='], value);
}

proof fn lemma_lines_cons(a: Seq<char>, rest: Seq<char>)
    requires
        one_line(a),
        a.len() == 0 || a.last() != '\r',
    ensures
        lines(a + seq!['\n'] + rest) == seq![a] + lines(rest),
{
    let s = a + seq!['\n'] + rest;
    assert forall|j: int| 0 <= j < a.len() implies #[trigger] s[j] != '\n' by {
        assert(s[j] == a[j]);
    }
    lemma_first_at(s, '\n', a.len() as int);
    assert(s.take(a.len() as int) =~= a);
    assert(s.skip(a.len() as int + 1) =~= rest);
    assert(strip_cr(a) == a);
}

proof fn lemma_key_line(key: Seq<char>, value: Seq<char>)
    requires
        first_at(key, '=') is None,
    ensures
        split_once(note_line(key, value), '=') == Some((key, value)),
{
    lemma_first_at_none(key, '=');
    let s = note_line(key, value);
    assert forall|j: int| 0 <= j < key.len() implies #[trigger] s[j] != '=' by {
        assert(s[j] == key[j]);
    }
    lemma_first_at(s, '=', key.len() as int);
    assert(s.take(key.len() as int) =~= key);
    assert(s.skip(key.len() as int + 1) =~= value);
}

/// What is needed of a key: no `=`, all on one line, and its own trim.
proof fn lemma_plain_key(key: Seq<char>)
    requires
        key.len() > 0,
        forall|j: int| 0 <= j < key.len() ==> 97 <= (#[trigger] key[j] as u32) <= 122,
    ensures
        first_at(key, '=') is None,
        one_line(key),
        trim(key) == key,
        key.last() != '\r',
{
    lemma_first_at(key, '=', key.len() as int);
    assert(!is_white(key[0]));
    assert(!is_white(key.last()));
    lemma_trim_clean(key);
}

proof fn lemma_keys()
    ensures
        first_at("format"@, '=') is None,
        first_at("version"@, '=') is None,
        first_at("pid"@, '=') is None,
        first_at("page"@, '=') is None,
        trim("format"@) == "format"@,
        trim("version"@) == "version"@,
        trim("pid"@) == "pid"@,
        trim("page"@) == "page"@,
        one_line("format"@),
        one_line("version"@),
        one_line("pid"@),
        one_line("page"@),
        "version"@ != "format"@,
        "pid"@ != "format"@,
        "pid"@ != "version"@,
        "page"@ != "format"@,
        "page"@ != "version"@,
        "page"@ != "pid"@,
{
    reveal_strlit("format");
    reveal_strlit("version");
    reveal_strlit("pid");
    reveal_strlit("page");
    lemma_plain_key("format"@);
    lemma_plain_key("version"@);
    lemma_plain_key("pid"@);
    lemma_plain_key("page"@);
    assert("format"@.len() == 6);
    assert("version"@.len() == 7);
    assert("pid"@.len() == 3);
    assert("page"@.len() == 4);
}

proof fn lemma_words(m: Mode)
    ensures
        mode_word(m).len() > 0,
        !is_white(mode_word(m).last()),
        one_line(mode_word(m)),
        forall|j: int| 0 <= j < mode_word(m).len() ==> #[trigger] mode_word(m)[j] != ':',
        mode_named(mode_word(m)) == Some(m),
{
    reveal_strlit("owned");
    reveal_strlit("mirrored");
    lemma_mode_word_round_trip(m);
}

/// A decimal is one clean line of digits.
proof fn lemma_decimal_line(n: nat)
    ensures
        one_line(decimal(n)),
        trim(decimal(n)) == decimal(n),
        decimal(n).len() > 0,
        decimal(n).last() != '\r',
        forall|j: int| 0 <= j < decimal(n).len() ==> #[trigger] decimal(n)[j] != ':',
{
    let d = decimal(n);
    lemma_decimal(n);
    assert forall|j: int| 0 <= j < d.len() implies #[trigger] d[j] != '\n' && d[j] != ':' by {
        assert(is_digit(d[j]));
    }
    lemma_digits_are_plain(d);
    lemma_trim_clean(d);
}

/// The text of a sound entry after `page=`: one line, its own trim, and it
/// reads back as the entry.
proof fn lemma_entry_text(e: (PageView, Mode))
    requires
        is_sound_entry(e),
    ensures
        one_line(page_entry_text(e)),
        trim(page_entry_text(e)) == page_entry_text(e),
        page_entry_text(e).last() != '\r',
        rsplit_once(page_entry_text(e), ':') == Some((page_text(e.0), mode_word(e.1))),
        parse_page(page_text(e.0)) == Ok::<PageView, BadPageView>(e.0),
        mode_named(mode_word(e.1)) == Some(e.1),
{
    let p = e.0;
    let w = mode_word(e.1);
    let t = page_text(p);
    let v = page_entry_text(e);
    lemma_words(e.1);
    lemma_decimal_line(p.bytes);
    lemma_page_text_round_trip(p);
    assert forall|j: int| 0 <= j < v.len() implies #[trigger] v[j] != '\n' by {
        if j < p.name.len() {
            assert(v[j] == p.name[j]);
        } else if j == p.name.len() {
        } else if j < t.len() {
            assert(v[j] == decimal(p.bytes)[j - p.name.len() - 1]);
        } else if j == t.len() {
        } else {
            assert(v[j] == w[j - t.len() - 1]);
        }
    }
    assert(v[0] == p.name[0]);
    assert(v.last() == w.last());
    lemma_trim_clean(v);
    assert forall|j: int| t.len() < j < v.len() implies #[trigger] v[j] != ':' by {
        assert(v[j] == w[j - t.len() - 1]);
    }
    assert(v[t.len() as int] == ':');
    lemma_last_at(v, ':', t.len() as int);
    assert(v.take(t.len() as int) =~= t);
    assert(v.skip(t.len() as int + 1) =~= w);
}

/// The lines of a page block are the page lines.
proof fn lemma_page_block_lines(ps: Seq<(PageView, Mode)>)
    requires
        forall|i: int| 0 <= i < ps.len() ==> is_sound_entry(#[trigger] ps[i]),
    ensures
        lines(page_block(ps)) == ps.map_values(|e: (PageView, Mode)| page_line(e)),
    decreases ps.len(),
{
    if ps.len() > 0 {
        let rest = ps.drop_first();
        assert forall|i: int| 0 <= i < rest.len() implies is_sound_entry(#[trigger] rest[i]) by {
            assert(rest[i] == ps[i + 1]);
        }
        lemma_page_block_lines(rest);
        let e = ps[0];
        lemma_entry_text(e);
        lemma_keys();
        let l = page_line(e);
        let v = page_entry_text(e);
        lemma_note_line("page"@, v);
        lemma_lines_cons(l, page_block(rest));
        assert(ps.map_values(|e: (PageView, Mode)| page_line(e)) =~= seq![l] + rest.map_values(
            |e: (PageView, Mode)| page_line(e),
        ));
    } else {
        assert(ps.map_values(|e: (PageView, Mode)| page_line(e)) =~= Seq::<Seq<char>>::empty());
    }
}

/// **A sound note, written out and read back, is the same note.** This is
/// the whole contract between the bridge inside the prefix and whatever
/// reads its note outside it.
pub proof fn lemma_note_round_trip(n: NoteView)
    requires
        is_sound_note(n),
    ensures
        parse_note(render_note(n)) == Some(n),
{
    lemma_keys();
    lemma_decimal_line(n.format as nat);
    lemma_decimal_line(n.pid as nat);
    let fl = note_line("format"@, decimal(n.format as nat));
    let vl = note_line("version"@, n.version);
    let pl = note_line("pid"@, decimal(n.pid as nat));
    let pages = n.pages;
    let pm = pages.map_values(|e: (PageView, Mode)| page_line(e));
    lemma_page_block_lines(pages);
    lemma_header_lines(n);
    let block = page_block(pages);
    lemma_lines_cons(pl, block);
    lemma_lines_cons(vl, pl + seq!['\n'] + block);
    lemma_lines_cons(fl, vl + seq!['\n'] + pl + seq!['\n'] + block);
    assert(render_note(n) =~= fl + seq!['\n'] + (vl + seq!['\n'] + pl + seq!['\n'] + block));
    assert(vl + seq!['\n'] + pl + seq!['\n'] + block =~= vl + seq!['\n'] + (pl + seq!['\n'] + block));
    let head = seq![fl, vl, pl];
    let ls = lines(render_note(n));
    assert(ls =~= head + pm);
    // The header.
    lemma_key_line("format"@, decimal(n.format as nat));
    lemma_key_line("version"@, n.version);
    lemma_key_line("pid"@, decimal(n.pid as nat));
    lemma_parse_decimal(n.format as nat, u32::MAX as nat);
    lemma_parse_decimal(n.pid as nat, u32::MAX as nat);
    let st3 = NoteScan {
        format: Some(n.format),
        version: Some(n.version),
        pid: Some(n.pid),
        pages: seq![],
    };
    assert(head.take(0) =~= Seq::<Seq<char>>::empty());
    lemma_scan_step(head, 0);
    lemma_scan_step(head, 1);
    lemma_scan_step(head, 2);
    assert(head.take(3) =~= head);
    assert(scan_lines(head) == Some(st3));
    // The pages.
    lemma_scan_pages(n, head, st3, pages.len() as int);
    assert(pages.take(pages.len() as int) =~= pages);
    assert(head + pm.take(pages.len() as int) =~= ls);
}

proof fn lemma_header_lines(n: NoteView)
    requires
        is_sound_note(n),
    ensures
        one_line(note_line("format"@, decimal(n.format as nat))),
        one_line(note_line("version"@, n.version)),
        one_line(note_line("pid"@, decimal(n.pid as nat))),
        note_line("format"@, decimal(n.format as nat)).last() != '\r',
        note_line("version"@, n.version).last() != '\r',
        note_line("pid"@, decimal(n.pid as nat)).last() != '\r',
{
    lemma_keys();
    lemma_decimal_line(n.format as nat);
    lemma_decimal_line(n.pid as nat);
    lemma_note_line("format"@, decimal(n.format as nat));
    lemma_note_line("version"@, n.version);
    lemma_note_line("pid"@, decimal(n.pid as nat));
    if n.version.len() > 0 {
        lemma_trim_ends(n.version);
    }
}

/// Trimming a run that is its own trim leaves its ends non-white.
proof fn lemma_trim_ends(s: Seq<char>)
    requires
        s.len() > 0,
        trim(s) == s,
    ensures
        !is_white(s[0]),
        !is_white(s.last()),
{
    crate::text::lemma_trim_keeps_ends(s);
}

proof fn lemma_scan_pages(n: NoteView, head: Seq<Seq<char>>, st3: NoteScan, k: int)
    requires
        is_sound_note(n),
        0 <= k <= n.pages.len(),
        scan_lines(head) == Some(st3),
        st3 == (NoteScan {
            format: Some(n.format),
            version: Some(n.version),
            pid: Some(n.pid),
            pages: seq![],
        }),
    ensures
        scan_lines(head + n.pages.map_values(|e: (PageView, Mode)| page_line(e)).take(k)) == Some(
            NoteScan { pages: n.pages.take(k), ..st3 },
        ),
    decreases k,
{
    let pm = n.pages.map_values(|e: (PageView, Mode)| page_line(e));
    if k == 0 {
        assert(head + pm.take(0) =~= head);
        assert(n.pages.take(0) =~= Seq::<(PageView, Mode)>::empty());
    } else {
        lemma_scan_pages(n, head, st3, k - 1);
        let all = head + pm.take(k);
        assert(all.drop_last() =~= head + pm.take(k - 1));
        let e = n.pages[k - 1];
        assert(all.last() == page_line(e));
        assert(is_sound_entry(e));
        lemma_entry_text(e);
        lemma_keys();
        lemma_key_line("page"@, page_entry_text(e));
        let before = NoteScan { pages: n.pages.take(k - 1), ..st3 };
        assert(scan_line(before, page_line(e)) == Some(
            NoteScan { pages: n.pages.take(k - 1).push(e), ..st3 },
        ));
        assert(n.pages.take(k - 1).push(e) =~= n.pages.take(k));
    }
}

/// A line a reader of this format passes over: not `key=value`, or a key
/// it does not know.
pub open spec fn skipped_line(line: Seq<char>) -> bool {
    match split_once(line, '=') {
        None => true,
        Some((key, _)) => {
            let key = trim(key);
            key != "format"@ && key != "version"@ && key != "pid"@ && key != "page"@
        },
    }
}

/// A line passed over changes nothing, wherever it stands.
proof fn lemma_scan_passes_over(a: Seq<Seq<char>>, x: Seq<char>, b: Seq<Seq<char>>)
    requires
        skipped_line(x),
    ensures
        scan_lines(a + seq![x] + b) == scan_lines(a + b),
    decreases b.len(),
{
    if b.len() == 0 {
        assert(a + seq![x] + b =~= a + seq![x]);
        assert((a + seq![x]).drop_last() =~= a);
        assert(a + b =~= a);
    } else {
        let l = a + seq![x] + b;
        let r = a + b;
        assert(l.drop_last() =~= a + seq![x] + b.drop_last());
        assert(r.drop_last() =~= a + b.drop_last());
        lemma_scan_passes_over(a, x, b.drop_last());
        assert(l.last() == b.last());
        assert(r.last() == b.last());
    }
}

/// **A later version adding a line does not break this one**: a line with
/// a key this reader does not know — or no `key=value` at all — reads as
/// if it were not there, wherever it is put between the lines of a note.
pub proof fn lemma_unknown_lines_are_passed_over(before: Seq<char>, line: Seq<char>, after: Seq<char>)
    requires
        before.len() == 0 || before.last() == '\n',
        one_line(line),
        skipped_line(strip_cr(line)),
    ensures
        parse_note(before + line + seq!['\n'] + after) == parse_note(before + after),
{
    let tail = line + seq!['\n'] + after;
    assert(before + line + seq!['\n'] + after =~= before + tail);
    crate::text::lemma_lines_concat(before, tail);
    crate::text::lemma_lines_concat(before, after);
    crate::text::lemma_lines_of_one(line, after);
    assert(lines(before + tail) =~= lines(before) + seq![strip_cr(line)] + lines(after));
    lemma_scan_passes_over(lines(before), strip_cr(line), lines(after));
}


// ---------------------------------------------------------------------------
// The note as JSON, for a program reading it
// ---------------------------------------------------------------------------

/// A hexadecimal digit, lower case.
pub open spec fn hex_digit(d: nat) -> char {
    if d < 10 {
        digit_char(d)
    } else {
        ((d + 87) as u32) as char
    }
}

/// One character inside a JSON string: a quote and a backslash are escaped
/// with a backslash, a control character below U+0020 is written `\u00XX`,
/// and anything else stands for itself.
pub open spec fn json_char(c: char) -> Seq<char> {
    if c == '"' {
        "\\\""@
    } else if c == '\\' {
        "\\\\"@
    } else if (c as u32) < 0x20 {
        "\\u00"@ + seq![hex_digit((c as u32) as nat / 16), hex_digit((c as u32) as nat % 16)]
    } else {
        seq![c]
    }
}

/// The inside of a JSON string, each character escaped as [`json_char`] says.
pub open spec fn json_escaped(s: Seq<char>) -> Seq<char>
    decreases s.len(),
{
    if s.len() == 0 {
        seq![]
    } else {
        json_escaped(s.drop_last()) + json_char(s.last())
    }
}

/// A JSON string: quoted and escaped.
pub open spec fn json_string(s: Seq<char>) -> Seq<char> {
    "\""@ + json_escaped(s) + "\""@
}

/// One page as a JSON object: `{"name":..,"bytes":N,"mode":".."}`.
pub open spec fn page_json(e: (PageView, Mode)) -> Seq<char> {
    "{\"name\":"@ + json_string(e.0.name) + ",\"bytes\":"@ + decimal(e.0.bytes) + ",\"mode\":\""@
        + mode_word(e.1) + "\"}"@
}

/// The pages as JSON objects, separated by commas.
pub open spec fn pages_json(pages: Seq<(PageView, Mode)>) -> Seq<char>
    decreases pages.len(),
{
    if pages.len() == 0 {
        seq![]
    } else if pages.len() == 1 {
        page_json(pages[0])
    } else {
        pages_json(pages.drop_last()) + ","@ + page_json(pages.last())
    }
}

/// **The pages array is every page, in order, comma-separated**: no pages
/// make an empty array, one page makes its own object, and the array for
/// two runs of pages one after the other is the array for the first, a
/// comma, and the array for the second — so every page of a note appears
/// once, in its place, and none is dropped or repeated.
pub proof fn lemma_pages_json_joins_every_page(
    a: Seq<(PageView, Mode)>,
    b: Seq<(PageView, Mode)>,
    e: (PageView, Mode),
)
    ensures
        pages_json(Seq::<(PageView, Mode)>::empty()) == Seq::<char>::empty(),
        pages_json(seq![e]) == page_json(e),
        a.len() > 0 && b.len() > 0 ==> pages_json(a + b) == pages_json(a) + ","@ + pages_json(b),
    decreases b.len(),
{
    assert(seq![e][0] == e);
    if a.len() > 0 && b.len() > 0 {
        let ab = a + b;
        assert(ab.last() == b.last());
        if b.len() == 1 {
            assert(ab.drop_last() =~= a);
            assert(b[0] == b.last());
        } else {
            let b2 = b.drop_last();
            assert(ab.drop_last() =~= a + b2);
            lemma_pages_json_joins_every_page(a, b2, e);
            assert(pages_json(ab) == pages_json(a + b2) + ","@ + page_json(b.last()));
            assert(pages_json(b) == pages_json(b2) + ","@ + page_json(b.last()));
            assert(pages_json(ab) =~= pages_json(a) + ","@ + pages_json(b));
        }
    }
}

/// The word a pulse is published under.
pub open spec fn pulse_word(p: Pulse) -> Seq<char> {
    match p {
        Pulse::Beating => "beating"@,
        Pulse::Abandoned => "abandoned"@,
        Pulse::Ahead => "ahead"@,
    }
}

/// A pulse in JSON: its word as a string, or `null` when there is none.
pub open spec fn pulse_json(p: Option<Pulse>) -> Seq<char> {
    match p {
        Some(p) => "\""@ + pulse_word(p) + "\""@,
        None => "null"@,
    }
}

/// A note and its pulse as one JSON object on one line, ending in a newline:
/// `{"version":..,"format":N,"pid":N,"understood":B,"pulse":..,"pages":[..]}`.
pub open spec fn note_json(n: NoteView, pulse: Option<Pulse>) -> Seq<char> {
    "{\"version\":"@ + json_string(n.version) + ",\"format\":"@ + decimal(n.format as nat)
        + ",\"pid\":"@ + decimal(n.pid as nat) + ",\"understood\":"@ + (if n.format == FORMAT {
        "true"@
    } else {
        "false"@
    }) + ",\"pulse\":"@ + pulse_json(pulse) + ",\"pages\":["@ + pages_json(n.pages) + "]}\n"@
}

/// A lower-case hexadecimal digit.
fn hex_of(d: u32) -> (c: char)
    requires
        d < 16,
    ensures
        c == hex_digit(d as nat),
{
    match d {
        0 => '0',
        1 => '1',
        2 => '2',
        3 => '3',
        4 => '4',
        5 => '5',
        6 => '6',
        7 => '7',
        8 => '8',
        9 => '9',
        10 => 'a',
        11 => 'b',
        12 => 'c',
        13 => 'd',
        14 => 'e',
        _ => 'f',
    }
}

/// Append a string to `out` as a JSON string.
fn push_json_string(out: &mut String, s: &str)
    ensures
        final(out)@ == old(out)@ + json_string(s@),
{
    let v = chars_of(s);
    let ghost start = out@;
    push_str(out, "\"");
    let mut i: usize = 0;
    while i < v.len()
        invariant
            i <= v.len(),
            out@ == start + "\""@ + json_escaped(v@.take(i as int)),
        decreases v.len() - i,
    {
        let c = v[i];
        let ghost before = out@;
        if c == '"' {
            push_str(out, "\\\"");
        } else if c == '\\' {
            push_str(out, "\\\\");
        } else if (c as u32) < 0x20 {
            push_str(out, "\\u00");
            let n = c as u32;
            push_char(out, hex_of(n / 16));
            push_char(out, hex_of(n % 16));
        } else {
            push_char(out, c);
        }
        proof {
            let t = v@.take(i + 1);
            assert(t.drop_last() =~= v@.take(i as int));
            assert(t.last() == c);
            assert(out@ =~= before + json_char(c));
        }
        i += 1;
    }
    assert(v@.take(v.len() as int) =~= v@);
    push_str(out, "\"");
}

/// Append one page to `out` as a JSON object.
fn push_page_json(out: &mut String, e: &(Page, Mode))
    ensures
        final(out)@ == old(out)@ + page_json((e.0@, e.1)),
{
    push_str(out, "{\"name\":");
    push_json_string(out, e.0.name.as_str());
    push_str(out, ",\"bytes\":");
    push_all(out, &decimal_of(e.0.bytes as u128));
    push_str(out, ",\"mode\":\"");
    push_str(out, e.1.word());
    push_str(out, "\"}");
}

impl Note {
    /// The note and its pulse as one line of JSON, for a program reading
    /// this rather than a person.
    pub fn to_json(&self, pulse: Option<Pulse>) -> (r: String)
        ensures
            r@ == note_json(self@, pulse),
    {
        let mut out = owned("{\"version\":");
        push_json_string(&mut out, self.version.as_str());
        push_str(&mut out, ",\"format\":");
        push_all(&mut out, &decimal_of(self.format as u128));
        push_str(&mut out, ",\"pid\":");
        push_all(&mut out, &decimal_of(self.pid as u128));
        push_str(&mut out, ",\"understood\":");
        if self.is_understood() {
            push_str(&mut out, "true");
        } else {
            push_str(&mut out, "false");
        }
        push_str(&mut out, ",\"pulse\":");
        match pulse {
            Some(p) => {
                push_str(&mut out, "\"");
                push_str(&mut out, p.word());
                push_str(&mut out, "\"");
            },
            None => push_str(&mut out, "null"),
        }
        push_str(&mut out, ",\"pages\":[");
        let ghost head = out@;
        let ghost all = self@.pages;
        let mut i: usize = 0;
        while i < self.pages.len()
            invariant
                i <= self.pages.len(),
                all == entries_view(self.pages@),
                out@ == head + pages_json(all.take(i as int)),
            decreases self.pages.len() - i,
        {
            let ghost before = out@;
            if i > 0 {
                push_str(&mut out, ",");
            }
            push_page_json(&mut out, &self.pages[i]);
            proof {
                let t = all.take(i + 1);
                assert(t.drop_last() =~= all.take(i as int));
                assert(t.last() == all[i as int]);
                assert(all[i as int] == (self.pages@[i as int].0@, self.pages@[i as int].1));
                if i == 0 {
                    assert(all.take(0) =~= Seq::<(PageView, Mode)>::empty());
                    assert(t[0] == t.last());
                    assert(out@ =~= head + pages_json(t));
                } else {
                    assert(out@ =~= head + pages_json(t));
                }
            }
            i += 1;
        }
        assert(all.take(i as int) =~= all);
        push_str(&mut out, "]}\n");
        proof {
            assert(out@ =~= note_json(self@, pulse));
        }
        out
    }
}

} // verus!
