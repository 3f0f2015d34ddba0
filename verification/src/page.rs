//! Which blocks of memory to expose, and how big each one is.
//!
//! **The list is data, not code.** A page is a name and a size, and a caller
//! — a command line, a file, another crate — hands over as many as it likes.

use crate::text::{
    char_debug, is_digit, lemma_decimal, lemma_digits_are_plain, lemma_last_at,
    lemma_parse_decimal, lemma_trim_clean, same_text, chars_of, decimal, decimal_of, is_white, owned, parse_uint,
    parse_uint_of, push_all, push_str, quoted, quoted_char, rsplit_once, slice, split_last,
    str_debug, string_of, trim, trimmed,
};
use vstd::prelude::*;

verus! {

/// The largest page this will agree to map, 64 MiB.
///
/// Not a technical limit. A typo in a size is otherwise a request to allocate
/// whatever number was typed, and `/dev/shm` is RAM.
pub const MAX_BYTES: usize = 67108864;

/// The longest name, matching Win32's own limit for a kernel object name.
pub const MAX_NAME: usize = 255;

/// One named block of shared memory to expose.
#[derive(Debug, PartialEq, Eq)]
pub struct Page {
    /// The Win32 object name the Windows program uses.
    pub name: String,
    /// How many bytes to map.
    pub bytes: usize,
}

/// What a page is: a name and a size.
pub struct PageView {
    pub name: Seq<char>,
    pub bytes: nat,
}

impl View for Page {
    type V = PageView;

    open spec fn view(&self) -> PageView {
        PageView { name: self.name@, bytes: self.bytes as nat }
    }
}

impl Clone for Page {
    fn clone(&self) -> (r: Page)
        ensures
            r@ == self@,
    {
        Page { name: self.name.clone(), bytes: self.bytes }
    }
}

/// Why a `name:size` could not be read.
#[derive(Debug, Clone, PartialEq, Eq)]
pub enum BadPage {
    /// No `:` at all.
    NoSize,
    /// The name was empty.
    EmptyName,
    /// The name is longer than Win32 allows.
    NameTooLong(usize),
    /// A `\` or a NUL, neither of which can be in an object name.
    NameHasSeparator(char),
    /// The size was not a number, or carried a suffix that is not `K` or `M`.
    SizeNotANumber(String),
    /// A size of zero maps nothing.
    SizeIsZero,
    /// Bigger than [`MAX_BYTES`].
    SizeTooBig(usize),
}

/// A refusal, with its text as characters.
pub enum BadPageView {
    NoSize,
    EmptyName,
    NameTooLong(nat),
    NameHasSeparator(char),
    SizeNotANumber(Seq<char>),
    SizeIsZero,
    SizeTooBig(nat),
}

impl View for BadPage {
    type V = BadPageView;

    open spec fn view(&self) -> BadPageView {
        match self {
            BadPage::NoSize => BadPageView::NoSize,
            BadPage::EmptyName => BadPageView::EmptyName,
            BadPage::NameTooLong(n) => BadPageView::NameTooLong(*n as nat),
            BadPage::NameHasSeparator(c) => BadPageView::NameHasSeparator(*c),
            BadPage::SizeNotANumber(s) => BadPageView::SizeNotANumber(s@),
            BadPage::SizeIsZero => BadPageView::SizeIsZero,
            BadPage::SizeTooBig(n) => BadPageView::SizeTooBig(*n as nat),
        }
    }
}

/// Whether a character can never be in an object name.
pub open spec fn is_separator(c: char) -> bool {
    c == '\\' || c == '\0'
}

/// The first character in a name that cannot be in one, if any.
pub open spec fn first_separator(s: Seq<char>) -> Option<char>
    decreases s.len(),
{
    if s.len() == 0 {
        None
    } else if is_separator(s[0]) {
        Some(s[0])
    } else {
        first_separator(s.drop_first())
    }
}

/// A name, checked: non-empty, at most [`MAX_NAME`] characters, and free of
/// `\` and NUL.
pub open spec fn checked_name(name: Seq<char>) -> Result<Seq<char>, BadPageView> {
    if name.len() == 0 {
        Err(BadPageView::EmptyName)
    } else if name.len() > MAX_NAME {
        Err(BadPageView::NameTooLong(name.len()))
    } else {
        match first_separator(name) {
            Some(c) => Err(BadPageView::NameHasSeparator(c)),
            None => Ok(name),
        }
    }
}

/// The digits of a size and what they are multiplied by: a trailing `K` or
/// `k` is 1024, an `M` or `m` is 1024 × 1024.
pub open spec fn size_scale(t: Seq<char>) -> (Seq<char>, nat) {
    if t.len() > 0 && (t.last() == 'K' || t.last() == 'k') {
        (t.drop_last(), 1024)
    } else if t.len() > 0 && (t.last() == 'M' || t.last() == 'm') {
        (t.drop_last(), 1048576)
    } else {
        (t, 1)
    }
}

/// A size, read: trimmed, an optional suffix, a number that fits in `usize`,
/// then not zero and not past [`MAX_BYTES`].
pub open spec fn checked_size(text: Seq<char>) -> Result<nat, BadPageView> {
    let t = trim(text);
    let (digits, scale) = size_scale(t);
    match parse_uint(digits, usize::MAX as nat) {
        None => Err(BadPageView::SizeNotANumber(t)),
        Some(value) => {
            let bytes = value * scale;
            if bytes > usize::MAX {
                Err(BadPageView::SizeTooBig(usize::MAX as nat))
            } else if bytes == 0 {
                Err(BadPageView::SizeIsZero)
            } else if bytes > MAX_BYTES {
                Err(BadPageView::SizeTooBig(bytes))
            } else {
                Ok(bytes)
            }
        },
    }
}

/// `NAME:SIZE`, read: the name is everything before the last colon.
pub open spec fn parse_page(text: Seq<char>) -> Result<PageView, BadPageView> {
    match rsplit_once(text, ':') {
        None => Err(BadPageView::NoSize),
        Some((name, size)) => match checked_name(name) {
            Err(why) => Err(why),
            Ok(name) => match checked_size(size) {
                Err(why) => Err(why),
                Ok(bytes) => Ok(PageView { name, bytes }),
            },
        },
    }
}

/// Whether a page is one [`Page::parse`] could have produced.
pub open spec fn is_valid_page(p: PageView) -> bool {
    &&& checked_name(p.name) == Ok::<Seq<char>, BadPageView>(p.name)
    &&& 0 < p.bytes <= MAX_BYTES
}

/// How a page is written on a command line or in a file: `NAME:SIZE`.
pub open spec fn page_text(p: PageView) -> Seq<char> {
    p.name + seq![':'] + decimal(p.bytes)
}

/// The text a refusal gives, in words.
pub open spec fn bad_page_message(b: BadPageView) -> Seq<char> {
    match b {
        BadPageView::NoSize => "expected NAME:SIZE, with a colon between them"@,
        BadPageView::EmptyName => "the name is empty"@,
        BadPageView::NameTooLong(was) => "the name is "@ + decimal(was) + " characters; Win32 allows 255"@,
        BadPageView::NameHasSeparator(what) => "a shared memory name cannot contain "@
            + char_debug(what),
        BadPageView::SizeNotANumber(what) => str_debug(what) + " is not a size — try 2048, 16K or 1M"@,
        BadPageView::SizeIsZero => "a size of zero would map nothing"@,
        BadPageView::SizeTooBig(was) => decimal(was) + " bytes is past the 67108864 this will map"@,
    }
}

impl BadPage {
    /// What went wrong, in words — never just "invalid".
    pub fn message(&self) -> (r: String)
        ensures
            r@ == bad_page_message(self@),
    {
        match self {
            BadPage::NoSize => owned("expected NAME:SIZE, with a colon between them"),
            BadPage::EmptyName => owned("the name is empty"),
            BadPage::NameTooLong(was) => {
                let mut s = owned("the name is ");
                push_all(&mut s, &decimal_of(*was as u128));
                push_str(&mut s, " characters; Win32 allows 255");
                s
            },
            BadPage::NameHasSeparator(what) => {
                let mut s = owned("a shared memory name cannot contain ");
                let q = quoted_char(*what);
                push_str(&mut s, q.as_str());
                s
            },
            BadPage::SizeNotANumber(what) => {
                let mut s = quoted(what.as_str());
                push_str(&mut s, " is not a size — try 2048, 16K or 1M");
                s
            },
            BadPage::SizeIsZero => owned("a size of zero would map nothing"),
            BadPage::SizeTooBig(was) => {
                let mut s = string_of(&decimal_of(*was as u128));
                push_str(&mut s, " bytes is past the 67108864 this will map");
                s
            },
        }
    }
}

/// A name, checked.
fn check_name(name: &Vec<char>) -> (r: Result<String, BadPage>)
    ensures
        match r {
            Ok(n) => checked_name(name@) == Ok::<Seq<char>, BadPageView>(n@),
            Err(e) => checked_name(name@) == Err::<Seq<char>, BadPageView>(e@),
        },
{
    if name.len() == 0 {
        return Err(BadPage::EmptyName);
    }
    if name.len() > MAX_NAME {
        return Err(BadPage::NameTooLong(name.len()));
    }
    let mut i: usize = 0;
    assert(name@.skip(0) =~= name@);
    while i < name.len()
        invariant
            i <= name.len(),
            0 < name.len() <= MAX_NAME,
            first_separator(name@) == first_separator(name@.skip(i as int)),
        decreases name.len() - i,
    {
        let c = name[i];
        assert(name@.skip(i as int)[0] == c);
        if c == '\\' || c == '\0' {
            assert(first_separator(name@.skip(i as int)) == Some(c));
            return Err(BadPage::NameHasSeparator(c));
        }
        assert(name@.skip(i as int).drop_first() =~= name@.skip(i + 1));
        i += 1;
    }
    assert(name@.skip(i as int) =~= Seq::<char>::empty());
    Ok(string_of(name))
}

/// A size, checked.
fn parse_size(text: &Vec<char>) -> (r: Result<usize, BadPage>)
    ensures
        match r {
            Ok(n) => checked_size(text@) == Ok::<nat, BadPageView>(n as nat),
            Err(e) => checked_size(text@) == Err::<nat, BadPageView>(e@),
        },
{
    let t = trimmed(text);
    let n = t.len();
    let (digits, scale): (Vec<char>, u128) = if n > 0 && (t[n - 1] == 'K' || t[n - 1] == 'k') {
        (slice(&t, 0, n - 1), 1024)
    } else if n > 0 && (t[n - 1] == 'M' || t[n - 1] == 'm') {
        (slice(&t, 0, n - 1), 1048576)
    } else {
        (slice(&t, 0, n), 1)
    };
    assert(t@.take(n - 1) =~= t@.drop_last() || n == 0);
    assert(t@.subrange(0, n as int) =~= t@);
    assert(digits@ == size_scale(t@).0 && scale == size_scale(t@).1);
    let max = usize::MAX as u128;
    match parse_uint_of(&digits, max) {
        None => Err(BadPage::SizeNotANumber(string_of(&t))),
        Some(value) => {
            let bytes = value * scale;
            if bytes > max {
                Err(BadPage::SizeTooBig(usize::MAX))
            } else if bytes == 0 {
                Err(BadPage::SizeIsZero)
            } else if bytes > MAX_BYTES as u128 {
                Err(BadPage::SizeTooBig(bytes as usize))
            } else {
                Ok(bytes as usize)
            }
        },
    }
}

impl Page {
    /// Read one `NAME:SIZE`, where the size may carry a `K` or `M` suffix.
    ///
    /// The name is everything before the **last** colon, because Win32 object
    /// names may contain one, and splitting on the first colon would quietly
    /// mangle those.
    pub fn parse(text: &str) -> (r: Result<Page, BadPage>)
        ensures
            match r {
                Ok(p) => parse_page(text@) == Ok::<PageView, BadPageView>(p@),
                Err(e) => parse_page(text@) == Err::<PageView, BadPageView>(e@),
            },
    {
        let v = chars_of(text);
        Page::parse_chars(&v)
    }

    /// [`Page::parse`], on text already in characters.
    pub fn parse_chars(v: &Vec<char>) -> (r: Result<Page, BadPage>)
        ensures
            match r {
                Ok(p) => parse_page(v@) == Ok::<PageView, BadPageView>(p@),
                Err(e) => parse_page(v@) == Err::<PageView, BadPageView>(e@),
            },
    {
        match split_last(v, ':') {
            None => Err(BadPage::NoSize),
            Some((name, size)) => {
                let name = check_name(&name)?;
                let bytes = parse_size(&size)?;
                Ok(Page { name, bytes })
            },
        }
    }
}

/// No two pages in a list share a name.
pub open spec fn distinct_names(pages: Seq<PageView>) -> bool {
    forall|i: int, j: int| 0 <= i < j < pages.len() ==> (#[trigger] pages[i]).name != (
    #[trigger] pages[j]).name
}

/// **Whatever [`Page::parse`] accepts is a valid page**: a name Win32 can
/// take and a size between one byte and [`MAX_BYTES`].
pub proof fn lemma_parsed_page_is_valid(text: Seq<char>)
    ensures
        parse_page(text) matches Ok(p) ==> is_valid_page(p),
{
}

/// **A page written as `NAME:SIZE` reads back as the same page.** This is
/// what lets the command line, a recipe file and a launched copy of the
/// program pass pages to one another as text.
pub proof fn lemma_page_text_round_trip(p: PageView)
    requires
        is_valid_page(p),
    ensures
        parse_page(page_text(p)) == Ok::<PageView, BadPageView>(p),
{
    let d = decimal(p.bytes);
    let t = page_text(p);
    lemma_decimal(p.bytes);
    lemma_digits_are_plain(d);
    let at = p.name.len() as int;
    assert forall|j: int| at < j < t.len() implies #[trigger] t[j] != ':' by {
        assert(t[j] == d[j - at - 1]);
        assert(is_digit(d[j - at - 1]));
    }
    assert(t[at] == ':');
    lemma_last_at(t, ':', at);
    assert(t.take(at) =~= p.name);
    assert(t.skip(at + 1) =~= d);
    assert(!is_white(d[0]));
    assert(!is_white(d.last()));
    lemma_trim_clean(d);
    assert(is_digit(d.last()));
    assert(size_scale(d) == (d, 1nat));
    lemma_parse_decimal(p.bytes, usize::MAX as nat);
    assert(rsplit_once(t, ':') == Some((p.name, d)));
    assert(trim(d) == d);
    assert(parse_uint(d, usize::MAX as nat) == Some(p.bytes));
    assert(p.bytes * 1nat == p.bytes);
    assert(MAX_BYTES <= usize::MAX);
    assert(checked_size(d) == Ok::<nat, BadPageView>(p.bytes));
    assert(checked_name(p.name) == Ok::<Seq<char>, BadPageView>(p.name));
}

/// The pages of a ready-made list, by the list's name.
pub open spec fn preset_pages(name: Seq<char>) -> Option<Seq<PageView>> {
    if name == "assetto-corsa"@ || name == "ac"@ || name == "acc"@ {
        Some(
            seq![
                PageView { name: "acpmf_physics"@, bytes: 2048 },
                PageView { name: "acpmf_graphics"@, bytes: 2048 },
                PageView { name: "acpmf_static"@, bytes: 2048 },
                PageView { name: "acpmf_crewchief"@, bytes: 15660 },
            ],
        )
    } else if name == "rfactor2"@ || name == "rf2"@ {
        Some(seq![PageView { name: "$rFactor2SMMP_Telemetry$"@, bytes: 1048576 }])
    } else {
        None
    }
}

/// The block of a ready-made list that changes while its program is alive.
pub open spec fn preset_beat(name: Seq<char>) -> Option<Seq<char>> {
    if name == "assetto-corsa"@ || name == "ac"@ || name == "acc"@ {
        Some("acpmf_physics"@)
    } else if name == "rfactor2"@ || name == "rf2"@ {
        Some("$rFactor2SMMP_Telemetry$"@)
    } else {
        None
    }
}

/// The view of every page in a list.
pub open spec fn pages_view(pages: Seq<Page>) -> Seq<PageView> {
    pages.map_values(|p: Page| p@)
}

fn page_of(name: &str, bytes: usize) -> (p: Page)
    ensures
        p@ == (PageView { name: name@, bytes: bytes as nat }),
{
    Page { name: owned(name), bytes }
}

fn is_assetto_corsa(name: &str) -> (b: bool)
    ensures
        b == (name@ == "assetto-corsa"@ || name@ == "ac"@ || name@ == "acc"@),
{
    same_text(name, "assetto-corsa") || same_text(name, "ac") || same_text(name, "acc")
}

fn is_rfactor2(name: &str) -> (b: bool)
    ensures
        b == (name@ == "rfactor2"@ || name@ == "rf2"@),
{
    same_text(name, "rfactor2") || same_text(name, "rf2")
}

/// A ready-made list of pages, for a program somebody else has to support.
///
/// The sizes are facts about somebody else's program, written down once.
pub fn preset(name: &str) -> (r: Option<Vec<Page>>)
    ensures
        match r {
            Some(pages) => preset_pages(name@) == Some(pages_view(pages@)),
            None => preset_pages(name@) is None,
        },
{
    if is_assetto_corsa(name) {
        let pages = vec![
            page_of("acpmf_physics", 2048),
            page_of("acpmf_graphics", 2048),
            page_of("acpmf_static", 2048),
            page_of("acpmf_crewchief", 15660),
        ];
        assert(pages_view(pages@) =~= preset_pages(name@).unwrap());
        Some(pages)
    } else if is_rfactor2(name) {
        let pages = vec![page_of("$rFactor2SMMP_Telemetry$", 1048576)];
        assert(pages_view(pages@) =~= preset_pages(name@).unwrap());
        Some(pages)
    } else {
        None
    }
}

/// Which of a preset's blocks changes while the program is alive.
///
/// `None` for a program whose blocks nobody has checked; nothing is blanked
/// then, which is the safe behaviour.
pub fn preset_heartbeat(name: &str) -> (r: Option<&'static str>)
    ensures
        match r {
            Some(beat) => preset_beat(name@) == Some(beat@),
            None => preset_beat(name@) is None,
        },
{
    if is_assetto_corsa(name) {
        Some("acpmf_physics")
    } else if is_rfactor2(name) {
        Some("$rFactor2SMMP_Telemetry$")
    } else {
        None
    }
}

/// Every preset name, for the help text.
pub const PRESETS: [&'static str; 2] = ["assetto-corsa", "rfactor2"];

/// **A preset's heartbeat is one of its own blocks.** Naming a block the
/// preset does not publish would watch nothing, for ever.
pub proof fn lemma_preset_heartbeat_is_one_of_its_pages(name: Seq<char>)
    ensures
        preset_beat(name) is Some <==> preset_pages(name) is Some,
        preset_beat(name) matches Some(beat) ==> exists|i: int|
            0 <= i < preset_pages(name).unwrap().len() && (#[trigger] preset_pages(
                name,
            ).unwrap()[i]).name == beat,
{
    if preset_beat(name) is Some {
        assert(preset_pages(name).unwrap()[0].name == preset_beat(name).unwrap());
    }
}

/// A name with no separator in it has no first separator.
pub proof fn lemma_no_separator(s: Seq<char>)
    requires
        forall|i: int| 0 <= i < s.len() ==> !is_separator(#[trigger] s[i]),
    ensures
        first_separator(s) is None,
    decreases s.len(),
{
    if s.len() > 0 {
        let t = s.drop_first();
        assert forall|i: int| 0 <= i < t.len() implies !is_separator(#[trigger] t[i]) by {
            assert(t[i] == s[i + 1]);
        }
        lemma_no_separator(t);
    }
}

proof fn lemma_valid_physics()
    ensures
        is_valid_page(PageView { name: "acpmf_physics"@, bytes: 2048 }),
{
    reveal_strlit("acpmf_physics");
    lemma_no_separator("acpmf_physics"@);
}

proof fn lemma_valid_graphics()
    ensures
        is_valid_page(PageView { name: "acpmf_graphics"@, bytes: 2048 }),
{
    reveal_strlit("acpmf_graphics");
    lemma_no_separator("acpmf_graphics"@);
}

proof fn lemma_valid_static()
    ensures
        is_valid_page(PageView { name: "acpmf_static"@, bytes: 2048 }),
{
    reveal_strlit("acpmf_static");
    lemma_no_separator("acpmf_static"@);
}

proof fn lemma_valid_crewchief()
    ensures
        is_valid_page(PageView { name: "acpmf_crewchief"@, bytes: 15660 }),
{
    reveal_strlit("acpmf_crewchief");
    lemma_no_separator("acpmf_crewchief"@);
}

proof fn lemma_valid_telemetry()
    ensures
        is_valid_page(PageView { name: "$rFactor2SMMP_Telemetry$"@, bytes: 1048576 }),
{
    reveal_strlit("$rFactor2SMMP_Telemetry$");
    lemma_no_separator("$rFactor2SMMP_Telemetry$"@);
}

/// **Every page a preset lists is one [`Page::parse`] would accept**, so a
/// preset can be passed on as `--page` flags and read back unchanged.
pub proof fn lemma_preset_pages_are_valid(name: Seq<char>)
    ensures
        preset_pages(name) matches Some(pages) ==> pages.len() > 0 && forall|i: int|
            0 <= i < pages.len() ==> is_valid_page(#[trigger] pages[i]),
{
    lemma_valid_physics();
    lemma_valid_graphics();
    lemma_valid_static();
    lemma_valid_crewchief();
    lemma_valid_telemetry();
}

} // verus!
