//! The command line, parsed by hand.
//!
//! There are a handful of flags and they do not need a crate: this program
//! is cross-compiled, shipped inside somebody's game folder and started under
//! Wine while they are waiting to drive. All of it is a function from
//! arguments to a decision, so it is stated here exactly and tested without
//! running anything.

use crate::page::{
    Page, PageView, bad_page_message, distinct_names, is_valid_page, lemma_page_text_round_trip,
    page_text, pages_view, parse_page, preset, preset_beat, preset_heartbeat, preset_pages,
};
use crate::pacing::{QUICK_MILLIS, SLOWEST_MILLIS};
use crate::recipe::{Recipe, has_page, names_page};
use crate::store::SHM_DIR;
use crate::text::{
    decimal_of, push_all,
    chars_of, lemma_first_at, owned, parse_uint, parse_uint_of, push_str, quoted,
    same_text, split_first, split_once, str_debug, string_of, trim, trimmed,
};
use crate::time::{Duration, NANOS_PER_MILLI, NANOS_PER_SEC};
use crate::announce::text_view;
use crate::watchdog::BLANK_AFTER_SECS;
use vstd::prelude::*;

verus! {

/// What the program was asked to do.
#[derive(Debug, Clone, Copy, PartialEq, Eq, Structural)]
pub enum Action {
    /// Publish the pages and hold them.
    Run,
    /// Print the help and stop.
    Help,
    /// Print the version and stop.
    Version,
    /// Report what is already published here, and stop.
    Verify,
    /// Measure named sections that already exist inside this prefix, and stop.
    Probe,
    /// Show, live, which published blocks are actually changing.
    Watch,
    /// Find this Steam game's prefix, and start the Windows build of this
    /// program inside it. Linux side.
    Launch {
        /// Steam's number for the game.
        app_id: u32,
    },
}

/// Everything the program needs to know, once the arguments are read.
#[derive(Debug, Clone, PartialEq, Eq)]
pub struct Options {
    /// What to do.
    pub action: Action,
    /// Which pages to publish.
    pub pages: Vec<Page>,
    /// Where to publish them.
    pub dir: String,
    /// The pace while something is changing.
    pub quick: Duration,
    /// The slowest a quiet page is looked at.
    pub slowest: Duration,
    /// Say nothing but errors.
    pub quiet: bool,
    /// Report as JSON rather than as a table, for a program reading this.
    pub json: bool,
    /// The block that changes while the writer is alive. When it goes quiet,
    /// every block is zeroed.
    pub heartbeat: Option<String>,
    /// How long that block may be quiet first.
    pub blank_after: Duration,
    /// Which `wineshm.exe` to start, when launching. `None` means the one
    /// sitting beside this program.
    pub exe: Option<String>,
    /// Section names to measure, for [`Action::Probe`].
    pub probes: Vec<String>,
    /// Files describing pages to publish. Read by the caller, because parsing
    /// arguments reads nothing.
    pub recipes: Vec<String>,
}

/// What the options say, as values.
pub struct OptionsView {
    pub action: Action,
    pub pages: Seq<PageView>,
    pub dir: Seq<char>,
    pub quick: nat,
    pub slowest: nat,
    pub quiet: bool,
    pub json: bool,
    pub heartbeat: Option<Seq<char>>,
    pub blank_after: nat,
    pub exe: Option<Seq<char>>,
    pub probes: Seq<Seq<char>>,
    pub recipes: Seq<Seq<char>>,
}

impl View for Options {
    type V = OptionsView;

    open spec fn view(&self) -> OptionsView {
        OptionsView {
            action: self.action,
            pages: pages_view(self.pages@),
            dir: self.dir@,
            quick: self.quick@,
            slowest: self.slowest@,
            quiet: self.quiet,
            json: self.json,
            heartbeat: text_view(self.heartbeat),
            blank_after: self.blank_after@,
            exe: text_view(self.exe),
            probes: self.probes.deep_view(),
            recipes: self.recipes.deep_view(),
        }
    }
}

/// The options before any argument is read: run, nothing to publish, into
/// `/dev/shm`, at the default paces and patience.
pub open spec fn default_options() -> OptionsView {
    OptionsView {
        action: Action::Run,
        pages: seq![],
        dir: SHM_DIR@,
        quick: (QUICK_MILLIS * NANOS_PER_MILLI) as nat,
        slowest: (SLOWEST_MILLIS * NANOS_PER_MILLI) as nat,
        quiet: false,
        json: false,
        heartbeat: None,
        blank_after: (BLANK_AFTER_SECS * NANOS_PER_SEC) as nat,
        exe: None,
        probes: seq![],
        recipes: seq![],
    }
}

impl Default for Options {
    fn default() -> (o: Options)
        ensures
            o@ == default_options(),
    {
        let o = Options {
            action: Action::Run,
            pages: Vec::new(),
            dir: owned(SHM_DIR),
            quick: crate::pacing::quick(),
            slowest: crate::pacing::slowest(),
            quiet: false,
            json: false,
            heartbeat: None,
            blank_after: crate::watchdog::blank_after(),
            exe: None,
            probes: Vec::new(),
            recipes: Vec::new(),
        };
        assert(o@.pages =~= seq![]);
        assert(o@.probes =~= seq![]);
        assert(o@.recipes =~= seq![]);
        o
    }
}

/// The help, which is also the documentation of the flags.
pub const HELP: &'static str = "wineshm 0.1.0 — expose a Windows program's named shared memory to Linux.

Run this inside the Wine or Proton prefix the Windows program runs in. Every
page it publishes appears as a file under /dev/shm, which any Linux program
can open and read.

USAGE:
    On Linux — finds the prefix and starts the Windows build inside it:
    wineshm --appid 244210 --preset assetto-corsa

    Inside the prefix, if you are starting it yourself:
    wineshm.exe --preset assetto-corsa
    wineshm.exe --page acpmf_physics:2048 --page acpmf_graphics:2048

OPTIONS:
    --appid N            Steam's number for the game. Finds its Proton prefix
                         and starts wineshm.exe in it. Nothing to install.
    --exe PATH           Which wineshm.exe to start [default: beside this one]
    --preset NAME        A ready-made page list. One of: assetto-corsa, rfactor2
    --page NAME:SIZE     One page. Repeatable. Size may carry K or M.
    --pages-from FILE    A file of NAME:SIZE lines describing a program, with
                         '#' comments and an optional 'heartbeat NAME'.
                         Repeatable. This is how to add a game without a fork
    --dir PATH           Where to publish [default: /dev/shm]
    --heartbeat NAME     The block that changes while the writer is alive. When
                         it goes quiet every block is zeroed, so a game that has
                         exited stops reading as a live session. A preset sets
                         this itself; give it only to override
    --blank-after MS     How long it may be quiet first [default: 5000]
    --quick MS           Pace while a mirrored page is changing [default: 4]
    --slowest MS         Slowest pace for a quiet page [default: 64]
    --probe NAME         Measure a section the game has already made, and say
                         how big it is. Repeatable. Run this while the game is
                         running, to find out what --page size to ask for
    --watch              Show which published blocks are actually changing, once
                         a second, until stopped. Runs on Linux, outside the
                         prefix, while the game is running
    --verify             Report what is published here already, then stop
    --json               With --verify, report as JSON instead of a table
    --quiet              Say nothing but errors
    -h, --help           This
    -V, --version        Print the version

The program holds the pages until it is asked to stop. Type 'exit' or close it.
";

// ---------------------------------------------------------------------------
// What the arguments mean
// ---------------------------------------------------------------------------

/// The flag part of an argument: everything before the first `=`, or all of
/// it. `--flag=value` and `--flag value` both work.
pub open spec fn flag_of(arg: Seq<char>) -> Seq<char> {
    match split_once(arg, '=') {
        Some((f, _)) => f,
        None => arg,
    }
}

/// The value written into an argument after its first `=`, if any.
pub open spec fn inline_of(arg: Seq<char>) -> Option<Seq<char>> {
    match split_once(arg, '=') {
        Some((_, v)) => Some(v),
        None => None,
    }
}

/// The value a flag at `i` takes — the one written after its `=`, or else
/// the next argument — and where reading goes on from.
pub open spec fn value_at(args: Seq<Seq<char>>, i: int) -> Option<(Seq<char>, int)> {
    match inline_of(args[i]) {
        Some(v) => Some((v, i + 1)),
        None => if i + 1 < args.len() {
            Some((args[i + 1], i + 2))
        } else {
            None
        },
    }
}

/// The flags that take a value.
pub open spec fn takes_value(flag: Seq<char>) -> bool {
    flag == "--probe"@ || flag == "--exe"@ || flag == "--appid"@ || flag == "--heartbeat"@ || flag
        == "--blank-after"@ || flag == "--dir"@ || flag == "--pages-from"@ || flag == "--quick"@
        || flag == "--slowest"@ || flag == "--page"@ || flag == "--preset"@
}

/// A number of milliseconds, as a span: digits, with white space around
/// them forgiven, no more than `u64` holds.
pub open spec fn millis_of(text: Seq<char>) -> Option<nat> {
    match parse_uint(trim(text), u64::MAX as nat) {
        Some(n) => Some(n * (NANOS_PER_MILLI as nat)),
        None => None,
    }
}

/// Every preset name, joined as the refusal lists them.
pub open spec fn preset_names() -> Seq<char> {
    "assetto-corsa"@ + ", "@ + "rfactor2"@
}

/// The options with another action.
pub open spec fn with_action(o: OptionsView, a: Action) -> OptionsView {
    OptionsView { action: a, ..o }
}

/// What a flag that takes a value does with it, to the options and to the
/// preset named so far; or why it refuses.
pub open spec fn apply_value(
    flag: Seq<char>,
    text: Seq<char>,
    o: OptionsView,
    named: Option<Seq<char>>,
) -> Result<(OptionsView, Option<Seq<char>>), Seq<char>> {
    if flag == "--probe"@ {
        Ok((OptionsView { probes: o.probes.push(text), action: Action::Probe, ..o }, named))
    } else if flag == "--exe"@ {
        Ok((OptionsView { exe: Some(text), ..o }, named))
    } else if flag == "--appid"@ {
        match parse_uint(trim(text), u32::MAX as nat) {
            Some(n) => Ok((with_action(o, Action::Launch { app_id: n as u32 }), named)),
            None => Err("--appid wants Steam's number for the game, not "@ + str_debug(text)),
        }
    } else if flag == "--heartbeat"@ {
        Ok((OptionsView { heartbeat: Some(text), ..o }, named))
    } else if flag == "--blank-after"@ || flag == "--quick"@ || flag == "--slowest"@ {
        match millis_of(text) {
            Some(d) => if flag == "--blank-after"@ {
                Ok((OptionsView { blank_after: d, ..o }, named))
            } else if flag == "--quick"@ {
                Ok((OptionsView { quick: d, ..o }, named))
            } else {
                Ok((OptionsView { slowest: d, ..o }, named))
            },
            None => Err(flag + " wants a number of milliseconds, not "@ + str_debug(text)),
        }
    } else if flag == "--dir"@ {
        Ok((OptionsView { dir: text, ..o }, named))
    } else if flag == "--pages-from"@ {
        Ok((OptionsView { recipes: o.recipes.push(text), ..o }, named))
    } else if flag == "--page"@ {
        match parse_page(text) {
            Ok(p) => Ok((OptionsView { pages: o.pages.push(p), ..o }, named)),
            Err(why) => Err("--page "@ + text + ": "@ + bad_page_message(why)),
        }
    } else {
        match preset_pages(text) {
            Some(ps) => Ok((OptionsView { pages: o.pages + ps, ..o }, Some(text))),
            None => Err("no preset called "@ + str_debug(text) + " — there is "@ + preset_names()),
        }
    }
}

/// Where a page is named a second time: the first page whose name an
/// earlier page already has, looking from `at` on.
pub open spec fn first_repeat_from(ps: Seq<PageView>, at: int) -> Option<Seq<char>>
    decreases ps.len() - at,
{
    if at < 0 || at >= ps.len() {
        None
    } else if exists|e: int| 0 <= e < at && #[trigger] ps[e].name == ps[at].name {
        Some(ps[at].name)
    } else {
        first_repeat_from(ps, at + 1)
    }
}

/// Whether an action publishes pages: running does, and launching passes
/// them through to the copy it starts.
pub open spec fn needs_pages(a: Action) -> bool {
    a is Run || a is Launch
}

/// Everything that has to be true before the pages can be published, and
/// the refusal when something is not: no page twice, a heartbeat that is one
/// of the pages, and something to publish when publishing.
pub open spec fn check_options(o: OptionsView) -> Option<Seq<char>> {
    match first_repeat_from(o.pages, 0) {
        Some(twice) => Some(twice + " was asked for more than once"@),
        None => match o.heartbeat {
            Some(h) => if !names_page(o.pages, h) {
                Some("--heartbeat "@ + h + " is not one of the pages being published"@)
            } else if needs_pages(o.action) && o.pages.len() == 0 {
                Some("nothing to publish — give --preset, --pages-from or at least one --page"@)
            } else {
                None
            },
            None => if needs_pages(o.action) && o.pages.len() == 0 {
                Some("nothing to publish — give --preset, --pages-from or at least one --page"@)
            } else {
                None
            },
        },
    }
}

/// A preset's own heartbeat, taken when nothing named one.
pub open spec fn with_preset_beat(o: OptionsView, named: Option<Seq<char>>) -> OptionsView {
    if o.heartbeat is None {
        match named {
            Some(name) => match preset_beat(name) {
                Some(b) => OptionsView { heartbeat: Some(b), ..o },
                None => o,
            },
            None => o,
        }
    } else {
        o
    }
}

/// What is done once every argument is read: a preset's heartbeat when none
/// was named, and the check — unless a `--pages-from` file is still to be
/// read, in which case the caller checks once it is in.
pub open spec fn finish(o: OptionsView, named: Option<Seq<char>>) -> Result<OptionsView, Seq<char>> {
    let o2 = with_preset_beat(o, named);
    if o2.recipes.len() == 0 {
        match check_options(o2) {
            Some(e) => Err(e),
            None => Ok(o2),
        }
    } else {
        Ok(o2)
    }
}

/// Reading the arguments from `i` on, with the options so far and the
/// preset named so far. Help and version stop at once and win over
/// everything after them; an unknown flag, a missing value or a bad value
/// is refused by name.
pub open spec fn parse_from(
    args: Seq<Seq<char>>,
    i: int,
    o: OptionsView,
    named: Option<Seq<char>>,
) -> Result<OptionsView, Seq<char>>
    decreases args.len() - i,
{
    if i < 0 || i >= args.len() {
        finish(o, named)
    } else {
        let flag = flag_of(args[i]);
        if flag == "-h"@ || flag == "--help"@ {
            Ok(with_action(o, Action::Help))
        } else if flag == "-V"@ || flag == "--version"@ {
            Ok(with_action(o, Action::Version))
        } else if flag == "--verify"@ {
            parse_from(args, i + 1, with_action(o, Action::Verify), named)
        } else if flag == "--watch"@ {
            parse_from(args, i + 1, with_action(o, Action::Watch), named)
        } else if flag == "--quiet"@ {
            parse_from(args, i + 1, OptionsView { quiet: true, ..o }, named)
        } else if flag == "--json"@ {
            parse_from(args, i + 1, OptionsView { json: true, ..o }, named)
        } else if takes_value(flag) {
            match value_at(args, i) {
                None => Err(flag + " needs a value"@),
                Some((text, j)) => match apply_value(flag, text, o, named) {
                    Err(e) => Err(e),
                    Ok((o2, named2)) => if i < j <= args.len() {
                        parse_from(args, j, o2, named2)
                    } else {
                        finish(o2, named2)
                    },
                },
            }
        } else {
            Err(flag + " is not a flag this knows; try --help"@)
        }
    }
}

/// What a whole command line means.
pub open spec fn parse_args(args: Seq<Seq<char>>) -> Result<OptionsView, Seq<char>> {
    parse_from(args, 0, default_options(), None)
}

// ---------------------------------------------------------------------------
// Reading them
// ---------------------------------------------------------------------------

/// A number of milliseconds, as a span; refused by the flag's name and the
/// text as typed when it is not one.
pub fn millis(text: &str, flag: &str) -> (r: Result<Duration, String>)
    ensures
        match r {
            Ok(d) => millis_of(text@) == Some(d@),
            Err(e) => millis_of(text@) is None && e@ == flag@ + " wants a number of milliseconds, not "@
                + str_debug(text@),
        },
{
    let t = trimmed(&chars_of(text));
    match parse_uint_of(&t, 0xFFFF_FFFF_FFFF_FFFFu128) {
        Some(n) => Ok(Duration::from_millis(n as u64)),
        None => {
            let mut e = owned(flag);
            push_str(&mut e, " wants a number of milliseconds, not ");
            let q = quoted(text);
            push_str(&mut e, q.as_str());
            Err(e)
        },
    }
}

/// The first page whose name an earlier page already has: a page asked for
/// twice would be created once and reported twice.
pub fn first_repeat(pages: &Vec<Page>) -> (r: Option<&str>)
    ensures
        match r {
            Some(name) => first_repeat_from(pages_view(pages@), 0) == Some(name@),
            None => first_repeat_from(pages_view(pages@), 0) is None,
        },
{
    let ghost ps = pages_view(pages@);
    let n = pages.len();
    for at in 0..n
        invariant
            n == pages.len(),
            ps == pages_view(pages@),
            first_repeat_from(ps, 0) == first_repeat_from(ps, at as int),
    {
        let mut seen = false;
        for e in 0..at
            invariant
                n == pages.len(),
                at < n,
                ps == pages_view(pages@),
                seen == exists|k: int| 0 <= k < e && #[trigger] ps[k].name == ps[at as int].name,
        {
            if same_text(pages[e].name.as_str(), pages[at].name.as_str()) {
                assert(ps[e as int].name == ps[at as int].name);
                seen = true;
            }
        }
        if seen {
            return Some(pages[at].name.as_str());
        }
    }
    None
}

/// Everything that has to be true before the pages can be published.
///
/// Apart from [`parse`] because it has to run twice: once on the arguments,
/// and again after any `--pages-from` file has been read into them.
pub fn check(options: &Options) -> (r: Result<(), String>)
    ensures
        match r {
            Ok(()) => check_options(options@) is None,
            Err(e) => check_options(options@) == Some(e@),
        },
{
    match first_repeat(&options.pages) {
        Some(twice) => {
            let mut e = owned(twice);
            push_str(&mut e, " was asked for more than once");
            return Err(e);
        },
        None => {},
    }
    match &options.heartbeat {
        Some(name) => {
            if !has_page(&options.pages, name) {
                let mut e = owned("--heartbeat ");
                push_str(&mut e, name.as_str());
                push_str(&mut e, " is not one of the pages being published");
                return Err(e);
            }
        },
        None => {},
    }
    let needs = match options.action {
        Action::Run | Action::Launch { .. } => true,
        _ => false,
    };
    if needs && options.pages.len() == 0 {
        return Err(owned("nothing to publish — give --preset, --pages-from or at least one --page"));
    }
    Ok(())
}

/// Fold a file's description of a program into what the arguments asked
/// for: its pages after theirs, and its heartbeat only when nothing on the
/// command line named one — what somebody typed just now beats what a file
/// said earlier.
pub fn take_recipe(options: &mut Options, recipe: Recipe)
    ensures
        final(options)@ == (OptionsView {
            pages: old(options)@.pages + recipe@.pages,
            heartbeat: if old(options)@.heartbeat is None {
                recipe@.heartbeat
            } else {
                old(options)@.heartbeat
            },
            ..old(options)@
        }),
{
    let ghost start = options@;
    let Recipe { pages, heartbeat } = recipe;
    append_pages(&mut options.pages, pages);
    if options.heartbeat.is_none() {
        options.heartbeat = heartbeat;
    }
    assert(options@.probes == start.probes);
}

/// Whether a flag takes a value.
fn takes_value_exec(flag: &str) -> (b: bool)
    ensures
        b == takes_value(flag@),
{
    same_text(flag, "--probe") || same_text(flag, "--exe") || same_text(flag, "--appid")
        || same_text(flag, "--heartbeat") || same_text(flag, "--blank-after") || same_text(
        flag,
        "--dir",
    ) || same_text(flag, "--pages-from") || same_text(flag, "--quick") || same_text(
        flag,
        "--slowest",
    ) || same_text(flag, "--page") || same_text(flag, "--preset")
}

/// Do what a flag that takes a value does with it.
fn apply(flag: &str, text: &str, options: &mut Options, named: &mut Option<String>) -> (r: Result<
    (),
    String,
>)
    requires
        takes_value(flag@),
    ensures
        match r {
            Ok(()) => apply_value(flag@, text@, old(options)@, text_view(*old(named))) == Ok::<
                (OptionsView, Option<Seq<char>>),
                Seq<char>,
            >((final(options)@, text_view(*final(named)))),
            Err(e) => apply_value(flag@, text@, old(options)@, text_view(*old(named))) == Err::<
                (OptionsView, Option<Seq<char>>),
                Seq<char>,
            >(e@),
        },
{
    let ghost o = options@;
    if same_text(flag, "--probe") {
        options.probes.push(owned(text));
        options.action = Action::Probe;
        assert(options@.probes =~= o.probes.push(text@));
        assert(options@ == (OptionsView { probes: o.probes.push(text@), action: Action::Probe, ..o }));
        return Ok(());
    }
    if same_text(flag, "--exe") {
        options.exe = Some(owned(text));
        return Ok(());
    }
    if same_text(flag, "--appid") {
        let t = trimmed(&chars_of(text));
        match parse_uint_of(&t, 0xFFFF_FFFFu128) {
            Some(n) => {
                options.action = Action::Launch { app_id: n as u32 };
                return Ok(());
            },
            None => {
                let mut e = owned("--appid wants Steam's number for the game, not ");
                let q = quoted(text);
                push_str(&mut e, q.as_str());
                return Err(e);
            },
        }
    }
    if same_text(flag, "--heartbeat") {
        options.heartbeat = Some(owned(text));
        return Ok(());
    }
    if same_text(flag, "--blank-after") || same_text(flag, "--quick") || same_text(flag, "--slowest") {
        let d = match millis(text, flag) {
            Ok(d) => d,
            Err(e) => return Err(e),
        };
        if same_text(flag, "--blank-after") {
            options.blank_after = d;
        } else if same_text(flag, "--quick") {
            options.quick = d;
        } else {
            options.slowest = d;
        }
        return Ok(());
    }
    if same_text(flag, "--dir") {
        options.dir = owned(text);
        return Ok(());
    }
    if same_text(flag, "--pages-from") {
        options.recipes.push(owned(text));
        assert(options@.recipes =~= o.recipes.push(text@));
        return Ok(());
    }
    if same_text(flag, "--page") {
        match Page::parse(text) {
            Ok(p) => {
                options.pages.push(p);
                assert(options@.pages =~= o.pages.push(p@));
                return Ok(());
            },
            Err(why) => {
                let mut e = owned("--page ");
                push_str(&mut e, text);
                push_str(&mut e, ": ");
                let m = why.message();
                push_str(&mut e, m.as_str());
                return Err(e);
            },
        }
    }
    match preset(text) {
        Some(ps) => {
            let ghost added = pages_view(ps@);
            append_pages(&mut options.pages, ps);
            *named = Some(owned(text));
            assert(options@.pages == o.pages + added);
            assert(options@ == (OptionsView { pages: o.pages + added, ..o }));
            return Ok(());
        },
        None => {
            let mut e = owned("no preset called ");
            let q = quoted(text);
            push_str(&mut e, q.as_str());
            push_str(&mut e, " — there is ");
            push_str(&mut e, "assetto-corsa");
            push_str(&mut e, ", ");
            push_str(&mut e, "rfactor2");
            assert(e@ =~= "no preset called "@ + str_debug(text@) + " — there is "@ + preset_names());
            return Err(e);
        },
    }
}

/// What one step of reading did.
enum Next {
    /// Go on reading from here.
    Go(usize),
    /// Stop at once with this action: help or version.
    Stop(Action),
    /// Refuse, with this.
    Fail(String),
}

/// Read the argument at `i`, and the value after it if it takes one.
fn step(args: &Vec<String>, i: usize, options: &mut Options, named: &mut Option<String>) -> (r: Next)
    requires
        i < args.len(),
    ensures
        match r {
            Next::Go(j) => i < j <= args.len() && parse_from(
                args.deep_view(),
                i as int,
                old(options)@,
                text_view(*old(named)),
            ) == parse_from(args.deep_view(), j as int, final(options)@, text_view(*final(named))),
            Next::Stop(a) => parse_from(args.deep_view(), i as int, old(options)@, text_view(*old(named)))
                == Ok::<OptionsView, Seq<char>>(with_action(old(options)@, a)) && final(options)@
                == old(options)@,
            Next::Fail(e) => parse_from(args.deep_view(), i as int, old(options)@, text_view(*old(named)))
                == Err::<OptionsView, Seq<char>>(e@),
        },
{
    let ghost a = args.deep_view();
    let ghost o = options@;
    let arg = args[i].as_str();
    assert(arg@ == a[i as int]);
    let chars = chars_of(arg);
    let (flag, inline) = match split_first(&chars, '=') {
        Some((f, v)) => (string_of(&f), Some(string_of(&v))),
        None => (owned(arg), None),
    };
    assert(flag@ == flag_of(a[i as int]));
    assert(text_view(inline) == inline_of(a[i as int]));
    let f = flag.as_str();
    if same_text(f, "-h") || same_text(f, "--help") {
        return Next::Stop(Action::Help);
    }
    if same_text(f, "-V") || same_text(f, "--version") {
        return Next::Stop(Action::Version);
    }
    if same_text(f, "--verify") {
        options.action = Action::Verify;
        return Next::Go(i + 1);
    }
    if same_text(f, "--watch") {
        options.action = Action::Watch;
        return Next::Go(i + 1);
    }
    if same_text(f, "--quiet") {
        options.quiet = true;
        return Next::Go(i + 1);
    }
    if same_text(f, "--json") {
        options.json = true;
        return Next::Go(i + 1);
    }
    if !takes_value_exec(f) {
        let mut e = owned(f);
        push_str(&mut e, " is not a flag this knows; try --help");
        return Next::Fail(e);
    }
    let (text, j) = match inline {
        Some(v) => (v, i + 1),
        None => {
            if i + 1 < args.len() {
                (args[i + 1].clone(), i + 2)
            } else {
                let mut e = owned(f);
                push_str(&mut e, " needs a value");
                return Next::Fail(e);
            }
        },
    };
    assert(value_at(a, i as int) == Some((text@, j as int)));
    match apply(f, text.as_str(), options, named) {
        Ok(()) => Next::Go(j),
        Err(e) => Next::Fail(e),
    }
}

/// Read the arguments, the program's name already gone.
///
/// `--flag=value` and `--flag value` both work. Help and version win over
/// everything. A preset brings its own heartbeat unless one was named. The
/// check runs now unless a `--pages-from` file is still to be read.
pub fn parse(args: Vec<String>) -> (r: Result<Options, String>)
    ensures
        match r {
            Ok(o) => parse_args(args.deep_view()) == Ok::<OptionsView, Seq<char>>(o@),
            Err(e) => parse_args(args.deep_view()) == Err::<OptionsView, Seq<char>>(e@),
        },
{
    let ghost a = args.deep_view();
    let mut options = Options::default();
    let mut named: Option<String> = None;
    let mut i: usize = 0;
    while i < args.len()
        invariant
            i <= args.len(),
            a == args.deep_view(),
            parse_from(a, i as int, options@, text_view(named)) == parse_args(a),
        decreases args.len() - i,
    {
        match step(&args, i, &mut options, &mut named) {
            Next::Go(j) => {
                i = j;
            },
            Next::Stop(action) => {
                options.action = action;
                return Ok(options);
            },
            Next::Fail(e) => {
                return Err(e);
            },
        }
    }
    let ghost before = options@;
    if options.heartbeat.is_none() {
        match &named {
            Some(name) => match preset_heartbeat(name.as_str()) {
                Some(beat) => {
                    options.heartbeat = Some(owned(beat));
                },
                None => {},
            },
            None => {},
        }
    }
    assert(options@ == with_preset_beat(before, text_view(named)));
    if options.recipes.len() == 0 {
        match check(&options) {
            Err(e) => return Err(e),
            Ok(()) => {},
        }
    }
    Ok(options)
}

/// Pages on the end of a list.
fn append_pages(list: &mut Vec<Page>, more: Vec<Page>)
    ensures
        pages_view(final(list)@) == pages_view(old(list)@) + pages_view(more@),
{
    let mut more = more;
    let mut rest: Vec<Page> = Vec::new();
    let ghost start = pages_view(list@);
    let ghost all = pages_view(more@);
    // Taken from the back so no page is copied; put back in order below.
    while more.len() > 0
        invariant
            all == pages_view(more@) + pages_view(rest@).reverse(),
        decreases more.len(),
    {
        let ghost before_more = more@;
        let ghost before_rest = rest@;
        let p = more.pop().unwrap();
        rest.push(p);
        assert(pages_view(before_more) =~= pages_view(more@).push(p@));
        assert(pages_view(rest@) =~= pages_view(before_rest).push(p@));
        assert(pages_view(rest@).reverse() =~= seq![p@] + pages_view(before_rest).reverse());
        assert(all =~= pages_view(more@) + pages_view(rest@).reverse());
    }
    assert(pages_view(more@) =~= Seq::<PageView>::empty());
    while rest.len() > 0
        invariant
            pages_view(list@) + pages_view(rest@).reverse() == start + all,
        decreases rest.len(),
    {
        let ghost before_list = list@;
        let ghost before_rest = rest@;
        let p = rest.pop().unwrap();
        list.push(p);
        assert(pages_view(before_rest) =~= pages_view(rest@).push(p@));
        assert(pages_view(list@) =~= pages_view(before_list).push(p@));
        assert(pages_view(before_rest).reverse() =~= seq![p@] + pages_view(rest@).reverse());
        assert(pages_view(list@) + pages_view(rest@).reverse() =~= pages_view(before_list)
            + pages_view(before_rest).reverse());
    }
    assert(pages_view(rest@).reverse() =~= Seq::<PageView>::empty());
    assert(pages_view(list@) =~= start + all);
}

// ---------------------------------------------------------------------------
// What holds of every command line
// ---------------------------------------------------------------------------

/// Reading never arrives at help or version on its own.
pub open spec fn is_stop(a: Action) -> bool {
    a is Help || a is Version
}

/// The check has run on whatever reading hands back, unless it stopped at
/// help or version or a file is still to be read.
proof fn lemma_parse_from_is_checked(
    args: Seq<Seq<char>>,
    i: int,
    o: OptionsView,
    named: Option<Seq<char>>,
)
    requires
        !is_stop(o.action),
    ensures
        parse_from(args, i, o, named) matches Ok(r) ==> (!is_stop(r.action) ==> (r.recipes.len()
            == 0 ==> check_options(r) is None)),
    decreases args.len() - i,
{
    if 0 <= i < args.len() {
        let flag = flag_of(args[i]);
        if flag == "-h"@ || flag == "--help"@ || flag == "-V"@ || flag == "--version"@ {
        } else if flag == "--verify"@ {
            lemma_parse_from_is_checked(args, i + 1, with_action(o, Action::Verify), named);
        } else if flag == "--watch"@ {
            lemma_parse_from_is_checked(args, i + 1, with_action(o, Action::Watch), named);
        } else if flag == "--quiet"@ {
            lemma_parse_from_is_checked(args, i + 1, OptionsView { quiet: true, ..o }, named);
        } else if flag == "--json"@ {
            lemma_parse_from_is_checked(args, i + 1, OptionsView { json: true, ..o }, named);
        } else if takes_value(flag) {
            match value_at(args, i) {
                None => {},
                Some((text, j)) => match apply_value(flag, text, o, named) {
                    Err(_) => {},
                    Ok((o2, named2)) => {
                        if i < j <= args.len() {
                            lemma_parse_from_is_checked(args, j, o2, named2);
                        }
                    },
                },
            }
        }
    }
}

/// **What the arguments are read into has been checked**: unless reading
/// stopped at help or version, or a `--pages-from` file is still to be read,
/// the options handed back name no page twice, have a heartbeat only if it
/// is one of the pages, and have something to publish when publishing.
pub proof fn lemma_accepted_options_are_checked(args: Seq<Seq<char>>)
    ensures
        parse_args(args) matches Ok(o) ==> (!is_stop(o.action) && o.recipes.len() == 0
            ==> check_options(o) is None),
{
    lemma_parse_from_is_checked(args, 0, default_options(), None);
}

/// **Help and version win over everything after them**: whatever follows,
/// reading stops there with the options as they stood.
pub proof fn lemma_help_and_version_win(
    args: Seq<Seq<char>>,
    i: int,
    o: OptionsView,
    named: Option<Seq<char>>,
)
    requires
        0 <= i < args.len(),
    ensures
        flag_of(args[i]) == "-h"@ || flag_of(args[i]) == "--help"@ ==> parse_from(args, i, o, named)
            == Ok::<OptionsView, Seq<char>>(with_action(o, Action::Help)),
        flag_of(args[i]) == "-V"@ || flag_of(args[i]) == "--version"@ ==> !(flag_of(args[i])
            == "-h"@ || flag_of(args[i]) == "--help"@) ==> parse_from(args, i, o, named) == Ok::<
            OptionsView,
            Seq<char>,
        >(with_action(o, Action::Version)),
{
}

/// **A heartbeat named on the command line beats a preset's**, in whichever
/// order the two were given; a preset's is taken only when none was named.
pub proof fn lemma_named_heartbeat_wins(o: OptionsView, named: Option<Seq<char>>)
    ensures
        o.heartbeat is Some ==> with_preset_beat(o, named) == o,
        o.heartbeat is None ==> with_preset_beat(o, named).heartbeat == match named {
            Some(name) => preset_beat(name),
            None => None,
        },
{
}

/// Reading arguments after a prefix is reading them on their own.
proof fn lemma_parse_shift(
    p: Seq<Seq<char>>,
    rest: Seq<Seq<char>>,
    k: int,
    o: OptionsView,
    named: Option<Seq<char>>,
)
    requires
        0 <= k <= rest.len(),
    ensures
        parse_from(p + rest, p.len() + k, o, named) == parse_from(rest, k, o, named),
    decreases rest.len() - k,
{
    let a = p + rest;
    let i = p.len() + k;
    if k < rest.len() {
        assert(a[i] == rest[k]);
        if k + 1 < rest.len() {
            assert(a[i + 1] == rest[k + 1]);
        }
        let flag = flag_of(rest[k]);
        if flag == "-h"@ || flag == "--help"@ || flag == "-V"@ || flag == "--version"@ {
        } else if flag == "--verify"@ {
            lemma_parse_shift(p, rest, k + 1, with_action(o, Action::Verify), named);
        } else if flag == "--watch"@ {
            lemma_parse_shift(p, rest, k + 1, with_action(o, Action::Watch), named);
        } else if flag == "--quiet"@ {
            lemma_parse_shift(p, rest, k + 1, OptionsView { quiet: true, ..o }, named);
        } else if flag == "--json"@ {
            lemma_parse_shift(p, rest, k + 1, OptionsView { json: true, ..o }, named);
        } else if takes_value(flag) {
            match value_at(rest, k) {
                None => {},
                Some((text, j)) => {
                    assert(value_at(a, i) == Some((text, j + p.len())));
                    match apply_value(flag, text, o, named) {
                        Err(_) => {},
                        Ok((o2, named2)) => {
                            lemma_parse_shift(p, rest, j, o2, named2);
                        },
                    }
                },
            }
        }
    } else {
        assert(a.len() == i);
    }
}

/// A flag that takes a value is none of the flags that take none.
proof fn lemma_value_flags_are_not_switches(flag: Seq<char>)
    requires
        takes_value(flag),
    ensures
        !(flag == "-h"@ || flag == "--help"@ || flag == "-V"@ || flag == "--version"@ || flag
            == "--verify"@ || flag == "--watch"@ || flag == "--quiet"@ || flag == "--json"@),
{
    reveal_strlit("-h");
    reveal_strlit("--help");
    reveal_strlit("-V");
    reveal_strlit("--version");
    reveal_strlit("--verify");
    reveal_strlit("--watch");
    reveal_strlit("--quiet");
    reveal_strlit("--json");
    reveal_strlit("--probe");
    reveal_strlit("--exe");
    reveal_strlit("--appid");
    reveal_strlit("--heartbeat");
    reveal_strlit("--blank-after");
    reveal_strlit("--dir");
    reveal_strlit("--pages-from");
    reveal_strlit("--quick");
    reveal_strlit("--slowest");
    reveal_strlit("--page");
    reveal_strlit("--preset");
    // Of the flags with a value, those as long as a flag without one differ
    // from it in their third or fourth character.
    assert(flag.len() == 2 ==> false);
    if flag.len() == 7 {
        assert(flag[2] == 'p' || flag[2] == 'a' || (flag[2] == 'q' && flag[5] == 'c'));
    } else if flag.len() == 6 {
        assert(flag[2] == 'p');
    } else if flag.len() == 9 {
        assert(flag[2] == 's');
    } else if flag.len() == 8 {
        assert(flag[3] == 'r');
    }
}

/// **`--flag=value` and `--flag value` mean the same**, for every flag that
/// takes a value, whatever value and whatever follows.
pub proof fn lemma_both_ways_of_writing_a_flag(
    flag: Seq<char>,
    value: Seq<char>,
    rest: Seq<Seq<char>>,
    o: OptionsView,
    named: Option<Seq<char>>,
)
    requires
        takes_value(flag),
        forall|j: int| 0 <= j < flag.len() ==> #[trigger] flag[j] != '=',
    ensures
        parse_from(seq![flag + seq!['='] + value] + rest, 0, o, named) == parse_from(
            seq![flag, value] + rest,
            0,
            o,
            named,
        ),
{
    lemma_value_flags_are_not_switches(flag);
    let joined = flag + seq!['='] + value;
    let a1 = seq![joined] + rest;
    let a2 = seq![flag, value] + rest;
    assert forall|j: int| 0 <= j < flag.len() implies #[trigger] joined[j] != '=' by {
        assert(joined[j] == flag[j]);
    }
    lemma_first_at(joined, '=', flag.len() as int);
    lemma_first_at(flag, '=', flag.len() as int);
    assert(joined.take(flag.len() as int) =~= flag);
    assert(joined.skip(flag.len() + 1int) =~= value);
    assert(a1[0] == joined);
    assert(a2[0] == flag);
    assert(a2[1] == value);
    assert(flag_of(a1[0]) == flag);
    assert(flag_of(a2[0]) == flag);
    assert(value_at(a1, 0) == Some((value, 1int)));
    assert(value_at(a2, 0) == Some((value, 2int)));
    match apply_value(flag, value, o, named) {
        Err(_) => {},
        Ok((o2, named2)) => {
            lemma_parse_shift(seq![joined], rest, 0, o2, named2);
            lemma_parse_shift(seq![flag, value], rest, 0, o2, named2);
            assert(seq![joined] + rest == a1);
            assert(seq![flag, value] + rest == a2);
        },
    }
}

/// The command line a copy of this program is started with to publish the
/// same pages in the same directory: `--page NAME:SIZE` for each page, then
/// `--dir DIR`.
pub open spec fn passed_on(pages: Seq<PageView>, dir: Seq<char>) -> Seq<Seq<char>> {
    Seq::new(
        2 * pages.len() + 2,
        |i: int|
            if i < 2 * pages.len() {
                if i % 2 == 0 {
                    "--page"@
                } else {
                    page_text(pages[i / 2])
                }
            } else if i == 2 * pages.len() {
                "--dir"@
            } else {
                dir
            },
    )
}

/// A list with no page named twice has no repeat from anywhere on.
proof fn lemma_distinct_has_no_repeat(ps: Seq<PageView>, at: int)
    requires
        distinct_names(ps),
        0 <= at,
    ensures
        first_repeat_from(ps, at) is None,
    decreases ps.len() - at,
{
    if at < ps.len() {
        assert(!exists|e: int| 0 <= e < at && #[trigger] ps[e].name == ps[at].name);
        lemma_distinct_has_no_repeat(ps, at + 1);
    }
}

/// A flag with no `=` in it is its own flag and carries no value.
proof fn lemma_plain_flag(flag: Seq<char>)
    requires
        forall|j: int| 0 <= j < flag.len() ==> #[trigger] flag[j] != '=',
    ensures
        flag_of(flag) == flag,
        inline_of(flag) is None,
{
    lemma_first_at(flag, '=', flag.len() as int);
}

/// Reading the pages handed on, from the `k`th of them.
proof fn lemma_passed_on_from(pages: Seq<PageView>, dir: Seq<char>, k: int)
    requires
        0 <= k <= pages.len(),
        pages.len() > 0,
        distinct_names(pages),
        forall|i: int| 0 <= i < pages.len() ==> is_valid_page(#[trigger] pages[i]),
    ensures
        parse_from(
            passed_on(pages, dir),
            2 * k,
            OptionsView { pages: pages.take(k), ..default_options() },
            None,
        ) == Ok::<OptionsView, Seq<char>>(
            OptionsView { pages, dir, ..default_options() },
        ),
    decreases pages.len() - k,
{
    let a = passed_on(pages, dir);
    let o = OptionsView { pages: pages.take(k), ..default_options() };
    reveal_strlit("--page");
    reveal_strlit("--dir");
    reveal_strlit("--probe");
    reveal_strlit("--exe");
    reveal_strlit("--appid");
    reveal_strlit("--heartbeat");
    reveal_strlit("--blank-after");
    reveal_strlit("--quick");
    reveal_strlit("--slowest");
    reveal_strlit("--pages-from");
    assert("--dir"@[2] != "--exe"@[2]);
    lemma_value_flags_are_not_switches("--page"@);
    lemma_value_flags_are_not_switches("--dir"@);
    lemma_plain_flag("--page"@);
    lemma_plain_flag("--dir"@);
    if k < pages.len() {
        assert(a[2 * k] == "--page"@);
        assert(a[2 * k + 1] == page_text(pages[k]));
        assert(value_at(a, 2 * k) == Some((page_text(pages[k]), 2 * k + 2)));
        lemma_page_text_round_trip(pages[k]);
        assert(o.pages.push(pages[k]) =~= pages.take(k + 1));
        assert(apply_value("--page"@, page_text(pages[k]), o, None) == Ok::<
            (OptionsView, Option<Seq<char>>),
            Seq<char>,
        >((OptionsView { pages: pages.take(k + 1), ..default_options() }, None)));
        lemma_passed_on_from(pages, dir, k + 1);
    } else {
        let n = pages.len() as int;
        assert(pages.take(k) =~= pages);
        assert(a[2 * n] == "--dir"@);
        assert(a[2 * n + 1] == dir);
        assert(value_at(a, 2 * n) == Some((dir, 2 * n + 2)));
        let o2 = OptionsView { pages, dir, ..default_options() };
        assert(apply_value("--dir"@, dir, o, None) == Ok::<
            (OptionsView, Option<Seq<char>>),
            Seq<char>,
        >((o2, None)));
        assert(parse_from(a, 2 * n + 2, o2, None) == finish(o2, None));
        lemma_distinct_has_no_repeat(pages, 0);
        assert(check_options(o2) is None);
    }
}

/// **A copy started with the pages handed on publishes exactly those
/// pages**: every valid page written as `--page NAME:SIZE`, no name twice,
/// and the directory as `--dir`, read back as a run with those pages in that
/// directory and everything else at its default.
pub proof fn lemma_pages_pass_on_as_flags(pages: Seq<PageView>, dir: Seq<char>)
    requires
        pages.len() > 0,
        distinct_names(pages),
        forall|i: int| 0 <= i < pages.len() ==> is_valid_page(#[trigger] pages[i]),
    ensures
        parse_args(passed_on(pages, dir)) == Ok::<OptionsView, Seq<char>>(
            OptionsView { pages, dir, ..default_options() },
        ),
{
    assert(pages.take(0) =~= Seq::<PageView>::empty());
    assert(OptionsView { pages: pages.take(0), ..default_options() } == default_options());
    lemma_passed_on_from(pages, dir, 0);
}

/// The arguments a copy of this program, started inside a prefix, is handed
/// so that it publishes these options' pages in this directory:
/// [`passed_on`], and `--quiet` after it when these options say nothing.
pub fn pass_on(options: &Options) -> (r: Vec<String>)
    ensures
        r.deep_view() == passed_on(options@.pages, options@.dir) + (if options.quiet {
            seq!["--quiet"@]
        } else {
            Seq::<Seq<char>>::empty()
        }),
{
    let ghost want = passed_on(options@.pages, options@.dir);
    let mut r: Vec<String> = Vec::new();
    let n = options.pages.len();
    for i in 0..n
        invariant
            n == options.pages.len(),
            want == passed_on(options@.pages, options@.dir),
            r.deep_view() =~= want.take(2 * i),
    {
        let page = &options.pages[i];
        let mut text = owned(page.name.as_str());
        push_str(&mut text, ":");
        push_all(&mut text, &decimal_of(page.bytes as u128));
        proof {
            reveal_strlit(":");
            assert(options@.pages[i as int] == page@);
            assert(text@ =~= page_text(options@.pages[i as int]));
        }
        let ghost before = r.deep_view();
        r.push(owned("--page"));
        r.push(text);
        proof {
            assert(want[2 * i] == "--page"@);
            assert(want[2 * i + 1] == page_text(options@.pages[i as int]));
            assert(r.deep_view() =~= before.push("--page"@).push(page_text(options@.pages[i as int])));
            assert(r.deep_view() =~= want.take(2 * i + 2));
        }
    }
    let ghost before = r.deep_view();
    r.push(owned("--dir"));
    r.push(owned(options.dir.as_str()));
    proof {
        let m = 2 * n;
        assert(want[m] == "--dir"@);
        assert(want[m + 1] == options@.dir);
        assert(want.len() == m + 2);
        assert(before =~= want.take(m));
        assert(r.deep_view() =~= before.push("--dir"@).push(options@.dir));
        assert(r.deep_view() =~= want);
    }
    if options.quiet {
        r.push(owned("--quiet"));
        assert(r.deep_view() =~= want + seq!["--quiet"@]);
    } else {
        assert(want + Seq::<Seq<char>>::empty() =~= want);
    }
    r
}

/// **Only publishing needs pages**: with no page given and no heartbeat
/// named, the options pass their check exactly when the action is neither
/// running nor launching — verifying, watching, probing, help and version
/// all go ahead on an empty page list — and running or launching is refused
/// for having nothing to publish.
pub proof fn lemma_only_publishing_needs_pages(o: OptionsView)
    requires
        o.pages.len() == 0,
        o.heartbeat is None,
    ensures
        (check_options(o) is None) == !(o.action is Run || o.action is Launch),
        (o.action is Run || o.action is Launch) ==> check_options(o) == Some(
            "nothing to publish — give --preset, --pages-from or at least one --page"@,
        ),
{
    assert(first_repeat_from(o.pages, 0) is None);
}

/// **Watching and verifying need no pages on the command line**: `--watch`
/// alone and `--verify` alone are each read as that action with everything
/// else at its default.
pub proof fn lemma_reading_actions_need_no_pages()
    ensures
        parse_args(seq!["--watch"@]) == Ok::<OptionsView, Seq<char>>(
            with_action(default_options(), Action::Watch),
        ),
        parse_args(seq!["--verify"@]) == Ok::<OptionsView, Seq<char>>(
            with_action(default_options(), Action::Verify),
        ),
{
    reveal_strlit("--watch");
    reveal_strlit("--verify");
    reveal_strlit("-h");
    reveal_strlit("--help");
    reveal_strlit("-V");
    reveal_strlit("--version");
    lemma_plain_flag("--watch"@);
    lemma_plain_flag("--verify"@);
    let a = seq!["--watch"@];
    assert(flag_of(a[0]) == "--watch"@);
    assert(parse_from(a, 1, with_action(default_options(), Action::Watch), None) == finish(
        with_action(default_options(), Action::Watch),
        None,
    ));
    lemma_only_publishing_needs_pages(with_action(default_options(), Action::Watch));
    let b = seq!["--verify"@];
    assert(flag_of(b[0]) == "--verify"@);
    assert("--verify"@ != "--help"@);
    assert("--verify"@ != "--version"@);
    assert(parse_from(b, 1, with_action(default_options(), Action::Verify), None) == finish(
        with_action(default_options(), Action::Verify),
        None,
    ));
    lemma_only_publishing_needs_pages(with_action(default_options(), Action::Verify));
}

} // verus!
