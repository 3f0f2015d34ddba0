//! Finding the prefix, and something to run the bridge in it with.
//!
//! The bridge works everywhere; starting it is what breaks. The usual
//! instruction is `protontricks-launch`, and where that arrives as a Flatpak
//! it has a `/dev/shm` of its own, so the bridge publishes into a sandbox
//! nothing outside can see. Nothing needs installing: Steam already ships
//! the Proton the game uses, and writes which one into the prefix it built.
//!
//! Every path-shaped decision here is a function of strings — the home
//! directory, the text of a library file, the text Proton left in a prefix —
//! so the layouts of machines nobody here runs are tested by value. Reading
//! the files and asking whether a directory exists is the program's part.

use crate::store::{join, path_join};
use crate::text::{
    chars_of, decimal, decimal_of, find_first, first_at, lemma_first_at_some, lines, lines_of, owned,
    same_text, slice, string_of, trim, trimmed, is_white, lemma_lead, lemma_trail, lemma_first_at,
    trim_start,
};
use vstd::prelude::*;

verus! {

// ---------------------------------------------------------------------------
// Where Steam is
// ---------------------------------------------------------------------------

/// Every place Steam might be under one home directory, in the order they
/// should be believed: native (two names for it), the plain XDG place,
/// Flatpak, the older Flatpak layout, and Snap.
pub open spec fn steam_roots_of(home: Seq<char>) -> Seq<Seq<char>> {
    let flatpak = path_join(path_join(path_join(home, ".var"@), "app"@), "com.valvesoftware.Steam"@);
    let snap = path_join(path_join(path_join(home, "snap"@), "steam"@), "common"@);
    seq![
        path_join(path_join(home, ".steam"@), "steam"@),
        path_join(path_join(home, ".steam"@), "root"@),
        path_join(path_join(path_join(home, ".local"@), "share"@), "Steam"@),
        path_join(path_join(path_join(flatpak, ".local"@), "share"@), "Steam"@),
        path_join(path_join(flatpak, "data"@), "Steam"@),
        path_join(path_join(path_join(snap, ".local"@), "share"@), "Steam"@),
    ]
}

/// A list with each run of equal neighbours kept once, as `Vec::dedup`
/// leaves it.
pub open spec fn dedup(s: Seq<Seq<char>>) -> Seq<Seq<char>>
    decreases s.len(),
{
    if s.len() <= 1 {
        s
    } else {
        let d = dedup(s.drop_last());
        if s.last() == s[s.len() - 2] {
            d
        } else {
            d.push(s.last())
        }
    }
}

/// Keeping runs once keeps the last item last.
proof fn lemma_dedup_last(s: Seq<Seq<char>>)
    requires
        s.len() > 0,
    ensures
        dedup(s).len() > 0,
        dedup(s).last() == s.last(),
    decreases s.len(),
{
    if s.len() > 1 {
        lemma_dedup_last(s.drop_last());
    }
}

/// `Vec::dedup`, on paths.
fn dedup_paths(v: Vec<String>) -> (r: Vec<String>)
    ensures
        r.deep_view() == dedup(v.deep_view()),
{
    let mut r: Vec<String> = Vec::new();
    let n = v.len();
    let ghost s = v.deep_view();
    for i in 0..n
        invariant
            n == v.len(),
            s == v.deep_view(),
            r.deep_view() == dedup(s.take(i as int)),
            i > 0 ==> r.len() > 0 && r.deep_view().last() == s[i - 1],
    {
        let ghost before = r.deep_view();
        let ghost t = s.take(i + 1);
        assert(t.drop_last() =~= s.take(i as int));
        assert(s[i as int] == v[i as int]@);
        let keep = if r.len() == 0 {
            true
        } else {
            !same_text(r[r.len() - 1].as_str(), v[i].as_str())
        };
        if keep {
            r.push(v[i].clone());
            assert(r.deep_view() =~= before.push(s[i as int]));
        }
        proof {
            if i > 0 {
                assert(t.last() == s[i as int]);
                assert(t[t.len() - 2] == s[i - 1]);
            } else {
                assert(t =~= seq![s[0]]);
            }
        }
        assert(r.deep_view() == dedup(t));
    }
    assert(s.take(n as int) =~= s);
    r
}

/// Every place Steam might be under one home directory, each once.
///
/// The Steam Deck and Bazzite use the native layout; they are not special
/// cases, which is the point of listing them nowhere.
pub fn steam_roots_under(home: &str) -> (r: Vec<String>)
    ensures
        r.deep_view() == dedup(steam_roots_of(home@)),
{
    let steam = join(home, ".steam");
    let local = join(join(home, ".local").as_str(), "share");
    let flatpak = join(join(join(home, ".var").as_str(), "app").as_str(), "com.valvesoftware.Steam");
    let snap = join(join(join(home, "snap").as_str(), "steam").as_str(), "common");
    let mut roots: Vec<String> = Vec::new();
    roots.push(join(steam.as_str(), "steam"));
    roots.push(join(steam.as_str(), "root"));
    roots.push(join(local.as_str(), "Steam"));
    roots.push(join(join(join(flatpak.as_str(), ".local").as_str(), "share").as_str(), "Steam"));
    roots.push(join(join(flatpak.as_str(), "data").as_str(), "Steam"));
    roots.push(join(join(join(snap.as_str(), ".local").as_str(), "share").as_str(), "Steam"));
    assert(roots.deep_view() =~= steam_roots_of(home@));
    dedup_paths(roots)
}

// ---------------------------------------------------------------------------
// Library folders
// ---------------------------------------------------------------------------

/// The key a library folder's path is written under, with its quotes.
pub open spec fn path_key() -> Seq<char> {
    seq!['"', 'p', 'a', 't', 'h', '"']
}

/// The path one line of a `libraryfolders.vdf` names, if it names one: the
/// trimmed line starts with `"path"`, and the path is what stands between
/// the next two quotes.
pub open spec fn library_path(line: Seq<char>) -> Option<Seq<char>> {
    let t = trim(line);
    if t.len() >= 6 && t.take(6) == path_key() {
        let rest = t.skip(6);
        match first_at(rest, '"') {
            Some(i) => match first_at(rest.skip(i + 1), '"') {
                Some(j) => Some(rest.subrange(i + 1, i + 1 + j)),
                None => None,
            },
            None => None,
        }
    } else {
        None
    }
}

/// Whether every character of a run is white space.
pub open spec fn all_white(s: Seq<char>) -> bool {
    forall|i: int| 0 <= i < s.len() ==> is_white(#[trigger] s[i])
}

/// **A library line gives back its whole path**: a line that is `"path"`
/// and then the path in quotes, with any white space before, between and
/// after, names exactly the text between the quotes — spaces and every
/// other character in it kept — for any path with no quote in it.
pub proof fn lemma_library_path_is_between_the_quotes(
    before: Seq<char>,
    between: Seq<char>,
    after: Seq<char>,
    p: Seq<char>,
)
    requires
        all_white(before),
        all_white(between),
        all_white(after),
        forall|i: int| 0 <= i < p.len() ==> #[trigger] p[i] != '"',
    ensures
        library_path(
            before + seq!['"', 'p', 'a', 't', 'h', '"'] + between + seq!['"'] + p + seq!['"'] + after,
        ) == Some(p),
{
    let body = path_key() + between + seq!['"'] + p + seq!['"'];
    let line = before + seq!['"', 'p', 'a', 't', 'h', '"'] + between + seq!['"'] + p + seq!['"']
        + after;
    assert(line =~= before + body + after);
    assert(!is_white('"'));
    assert forall|j: int| 0 <= j < before.len() implies is_white(#[trigger] line[j]) by {
        assert(line[j] == before[j]);
    }
    assert(line[before.len() as int] == '"');
    lemma_lead(line, before.len() as int);
    let started = trim_start(line);
    assert(started =~= body + after);
    assert forall|j: int| started.len() - after.len() <= j < started.len() implies is_white(
        #[trigger] started[j],
    ) by {
        assert(started[j] == after[j - body.len()]);
    }
    assert(started[started.len() - after.len() - 1] == '"');
    lemma_trail(started, after.len() as int);
    let t = trim(line);
    assert(t =~= body);
    assert(t.take(6) =~= path_key());
    let rest = t.skip(6);
    assert(rest =~= between + seq!['"'] + p + seq!['"']);
    assert forall|j: int| 0 <= j < between.len() implies #[trigger] rest[j] != '"' by {
        assert(rest[j] == between[j]);
        assert(is_white(between[j]));
    }
    lemma_first_at(rest, '"', between.len() as int);
    let i = between.len() as int;
    let tail = rest.skip(i + 1);
    assert(tail =~= p + seq!['"']);
    assert forall|j: int| 0 <= j < p.len() implies #[trigger] tail[j] != '"' by {
        assert(tail[j] == p[j]);
    }
    lemma_first_at(tail, '"', p.len() as int);
    assert(rest.subrange(i + 1, i + 1 + p.len()) =~= p);
}

/// The paths a run of lines names, in order.
pub open spec fn paths_in(ls: Seq<Seq<char>>) -> Seq<Seq<char>>
    decreases ls.len(),
{
    if ls.len() == 0 {
        seq![]
    } else {
        let before = paths_in(ls.drop_last());
        match library_path(ls.last()) {
            Some(p) => before.push(p),
            None => before,
        }
    }
}

/// `library_path`, computed.
fn library_path_of(line: &Vec<char>) -> (r: Option<Vec<char>>)
    ensures
        match r {
            Some(p) => library_path(line@) == Some(p@),
            None => library_path(line@) is None,
        },
{
    let t = trimmed(line);
    if t.len() < 6 {
        return None;
    }
    let key = t[0] == '"' && t[1] == 'p' && t[2] == 'a' && t[3] == 't' && t[4] == 'h' && t[5] == '"';
    if !key {
        assert(t@.take(6)[0] == t@[0]);
        assert(t@.take(6) != path_key() || (t@[0] == '"' && t@[1] == 'p' && t@[2] == 'a'
            && t@[3] == 't' && t@[4] == 'h' && t@[5] == '"'));
        return None;
    }
    assert(t@.take(6) =~= path_key());
    let n = t.len();
    let rest = slice(&t, 6, n);
    assert(rest@ =~= t@.skip(6));
    match find_first(&rest, '"') {
        None => None,
        Some(i) => {
            proof {
                lemma_first_at_some(rest@, '"', i as int);
            }
            let m = rest.len();
            let after = slice(&rest, i + 1, m);
            assert(after@ =~= rest@.skip(i + 1));
            match find_first(&after, '"') {
                None => None,
                Some(j) => {
                    proof {
                        lemma_first_at_some(after@, '"', j as int);
                    }
                    let p = slice(&rest, i + 1, i + 1 + j);
                    Some(p)
                },
            }
        },
    }
}

/// Every library folder named by a `libraryfolders.vdf`.
///
/// A hand-written read of one key rather than a VDF parser: `"path"` is the
/// only field needed and it has survived every revision of the format.
/// Junk names nothing rather than nonsense.
pub fn library_paths(vdf: &str) -> (r: Vec<String>)
    ensures
        r.deep_view() == paths_in(lines(vdf@)),
{
    let text = chars_of(vdf);
    let ls = lines_of(&text);
    let ghost l = ls.deep_view();
    let mut r: Vec<String> = Vec::new();
    let n = ls.len();
    for i in 0..n
        invariant
            n == ls.len(),
            l == ls.deep_view(),
            l == lines(vdf@),
            r.deep_view() == paths_in(l.take(i as int)),
    {
        let ghost before = r.deep_view();
        assert(l.take(i + 1).drop_last() =~= l.take(i as int));
        assert(ls[i as int]@ == l[i as int]);
        match library_path_of(&ls[i]) {
            Some(p) => {
                let s = string_of(&p);
                r.push(s);
                assert(r.deep_view() =~= before.push(p@));
            },
            None => {},
        }
    }
    assert(l.take(n as int) =~= l);
    r
}

/// Every place a game's files or prefix might be: each Steam root, followed
/// by the folders its library file names when it has one; each run of
/// equal neighbours kept once.
pub open spec fn libraries_in(roots: Seq<Seq<char>>, texts: Seq<Option<Seq<char>>>) -> Seq<Seq<char>>
    decreases roots.len(),
{
    if roots.len() == 0 {
        seq![]
    } else {
        let i = roots.len() - 1;
        let named = if i < texts.len() {
            match texts[i] {
                Some(t) => paths_in(lines(t)),
                None => seq![],
            }
        } else {
            seq![]
        };
        libraries_in(roots.drop_last(), texts) + seq![roots[i]] + named
    }
}

/// Every place a game's files or prefix might be, given the Steam roots and
/// the text of each root's `steamapps/libraryfolders.vdf` where it could be
/// read. A root whose file is missing is still a library.
pub fn libraries_from(roots: &Vec<String>, texts: &Vec<Option<String>>) -> (r: Vec<String>)
    ensures
        r.deep_view() == dedup(libraries_in(roots.deep_view(), texts.deep_view())),
{
    let mut found: Vec<String> = Vec::new();
    let n = roots.len();
    let ghost rs = roots.deep_view();
    let ghost ts = texts.deep_view();
    for i in 0..n
        invariant
            n == roots.len(),
            rs == roots.deep_view(),
            ts == texts.deep_view(),
            found.deep_view() == libraries_in(rs.take(i as int), ts),
    {
        assert(rs.take(i + 1).drop_last() =~= rs.take(i as int));
        assert(rs.take(i + 1)[i as int] == rs[i as int]);
        found.push(roots[i].clone());
        let ghost with_root = found.deep_view();
        if i < texts.len() {
            match &texts[i] {
                Some(t) => {
                    assert(ts[i as int] == Some(t@));
                    let named = library_paths(t.as_str());
                    let m = named.len();
                    for k in 0..m
                        invariant
                            m == named.len(),
                            found.deep_view() == with_root + named.deep_view().take(k as int),
                    {
                        let ghost before = found.deep_view();
                        let item = named[k].clone();
                        assert(item@ == named.deep_view()[k as int]);
                        found.push(item);
                        assert(found.deep_view() =~= before.push(item@));
                        assert(named.deep_view().take(k + 1) =~= named.deep_view().take(
                            k as int,
                        ).push(item@));
                        assert(found.deep_view() =~= with_root + named.deep_view().take(k + 1));
                    }
                    assert(named.deep_view().take(m as int) =~= named.deep_view());
                },
                None => {
                    assert(ts[i as int] is None);
                    assert(found.deep_view() =~= with_root + Seq::<Seq<char>>::empty());
                },
            }
        } else {
            assert(found.deep_view() =~= with_root + Seq::<Seq<char>>::empty());
        }
        assert(found.deep_view() =~= libraries_in(rs.take(i + 1), ts));
    }
    assert(rs.take(n as int) =~= rs);
    dedup_paths(found)
}

// ---------------------------------------------------------------------------
// The prefix
// ---------------------------------------------------------------------------

/// Where a game's Proton prefix would be inside one library.
pub open spec fn prefix_path(library: Seq<char>, app_id: u32) -> Seq<char> {
    path_join(path_join(path_join(path_join(library, "steamapps"@), "compatdata"@), decimal(app_id as nat)), "pfx"@)
}

/// Where a game's Proton prefix would be inside one library.
pub fn prefix_in(library: &str, app_id: u32) -> (p: String)
    ensures
        p@ == prefix_path(library@, app_id),
{
    let id = string_of(&decimal_of(app_id as u128));
    let compat = join(join(library, "steamapps").as_str(), "compatdata");
    join(join(compat.as_str(), id.as_str()).as_str(), "pfx")
}

/// The prefix Steam built for a game, given the libraries in the order they
/// are believed and, for each, whether the prefix inside it is a directory:
/// the first that is. `None` before the game has been run once, because
/// Steam builds the prefix on first launch, not at install.
pub fn prefix_for(app_id: u32, libraries: &Vec<String>, present: &Vec<bool>) -> (r: Option<String>)
    ensures
        match r {
            Some(p) => exists|i: int|
                0 <= i < libraries.len() && i < present.len() && present[i]
                && p@ == prefix_path(libraries[i]@, app_id)
                && forall|j: int| 0 <= j < i ==> !(#[trigger] present[j]),
            None => forall|i: int|
                0 <= i < libraries.len() && i < present.len() ==> !(#[trigger] present[i]),
        },
{
    let n = libraries.len();
    for i in 0..n
        invariant
            n == libraries.len(),
            forall|j: int| 0 <= j < i && j < present.len() ==> !(#[trigger] present[j]),
    {
        if i < present.len() && present[i] {
            return Some(prefix_in(libraries[i].as_str(), app_id));
        }
    }
    None
}

// ---------------------------------------------------------------------------
// Proton's wine
// ---------------------------------------------------------------------------

/// What `Path::parent` gives for a path: the path without its last
/// component, or nothing for a root or an empty path.
pub uninterp spec fn path_parent(p: Seq<char>) -> Option<Seq<char>>;

/// `std::path::Path::parent`, on a path held as a string.
///
/// The contract says only that the answer is `path_parent` of the argument:
/// the rules by which `Path` splits components (repeated separators, `.`,
/// a trailing `/`) are the standard library's and are not restated here.
/// A path made from a `&str` is UTF-8, so its parent converts back without
/// loss.
#[verifier::external_body]
fn parent_of(p: &str) -> (r: Option<String>)
    ensures
        match r {
            Some(s) => path_parent(p@) == Some(s@),
            None => path_parent(p@) is None,
        },
{
    match std::path::Path::new(p).parent() {
        Some(q) => Some(q.to_string_lossy().into_owned()),
        None => None,
    }
}

/// The second line of a prefix's `config_info`, trimmed: the font directory
/// of the Proton that built it.
pub open spec fn fonts_line(config_info: Seq<char>) -> Option<Seq<char>> {
    let ls = lines(config_info);
    if ls.len() >= 2 {
        Some(trim(ls[1]))
    } else {
        None
    }
}

/// The `wine` of a Proton build, given the build's `files` directory.
pub open spec fn wine_in(files: Seq<char>) -> Seq<char> {
    path_join(path_join(files, "bin"@), "wine"@)
}

/// Where the `wine` of a Proton build is, given its `files` directory.
pub fn wine_under(files: &str) -> (w: String)
    ensures
        w@ == wine_in(files@),
{
    join(join(files, "bin").as_str(), "wine")
}

/// The `wine` of the Proton that wrote a `config_info`: two components
/// above its font directory, then `bin/wine`.
pub open spec fn wine_from(config_info: Seq<char>) -> Option<Seq<char>> {
    match fonts_line(config_info) {
        None => None,
        Some(f) => match path_parent(f) {
            None => None,
            Some(up) => match path_parent(up) {
                None => None,
                Some(files) => Some(wine_in(files)),
            },
        },
    }
}

/// The Proton build a prefix was made by, from the note Proton leaves in it.
///
/// The second line of `config_info` is that Proton's font directory, and the
/// build is two components above it. Reading the prefix rather than Steam's
/// config works for any Proton without knowing it exists. A note that says
/// nothing useful is not guessed at.
pub fn wine_from_config_info(config_info: &str) -> (r: Option<String>)
    ensures
        r.deep_view() == wine_from(config_info@),
{
    let text = chars_of(config_info);
    let ls = lines_of(&text);
    if ls.len() < 2 {
        assert(ls.deep_view().len() == ls.len());
        return None;
    }
    assert(ls[1]@ == ls.deep_view()[1]);
    let fonts = string_of(&trimmed(&ls[1]));
    let up = match parent_of(fonts.as_str()) {
        Some(up) => up,
        None => return None,
    };
    let files = match parent_of(up.as_str()) {
        Some(files) => files,
        None => return None,
    };
    Some(wine_under(files.as_str()))
}

// ---------------------------------------------------------------------------
// Starting it
// ---------------------------------------------------------------------------

/// How to start a Windows program inside a prefix.
#[derive(Debug, Clone, PartialEq, Eq)]
pub enum Launch {
    /// Steam's own Proton, found in the prefix it built. Nothing to install.
    Proton {
        /// The `wine` binary.
        wine: String,
        /// What to set `WINEPREFIX` to.
        prefix: String,
    },
    /// Nothing was found, so fall back to the thing people are told to
    /// install.
    Protontricks {
        /// The app id to hand it.
        app_id: u32,
    },
}

impl Launch {
    /// The program to run and its arguments: Proton's `wine` with the
    /// program, or `protontricks-launch --appid <id>` with it.
    pub fn command(&self, exe: &str) -> (r: (String, Vec<String>))
        ensures
            match self {
                Launch::Proton { wine, .. } => r.0@ == wine@ && r.1.deep_view() == seq![exe@],
                Launch::Protontricks { app_id } => r.0@ == "protontricks-launch"@
                    && r.1.deep_view() == seq!["--appid"@, decimal(*app_id as nat), exe@],
            },
    {
        match self {
            Launch::Proton { wine, .. } => {
                let mut args: Vec<String> = Vec::new();
                args.push(owned(exe));
                assert(args.deep_view() =~= seq![exe@]);
                (wine.clone(), args)
            },
            Launch::Protontricks { app_id } => {
                let mut args: Vec<String> = Vec::new();
                args.push(owned("--appid"));
                args.push(string_of(&decimal_of(*app_id as u128)));
                args.push(owned(exe));
                assert(args.deep_view() =~= seq!["--appid"@, decimal(*app_id as nat), exe@]);
                (owned("protontricks-launch"), args)
            },
        }
    }

    /// The environment it needs: the two settings that stop `winedevice.exe`
    /// sitting on a core, either way, and `WINEPREFIX` through Proton.
    pub fn env(&self) -> (r: Vec<(String, String)>)
        ensures
            r.deep_view() == (match self {
                Launch::Proton { prefix, .. } => seq![
                    ("DBUS_FATAL_WARNINGS"@, "0"@),
                    ("WINEDLLOVERRIDES"@, "winebus.sys=d"@),
                    ("WINEPREFIX"@, prefix@),
                ],
                Launch::Protontricks { .. } => seq![
                    ("DBUS_FATAL_WARNINGS"@, "0"@),
                    ("WINEDLLOVERRIDES"@, "winebus.sys=d"@),
                ],
            }),
    {
        let mut env: Vec<(String, String)> = Vec::new();
        env.push((owned("DBUS_FATAL_WARNINGS"), owned("0")));
        env.push((owned("WINEDLLOVERRIDES"), owned("winebus.sys=d")));
        match self {
            Launch::Proton { prefix, .. } => {
                env.push((owned("WINEPREFIX"), prefix.clone()));
                assert(env.deep_view() =~= seq![
                    ("DBUS_FATAL_WARNINGS"@, "0"@),
                    ("WINEDLLOVERRIDES"@, "winebus.sys=d"@),
                    ("WINEPREFIX"@, prefix@),
                ]);
            },
            Launch::Protontricks { .. } => {
                assert(env.deep_view() =~= seq![
                    ("DBUS_FATAL_WARNINGS"@, "0"@),
                    ("WINEDLLOVERRIDES"@, "winebus.sys=d"@),
                ]);
            },
        }
        env
    }

    /// What to make the working directory: the folder the program is in.
    /// Wine resolves paths against the prefix's drive mappings, and a folder
    /// that is not mapped comes back as "file not found" with the file
    /// plainly there. A program at the root has no folder to sit in.
    pub fn working_dir(exe: &str) -> (r: Option<String>)
        ensures
            match r {
                Some(d) => path_parent(exe@) == Some(d@),
                None => path_parent(exe@) is None,
            },
    {
        parent_of(exe)
    }
}

/// How to start the bridge for one game, best answer first: Proton when the
/// game's prefix was found and the Proton that built it is still there, and
/// protontricks otherwise.
pub fn how_to_launch(app_id: u32, prefix: Option<String>, wine: Option<String>) -> (l: Launch)
    ensures
        match (prefix, wine) {
            (Some(p), Some(w)) => l == Launch::Proton { wine: w, prefix: p },
            _ => l == Launch::Protontricks { app_id },
        },
{
    match prefix {
        Some(prefix) => match wine {
            Some(wine) => Launch::Proton { wine, prefix },
            None => Launch::Protontricks { app_id },
        },
        None => Launch::Protontricks { app_id },
    }
}

} // verus!
