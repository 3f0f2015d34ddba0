//! The Linux side: where the pages live under `/dev/shm`.
//!
//! The file work itself — creating, resizing, zeroing, unlinking — is done
//! by the program. What is here is where each page's file is.

use crate::announce::FILE;
use crate::page::Page;
use crate::text::owned;
use vstd::prelude::*;

verus! {

/// Where Linux keeps its shared memory.
pub const SHM_DIR: &'static str = "/dev/shm";

/// What `Path::join` makes of a directory and a name, as text.
pub uninterp spec fn path_join(dir: Seq<char>, name: Seq<char>) -> Seq<char>;

/// A name placed in a directory (`std::path::Path::join`).
///
/// How a path is joined is the standard library's rule for the target the
/// program is built for — `/` and a leading `/` on Linux, `\` and drive
/// prefixes on Windows, where the bridge itself runs — so the contract names
/// the result rather than restating either rule. Both arguments are `str`,
/// so the joined path is valid Unicode and turning it back into text loses
/// nothing.
#[verifier::external_body]
pub(crate) fn join(dir: &str, name: &str) -> (r: String)
    ensures
        r@ == path_join(dir@, name@),
{
    std::path::Path::new(dir).join(name).to_string_lossy().into_owned()
}

/// The directory the pages are published in.
#[derive(Debug, Clone)]
pub struct Store {
    dir: String,
}

impl View for Store {
    type V = Seq<char>;

    /// The directory, as characters.
    closed spec fn view(&self) -> Seq<char> {
        self.dir@
    }
}

impl Default for Store {
    fn default() -> (s: Store)
        ensures
            s@ == SHM_DIR@,
    {
        Store::at(SHM_DIR)
    }
}

impl Store {
    /// A store in a directory of your choosing — a temporary one, in tests.
    pub fn at(dir: &str) -> (s: Store)
        ensures
            s@ == dir@,
    {
        Store { dir: owned(dir) }
    }

    /// The directory itself.
    pub fn dir(&self) -> (d: &str)
        ensures
            d@ == self@,
    {
        self.dir.as_str()
    }

    /// Where one page's bytes live: the page's name in the directory.
    pub fn path(&self, page: &Page) -> (p: String)
        ensures
            p@ == path_join(self@, page.name@),
    {
        join(self.dir.as_str(), page.name.as_str())
    }

    /// Where the note lives: beside the pages, under [`FILE`].
    pub fn note_path(&self) -> (p: String)
        ensures
            p@ == path_join(self@, FILE@),
    {
        join(self.dir.as_str(), FILE)
    }
}

/// What became of one page's file when it was to be taken away.
#[derive(Debug, Clone, Copy, PartialEq, Eq, Structural)]
pub enum Removal {
    /// It was there and is gone now.
    Removed,
    /// It was not there to begin with, which is what was wanted.
    AlreadyGone,
    /// It could not be taken away.
    Refused,
}

/// Where, among the outcomes, the files that could not be taken away are,
/// in order: a file already gone is no failure.
pub open spec fn refused_at(outcomes: Seq<Removal>) -> Seq<usize>
    decreases outcomes.len(),
{
    if outcomes.len() == 0 {
        seq![]
    } else {
        refused_at(outcomes.drop_last()) + if outcomes.last() is Refused {
            seq![(outcomes.len() - 1) as usize]
        } else {
            Seq::<usize>::empty()
        }
    }
}

/// [`refused_at`], computed: which of the pages, taken away one by one
/// without stopping at the first failure, are left behind.
pub fn refused(outcomes: &Vec<Removal>) -> (r: Vec<usize>)
    ensures
        r@ == refused_at(outcomes@),
{
    let mut r: Vec<usize> = Vec::new();
    let n = outcomes.len();
    for i in 0..n
        invariant
            n == outcomes.len(),
            r@ == refused_at(outcomes@.take(i as int)),
    {
        let ghost t = outcomes@.take(i + 1);
        assert(t.drop_last() =~= outcomes@.take(i as int));
        assert(t.last() == outcomes@[i as int]);
        if outcomes[i] == Removal::Refused {
            r.push(i);
        }
        assert(r@ =~= refused_at(t));
    }
    assert(outcomes@.take(n as int) =~= outcomes@);
    r
}

} // verus!
