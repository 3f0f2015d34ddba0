//! Text as a sequence of characters, and the handful of things done to it.
//!
//! Every file this program reads or writes is a few lines of `key=value` or
//! `NAME:SIZE`, so the whole of its text handling is here: splitting into
//! lines, trimming, finding a separator, and reading and writing a decimal
//! number. Each is a spec function over `Seq<char>` that says exactly what the
//! standard library's namesake does, and an executable function proved to
//! compute it.

use vstd::prelude::*;

verus! {

// ---------------------------------------------------------------------------
// Characters
// ---------------------------------------------------------------------------

/// Unicode's `White_Space`, which is what `char::is_whitespace` and
/// `str::trim` go by.
pub open spec fn is_white(c: char) -> bool {
    let n = c as u32;
    ||| 0x09 <= n && n <= 0x0D
    ||| n == 0x20
    ||| n == 0x85
    ||| n == 0xA0
    ||| n == 0x1680
    ||| 0x2000 <= n && n <= 0x200A
    ||| n == 0x2028
    ||| n == 0x2029
    ||| n == 0x202F
    ||| n == 0x205F
    ||| n == 0x3000
}

/// Whether a character is white space.
pub fn white(c: char) -> (b: bool)
    ensures
        b == is_white(c),
{
    let n = c as u32;
    (0x09 <= n && n <= 0x0D) || n == 0x20 || n == 0x85 || n == 0xA0 || n == 0x1680 || (0x2000
        <= n && n <= 0x200A) || n == 0x2028 || n == 0x2029 || n == 0x202F || n == 0x205F || n
        == 0x3000
}

// ---------------------------------------------------------------------------
// Moving between `str`, `String` and `Vec<char>`
// ---------------------------------------------------------------------------

/// The characters of a string, in a vector.
pub fn chars_of(s: &str) -> (v: Vec<char>)
    ensures
        v@ == s@,
{
    let mut v: Vec<char> = Vec::new();
    for c in it: s.chars()
        invariant
            v@ == it.seq().take(it.index() as int),
            it.seq() == s@,
    {
        v.push(c);
    }
    v
}

/// `String::push`: one character on the end.
#[verifier::external_body]
pub(crate) fn push_char(s: &mut String, c: char)
    ensures
        final(s)@ == old(s)@.push(c),
{
    s.push(c);
}

/// A string holding exactly these characters.
pub fn string_of(v: &Vec<char>) -> (s: String)
    ensures
        s@ == v@,
{
    let mut s = String::new();
    let mut i: usize = 0;
    while i < v.len()
        invariant
            i <= v.len(),
            s@ == v@.take(i as int),
        decreases v.len() - i,
    {
        push_char(&mut s, v[i]);
        i += 1;
        assert(s@ =~= v@.take(i as int));
    }
    assert(v@.take(v.len() as int) =~= v@);
    s
}

/// The same string, owned.
pub fn owned(s: &str) -> (r: String)
    ensures
        r@ == s@,
{
    s.to_owned()
}

/// A copy of the characters from `lo` up to, not including, `hi`.
pub fn slice(v: &Vec<char>, lo: usize, hi: usize) -> (r: Vec<char>)
    requires
        lo <= hi <= v.len(),
    ensures
        r@ == v@.subrange(lo as int, hi as int),
{
    let mut r: Vec<char> = Vec::new();
    let mut i = lo;
    while i < hi
        invariant
            lo <= i <= hi <= v.len(),
            r@ == v@.subrange(lo as int, i as int),
        decreases hi - i,
    {
        r.push(v[i]);
        i += 1;
        assert(r@ =~= v@.subrange(lo as int, i as int));
    }
    r
}

/// Append a run of characters to a string.
pub fn push_all(s: &mut String, v: &Vec<char>)
    ensures
        final(s)@ == old(s)@ + v@,
{
    let ghost start = s@;
    let mut i: usize = 0;
    while i < v.len()
        invariant
            i <= v.len(),
            s@ == start + v@.take(i as int),
        decreases v.len() - i,
    {
        push_char(s, v[i]);
        i += 1;
        assert(s@ =~= start + v@.take(i as int));
    }
    assert(v@.take(v.len() as int) =~= v@);
}

/// Append a string to a string.
pub fn push_str(s: &mut String, t: &str)
    ensures
        final(s)@ == old(s)@ + t@,
{
    let v = chars_of(t);
    push_all(s, &v);
}

/// Whether two runs of characters are the same.
pub fn same(a: &Vec<char>, b: &Vec<char>) -> (r: bool)
    ensures
        r == (a@ == b@),
{
    if a.len() != b.len() {
        return false;
    }
    let mut i: usize = 0;
    while i < a.len()
        invariant
            a.len() == b.len(),
            i <= a.len(),
            forall|j: int| 0 <= j < i ==> a@[j] == b@[j],
        decreases a.len() - i,
    {
        if a[i] != b[i] {
            return false;
        }
        i += 1;
    }
    assert(a@ =~= b@);
    true
}

/// Whether two strings hold the same text.
pub fn same_text(a: &str, b: &str) -> (r: bool)
    ensures
        r == (a@ == b@),
{
    let x = chars_of(a);
    let y = chars_of(b);
    same(&x, &y)
}

// ---------------------------------------------------------------------------
// Trimming
// ---------------------------------------------------------------------------

/// How many white characters a run starts with.
pub open spec fn lead(s: Seq<char>) -> nat
    decreases s.len(),
{
    if s.len() > 0 && is_white(s[0]) {
        1 + lead(s.drop_first())
    } else {
        0
    }
}

/// How many white characters a run ends with.
pub open spec fn trail(s: Seq<char>) -> nat
    decreases s.len(),
{
    if s.len() > 0 && is_white(s.last()) {
        1 + trail(s.drop_last())
    } else {
        0
    }
}

/// `str::trim_start`.
pub open spec fn trim_start(s: Seq<char>) -> Seq<char> {
    s.skip(lead(s) as int)
}

/// `str::trim_end`.
pub open spec fn trim_end(s: Seq<char>) -> Seq<char> {
    s.take(s.len() - trail(s))
}

/// `str::trim`.
pub open spec fn trim(s: Seq<char>) -> Seq<char> {
    trim_end(trim_start(s))
}

/// The leading white run is the longest run of white characters at the front.
pub proof fn lemma_lead(s: Seq<char>, i: int)
    requires
        0 <= i <= s.len(),
        forall|j: int| 0 <= j < i ==> is_white(#[trigger] s[j]),
        i == s.len() || !is_white(s[i]),
    ensures
        lead(s) == i,
    decreases i,
{
    if i > 0 {
        let t = s.drop_first();
        assert forall|j: int| 0 <= j < i - 1 implies is_white(#[trigger] t[j]) by {
            assert(t[j] == s[j + 1]);
        }
        if i - 1 < t.len() {
            assert(t[i - 1] == s[i]);
        }
        lemma_lead(t, i - 1);
    }
}

/// The trailing white run is the longest run of white characters at the end.
pub proof fn lemma_trail(s: Seq<char>, k: int)
    requires
        0 <= k <= s.len(),
        forall|j: int| s.len() - k <= j < s.len() ==> is_white(#[trigger] s[j]),
        k == s.len() || !is_white(s[s.len() - k - 1]),
    ensures
        trail(s) == k,
    decreases k,
{
    if k > 0 {
        let t = s.drop_last();
        assert forall|j: int| t.len() - (k - 1) <= j < t.len() implies is_white(#[trigger] t[j]) by {
            assert(t[j] == s[j]);
        }
        if k - 1 < t.len() {
            assert(t[t.len() - (k - 1) - 1] == s[s.len() - k - 1]);
        }
        lemma_trail(t, k - 1);
    }
}

/// A run that neither starts nor ends with white space is its own trim.
pub proof fn lemma_trim_clean(s: Seq<char>)
    requires
        s.len() == 0 || (!is_white(s[0]) && !is_white(s.last())),
    ensures
        trim(s) == s,
{
    lemma_lead(s, 0);
    assert(trim_start(s) =~= s);
    lemma_trail(s, 0);
    assert(trim_end(s) =~= s);
}

/// No run starts with more white characters than it has.
pub proof fn lemma_lead_bound(s: Seq<char>)
    ensures
        lead(s) <= s.len(),
    decreases s.len(),
{
    if s.len() > 0 && is_white(s[0]) {
        lemma_lead_bound(s.drop_first());
    }
}

/// No run ends with more white characters than it has.
pub proof fn lemma_trail_bound(s: Seq<char>)
    ensures
        trail(s) <= s.len(),
    decreases s.len(),
{
    if s.len() > 0 && is_white(s.last()) {
        lemma_trail_bound(s.drop_last());
    }
}

/// A run that is its own trim neither starts nor ends with white space.
pub proof fn lemma_trim_keeps_ends(s: Seq<char>)
    requires
        s.len() > 0,
        trim(s) == s,
    ensures
        !is_white(s[0]),
        !is_white(s.last()),
{
    let t = trim_start(s);
    lemma_lead_bound(s);
    lemma_trail_bound(t);
    assert(t.len() == s.len() - lead(s));
    assert(trim(s).len() == t.len() - trail(t));
    if is_white(s[0]) {
        assert(lead(s) >= 1);
        assert(trim(s).len() < s.len());
    }
    if is_white(s.last()) {
        if lead(s) == 0 {
            assert(t =~= s);
            assert(trail(t) >= 1);
        }
        assert(trim(s).len() < s.len());
    }
}

/// `str::trim`, on a run of characters.
pub fn trimmed(v: &Vec<char>) -> (r: Vec<char>)
    ensures
        r@ == trim(v@),
{
    let mut lo: usize = 0;
    while lo < v.len() && white(v[lo])
        invariant
            lo <= v.len(),
            forall|j: int| 0 <= j < lo ==> is_white(#[trigger] v@[j]),
        decreases v.len() - lo,
    {
        lo += 1;
    }
    proof {
        lemma_lead(v@, lo as int);
    }
    let ghost t = v@.skip(lo as int);
    let mut hi: usize = v.len();
    while hi > lo && white(v[hi - 1])
        invariant
            lo <= hi <= v.len(),
            t == v@.skip(lo as int),
            forall|j: int| hi <= j < v.len() ==> is_white(#[trigger] v@[j]),
        decreases hi,
    {
        hi -= 1;
    }
    proof {
        let k = v.len() - hi;
        assert forall|j: int| t.len() - k <= j < t.len() implies is_white(#[trigger] t[j]) by {
            assert(t[j] == v@[j + lo]);
        }
        if k < t.len() {
            assert(t[t.len() - k - 1] == v@[hi - 1]);
        }
        lemma_trail(t, k as int);
    }
    let r = slice(v, lo, hi);
    assert(r@ =~= trim(v@));
    r
}

// ---------------------------------------------------------------------------
// Finding a character
// ---------------------------------------------------------------------------

/// Where `c` first appears, if it does.
pub open spec fn first_at(s: Seq<char>, c: char) -> Option<int>
    decreases s.len(),
{
    if s.len() == 0 {
        None
    } else if s[0] == c {
        Some(0)
    } else {
        match first_at(s.drop_first(), c) {
            Some(i) => Some(i + 1),
            None => None,
        }
    }
}

/// Where `c` last appears, if it does.
pub open spec fn last_at(s: Seq<char>, c: char) -> Option<int>
    decreases s.len(),
{
    if s.len() == 0 {
        None
    } else if s.last() == c {
        Some(s.len() - 1)
    } else {
        last_at(s.drop_last(), c)
    }
}

/// The first appearance is the one with none before it.
pub proof fn lemma_first_at(s: Seq<char>, c: char, i: int)
    requires
        0 <= i <= s.len(),
        forall|j: int| 0 <= j < i ==> #[trigger] s[j] != c,
    ensures
        i < s.len() && s[i] == c ==> first_at(s, c) == Some(i),
        i == s.len() ==> first_at(s, c) is None,
    decreases i,
{
    if i > 0 {
        let t = s.drop_first();
        assert forall|j: int| 0 <= j < i - 1 implies #[trigger] t[j] != c by {
            assert(t[j] == s[j + 1]);
        }
        if i < s.len() {
            assert(t[i - 1] == s[i]);
        }
        lemma_first_at(t, c, i - 1);
    }
}

/// The last appearance is the one with none after it.
pub proof fn lemma_last_at(s: Seq<char>, c: char, i: int)
    requires
        -1 <= i < s.len(),
        forall|j: int| i < j < s.len() ==> #[trigger] s[j] != c,
    ensures
        i >= 0 && s[i] == c ==> last_at(s, c) == Some(i),
        i == -1 ==> last_at(s, c) is None,
    decreases s.len(),
{
    if s.len() > 0 && i < s.len() - 1 {
        let t = s.drop_last();
        assert forall|j: int| i < j < t.len() implies #[trigger] t[j] != c by {
            assert(t[j] == s[j]);
        }
        assert(s[s.len() - 1] != c);
        lemma_last_at(t, c, i);
    }
}

/// What `first_at` says when it finds something.
pub proof fn lemma_first_at_some(s: Seq<char>, c: char, i: int)
    requires
        first_at(s, c) == Some(i),
    ensures
        0 <= i < s.len(),
        s[i] == c,
        forall|j: int| 0 <= j < i ==> #[trigger] s[j] != c,
    decreases s.len(),
{
    if s[0] != c {
        let t = s.drop_first();
        lemma_first_at_some(t, c, i - 1);
        assert forall|j: int| 1 <= j < s.len() implies (#[trigger] s[j]) == t[j - 1] by {}
    }
}

/// What `first_at` says when it finds nothing.
pub proof fn lemma_first_at_none(s: Seq<char>, c: char)
    requires
        first_at(s, c) is None,
    ensures
        forall|j: int| 0 <= j < s.len() ==> #[trigger] s[j] != c,
    decreases s.len(),
{
    if s.len() > 0 {
        let t = s.drop_first();
        lemma_first_at_none(t, c);
        assert forall|j: int| 1 <= j < s.len() implies (#[trigger] s[j]) == t[j - 1] by {}
    }
}

/// What `last_at` says when it finds something.
pub proof fn lemma_last_at_some(s: Seq<char>, c: char, i: int)
    requires
        last_at(s, c) == Some(i),
    ensures
        0 <= i < s.len(),
        s[i] == c,
        forall|j: int| i < j < s.len() ==> #[trigger] s[j] != c,
    decreases s.len(),
{
    if s.last() != c {
        let t = s.drop_last();
        lemma_last_at_some(t, c, i);
        assert forall|j: int| 0 <= j < t.len() implies (#[trigger] s[j]) == t[j] by {}
    }
}

/// What `last_at` says when it finds nothing.
pub proof fn lemma_last_at_none(s: Seq<char>, c: char)
    requires
        last_at(s, c) is None,
    ensures
        forall|j: int| 0 <= j < s.len() ==> #[trigger] s[j] != c,
    decreases s.len(),
{
    if s.len() > 0 {
        let t = s.drop_last();
        lemma_last_at_none(t, c);
        assert forall|j: int| 0 <= j < t.len() implies (#[trigger] s[j]) == t[j] by {}
    }
}

/// Where `c` first appears in `v`.
pub fn find_first(v: &Vec<char>, c: char) -> (r: Option<usize>)
    ensures
        match r {
            Some(i) => first_at(v@, c) == Some(i as int),
            None => first_at(v@, c) is None,
        },
{
    let mut i: usize = 0;
    while i < v.len()
        invariant
            i <= v.len(),
            forall|j: int| 0 <= j < i ==> #[trigger] v@[j] != c,
        decreases v.len() - i,
    {
        if v[i] == c {
            proof {
                lemma_first_at(v@, c, i as int);
            }
            return Some(i);
        }
        i += 1;
    }
    proof {
        lemma_first_at(v@, c, i as int);
    }
    None
}

/// Where `c` last appears in `v`.
pub fn find_last(v: &Vec<char>, c: char) -> (r: Option<usize>)
    ensures
        match r {
            Some(i) => last_at(v@, c) == Some(i as int),
            None => last_at(v@, c) is None,
        },
{
    let mut i: usize = v.len();
    while i > 0
        invariant
            i <= v.len(),
            forall|j: int| i <= j < v.len() ==> #[trigger] v@[j] != c,
        decreases i,
    {
        if v[i - 1] == c {
            proof {
                lemma_last_at(v@, c, i - 1);
            }
            return Some(i - 1);
        }
        i -= 1;
    }
    proof {
        lemma_last_at(v@, c, -1);
    }
    None
}

/// `str::split_once`: the text before the first `c` and the text after it.
pub open spec fn split_once(s: Seq<char>, c: char) -> Option<(Seq<char>, Seq<char>)> {
    match first_at(s, c) {
        Some(i) => Some((s.take(i), s.skip(i + 1))),
        None => None,
    }
}

/// `str::rsplit_once`: the text before the last `c` and the text after it.
pub open spec fn rsplit_once(s: Seq<char>, c: char) -> Option<(Seq<char>, Seq<char>)> {
    match last_at(s, c) {
        Some(i) => Some((s.take(i), s.skip(i + 1))),
        None => None,
    }
}

/// `split_once`, on a run of characters.
pub fn split_first(v: &Vec<char>, c: char) -> (r: Option<(Vec<char>, Vec<char>)>)
    ensures
        match r {
            Some((a, b)) => split_once(v@, c) == Some((a@, b@)),
            None => split_once(v@, c) is None,
        },
{
    let n = v.len();
    match find_first(v, c) {
        Some(i) => {
            proof {
                lemma_first_at_some(v@, c, i as int);
            }
            let a = slice(v, 0, i);
            let b = slice(v, i + 1, n);
            assert(a@ =~= v@.take(i as int));
            assert(b@ =~= v@.skip(i + 1));
            Some((a, b))
        },
        None => None,
    }
}

/// `rsplit_once`, on a run of characters.
pub fn split_last(v: &Vec<char>, c: char) -> (r: Option<(Vec<char>, Vec<char>)>)
    ensures
        match r {
            Some((a, b)) => rsplit_once(v@, c) == Some((a@, b@)),
            None => rsplit_once(v@, c) is None,
        },
{
    let n = v.len();
    match find_last(v, c) {
        Some(i) => {
            proof {
                lemma_last_at_some(v@, c, i as int);
            }
            let a = slice(v, 0, i);
            let b = slice(v, i + 1, n);
            assert(a@ =~= v@.take(i as int));
            assert(b@ =~= v@.skip(i + 1));
            Some((a, b))
        },
        None => None,
    }
}

/// Where `c` first appears in `v` at or after `from`, counted from `from`.
pub fn find_from(v: &Vec<char>, from: usize, c: char) -> (r: Option<usize>)
    requires
        from <= v.len(),
    ensures
        match r {
            Some(i) => first_at(v@.skip(from as int), c) == Some(i - from) && from <= i < v.len(),
            None => first_at(v@.skip(from as int), c) is None,
        },
{
    let ghost t = v@.skip(from as int);
    let mut i: usize = from;
    while i < v.len()
        invariant
            from <= i <= v.len(),
            t == v@.skip(from as int),
            forall|j: int| 0 <= j < i - from ==> #[trigger] t[j] != c,
        decreases v.len() - i,
    {
        if v[i] == c {
            proof {
                assert(t[i - from] == v@[i as int]);
                lemma_first_at(t, c, i - from);
            }
            return Some(i);
        }
        assert(t[i - from] == v@[i as int]);
        i += 1;
    }
    proof {
        lemma_first_at(t, c, i - from);
    }
    None
}

// ---------------------------------------------------------------------------
// Lines
// ---------------------------------------------------------------------------

/// A line without the `\r` a Windows editor leaves before its `\n`.
pub open spec fn strip_cr(s: Seq<char>) -> Seq<char> {
    if s.len() > 0 && s.last() == '\r' {
        s.drop_last()
    } else {
        s
    }
}

/// `str::lines`: split at each `\n`, dropping a `\r` just before it; a final
/// `\n` does not start an empty line, and empty text has no lines at all.
pub open spec fn lines(s: Seq<char>) -> Seq<Seq<char>>
    decreases s.len(),
{
    if s.len() == 0 {
        seq![]
    } else {
        match first_at(s, '\n') {
            Some(i) => {
                proof {
                    lemma_first_at_some(s, '\n', i);
                }
                seq![strip_cr(s.take(i))] + lines(s.skip(i + 1))
            },
            None => seq![s],
        }
    }
}

/// Finding a character in a run finds it in anything the run starts.
pub proof fn lemma_first_at_concat(a: Seq<char>, b: Seq<char>, c: char)
    ensures
        first_at(a, c) matches Some(i) ==> first_at(a + b, c) == Some(i),
    decreases a.len(),
{
    if a.len() > 0 && a[0] != c {
        lemma_first_at_concat(a.drop_first(), b, c);
        assert((a + b).drop_first() =~= a.drop_first() + b);
    }
}

/// Text that ends at the end of a line splits into lines on its own: what
/// follows starts a line of its own.
pub proof fn lemma_lines_concat(a: Seq<char>, b: Seq<char>)
    requires
        a.len() == 0 || a.last() == '\n',
    ensures
        lines(a + b) == lines(a) + lines(b),
    decreases a.len(),
{
    if a.len() == 0 {
        assert(a + b =~= b);
        assert(lines(a) =~= Seq::<Seq<char>>::empty());
        assert(lines(a) + lines(b) =~= lines(b));
    } else {
        match first_at(a, '\n') {
            None => {
                lemma_first_at_none(a, '\n');
                assert(a[a.len() - 1] == '\n');
            },
            Some(i) => {
                lemma_first_at_some(a, '\n', i);
                lemma_first_at_concat(a, b, '\n');
                assert((a + b).take(i) =~= a.take(i));
                assert((a + b).skip(i + 1) =~= a.skip(i + 1) + b);
                let rest = a.skip(i + 1);
                if rest.len() > 0 {
                    assert(rest.last() == a.last());
                }
                lemma_lines_concat(rest, b);
                assert(lines(a + b) =~= lines(a) + lines(b));
            },
        }
    }
}

/// One line, ended: a line of its own.
pub proof fn lemma_lines_of_one(line: Seq<char>, b: Seq<char>)
    requires
        forall|j: int| 0 <= j < line.len() ==> #[trigger] line[j] != '\n',
    ensures
        lines(line + seq!['\n'] + b) == seq![strip_cr(line)] + lines(b),
{
    let t = line + seq!['\n'] + b;
    assert forall|j: int| 0 <= j < line.len() implies #[trigger] t[j] != '\n' by {
        assert(t[j] == line[j]);
    }
    lemma_first_at(t, '\n', line.len() as int);
    assert(t.take(line.len() as int) =~= line);
    assert(t.skip(line.len() + 1int) =~= b);
}

/// `str::lines`, on a run of characters.
pub fn lines_of(v: &Vec<char>) -> (r: Vec<Vec<char>>)
    ensures
        r.deep_view() == lines(v@),
{
    let mut r: Vec<Vec<char>> = Vec::new();
    let mut start: usize = 0;
    let n = v.len();
    assert(v@.skip(0) =~= v@);
    while start < n
        invariant
            n == v.len(),
            start <= n,
            r.deep_view() + lines(v@.skip(start as int)) == lines(v@),
        decreases n - start,
    {
        let ghost rest = v@.skip(start as int);
        match find_from(v, start, '\n') {
            Some(at) => {
                let mut line = slice(v, start, at);
                if line.len() > 0 && line[line.len() - 1] == '\r' {
                    line.pop();
                }
                proof {
                    lemma_first_at_some(rest, '\n', at - start);
                    assert(line@ =~= strip_cr(rest.take(at - start)));
                    assert(rest.skip(at - start + 1) =~= v@.skip(at + 1));
                }
                let ghost before = r.deep_view();
                assert(line.deep_view() =~= line@);
                r.push(line);
                assert(r.deep_view() =~= before.push(line@));
                start = at + 1;
                assert(r.deep_view() + lines(v@.skip(start as int)) =~= before + lines(rest));
            },
            None => {
                let line = slice(v, start, n);
                let ghost before = r.deep_view();
                assert(line@ =~= rest);
                assert(line.deep_view() =~= line@);
                r.push(line);
                assert(r.deep_view() =~= before.push(line@));
                assert(r.deep_view() =~= before + lines(rest));
                start = n;
                assert(v@.skip(start as int) =~= Seq::<char>::empty());
                assert(r.deep_view() + lines(v@.skip(start as int)) =~= r.deep_view());
            },
        }
    }
    assert(v@.skip(start as int) =~= Seq::<char>::empty());
    assert(r.deep_view() + lines(v@.skip(start as int)) =~= r.deep_view());
    r
}

// ---------------------------------------------------------------------------
// Decimal numbers
// ---------------------------------------------------------------------------

/// Whether a character is one of the ten ASCII digits.
pub open spec fn is_digit(c: char) -> bool {
    48 <= (c as u32) && (c as u32) <= 57
}

/// The digit a character stands for.
pub open spec fn digit_value(c: char) -> nat {
    ((c as u32) - 48) as nat
}

/// The character for a digit.
pub open spec fn digit_char(d: nat) -> char {
    ((d + 48) as u32) as char
}

/// Whether every character is a digit.
pub open spec fn all_digits(s: Seq<char>) -> bool {
    forall|i: int| 0 <= i < s.len() ==> is_digit(#[trigger] s[i])
}

/// The number a run of digits spells.
pub open spec fn digits_value(s: Seq<char>) -> nat
    decreases s.len(),
{
    if s.len() == 0 {
        0
    } else {
        digits_value(s.drop_last()) * 10 + digit_value(s.last())
    }
}

/// A number written in decimal, as `Display` writes it: no sign, no leading
/// zeroes, and `0` for nothing.
pub open spec fn decimal(n: nat) -> Seq<char>
    decreases n,
{
    if n < 10 {
        seq![digit_char(n)]
    } else {
        decimal(n / 10).push(digit_char(n % 10))
    }
}

/// `str::parse` for an unsigned integer no larger than `max`: an optional
/// `+`, then one or more ASCII digits, and nothing else — no space, no sign
/// on its own.
pub open spec fn parse_uint(s: Seq<char>, max: nat) -> Option<nat> {
    let body = if s.len() > 1 && s[0] == '+' {
        s.drop_first()
    } else {
        s
    };
    if body.len() > 0 && all_digits(body) && digits_value(body) <= max {
        Some(digits_value(body))
    } else {
        None
    }
}

/// A decimal is digits, spells its number, and starts with no sign.
pub proof fn lemma_decimal(n: nat)
    ensures
        decimal(n).len() > 0,
        all_digits(decimal(n)),
        digits_value(decimal(n)) == n,
    decreases n,
{
    if n < 10 {
        let s = decimal(n);
        assert(s.drop_last() =~= Seq::<char>::empty());
        assert(digits_value(Seq::<char>::empty()) == 0);
        assert(s.last() == digit_char(n));
        assert(digit_value(digit_char(n)) == n);
        assert(digits_value(s) == digits_value(s.drop_last()) * 10 + digit_value(s.last()));
    } else {
        lemma_decimal(n / 10);
        let s = decimal(n);
        assert(s == decimal(n / 10).push(digit_char(n % 10)));
        assert(s.drop_last() =~= decimal(n / 10));
        assert(s.last() == digit_char(n % 10));
        assert(digit_value(digit_char(n % 10)) == n % 10);
        assert(digits_value(s) == digits_value(s.drop_last()) * 10 + digit_value(s.last()));
        assert(n == (n / 10) * 10 + n % 10);
        assert forall|i: int| 0 <= i < s.len() implies is_digit(#[trigger] s[i]) by {
            if i < s.len() - 1 {
                assert(s[i] == decimal(n / 10)[i]);
            }
        }
    }
}

/// Reading back a number written in decimal gives the number.
pub proof fn lemma_parse_decimal(n: nat, max: nat)
    requires
        n <= max,
    ensures
        parse_uint(decimal(n), max) == Some(n),
{
    lemma_decimal(n);
    let s = decimal(n);
    assert(is_digit(s[0]));
}

/// Digits contain no white space and none of the separators the files use.
pub proof fn lemma_digits_are_plain(s: Seq<char>)
    requires
        all_digits(s),
    ensures
        forall|i: int| 0 <= i < s.len() ==> !is_white(#[trigger] s[i]),
        first_at(s, ':') is None,
        first_at(s, '=') is None,
        first_at(s, '\n') is None,
        first_at(s, '#') is None,
{
    lemma_first_at(s, ':', s.len() as int);
    lemma_first_at(s, '=', s.len() as int);
    lemma_first_at(s, '\n', s.len() as int);
    lemma_first_at(s, '#', s.len() as int);
}

/// A number written in decimal.
pub fn decimal_of(n: u128) -> (v: Vec<char>)
    ensures
        v@ == decimal(n as nat),
    decreases n,
{
    let c = match n % 10 {
        0 => '0',
        1 => '1',
        2 => '2',
        3 => '3',
        4 => '4',
        5 => '5',
        6 => '6',
        7 => '7',
        8 => '8',
        _ => '9',
    };
    if n < 10 {
        vec![c]
    } else {
        let mut v = decimal_of(n / 10);
        v.push(c);
        v
    }
}

/// Append a number, written in decimal, to a string.
pub fn push_decimal(s: &mut String, n: u128)
    ensures
        final(s)@ == old(s)@ + decimal(n as nat),
{
    let v = decimal_of(n);
    push_all(s, &v);
}

/// `parse_uint`, on a run of characters.
pub fn parse_uint_of(v: &Vec<char>, max: u128) -> (r: Option<u128>)
    requires
        max <= u64::MAX,
    ensures
        match r {
            Some(n) => parse_uint(v@, max as nat) == Some(n as nat),
            None => parse_uint(v@, max as nat) is None,
        },
{
    let n = v.len();
    let start: usize = if n > 1 && v[0] == '+' {
        1
    } else {
        0
    };
    let ghost body = if v@.len() > 1 && v@[0] == '+' {
        v@.drop_first()
    } else {
        v@
    };
    assert(body =~= v@.skip(start as int));
    if start == n {
        return None;
    }
    let mut acc: u128 = 0;
    let mut i: usize = start;
    while i < n
        invariant
            n == v.len(),
            start <= i <= n,
            body == v@.skip(start as int),
            body == (if v@.len() > 1 && v@[0] == '+' {
                v@.drop_first()
            } else {
                v@
            }),
            max <= u64::MAX,
            all_digits(body.take(i - start)),
            acc as int == (if digits_value(body.take(i - start)) <= max {
                digits_value(body.take(i - start)) as int
            } else {
                max + 1
            }),
        decreases n - i,
    {
        let c = v[i];
        let k = c as u32;
        if k < 48 || k > 57 {
            assert(body[i - start] == c);
            assert(!is_digit(body[i - start]));
            assert(!all_digits(body));
            return None;
        }
        let d = (k - 48) as u128;
        let ghost before = body.take(i - start);
        let ghost after = body.take(i - start + 1);
        assert(after.drop_last() =~= before);
        assert(after.last() == c);
        assert(digits_value(after) == digits_value(before) * 10 + d);
        if acc > max {
            assert(digits_value(after) > max) by (nonlinear_arith)
                requires
                    digits_value(after) == digits_value(before) * 10 + d,
                    digits_value(before) > max,
            ;
        } else {
            let next = acc * 10 + d;
            if next > max {
                acc = max + 1;
            } else {
                acc = next;
            }
        }
        assert forall|j: int| 0 <= j < after.len() implies is_digit(#[trigger] after[j]) by {
            if j < before.len() {
                assert(after[j] == before[j]);
            }
        }
        i += 1;
    }
    assert(body.take(n - start) =~= body);
    if acc > max {
        None
    } else {
        Some(acc)
    }
}

// ---------------------------------------------------------------------------
// Quoting, as `{:?}` does
// ---------------------------------------------------------------------------

/// What `{:?}` writes for a string: quoted, with escapes.
pub uninterp spec fn str_debug(s: Seq<char>) -> Seq<char>;

/// What `{:?}` writes for a character: quoted, with escapes.
pub uninterp spec fn char_debug(c: char) -> Seq<char>;

/// A string as `{:?}` writes it (`<str as Debug>::fmt`).
///
/// The escaping follows the standard library's Unicode tables, which are
/// not restated here: the contract names the result and says nothing else
/// about it.
#[verifier::external_body]
pub(crate) fn quoted(s: &str) -> (r: String)
    ensures
        r@ == str_debug(s@),
{
    format!("{:?}", s)
}

/// A character as `{:?}` writes it (`<char as Debug>::fmt`).
///
/// As with [`quoted`], the escaping is named rather than restated.
#[verifier::external_body]
pub(crate) fn quoted_char(c: char) -> (r: String)
    ensures
        r@ == char_debug(c),
{
    format!("{:?}", c)
}

} // verus!
