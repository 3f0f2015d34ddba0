//! Expose a Windows program's named shared memory to Linux.
//!
//! A Windows program running under Wine or Proton can publish a block of
//! shared memory, and nothing on the Linux side can open it: the name lives
//! in the prefix's own namespace. A Win32 section can be backed by a file,
//! and a file under `/dev/shm` is shared memory on Linux — so the bridge
//! creates the section with the name the Windows program expects, backed by
//! that file, and the writer's stores land where Linux can read them.
//!
//! Which way a page is served is decided by who got there first: a page this
//! bridge created is `Owned` and costs nothing; a page the writer had already
//! created is `Mirrored`, compared on every look and copied when it changes.
//!
//! This crate is the bridge's decisions — pages and recipes, the note it
//! leaves, the pace it looks at, when it blanks, when it stops, how it is
//! started — each with its contract. The Win32 calls, the files and the loop
//! are the program's.

pub mod announce;
pub mod cli;
pub mod handoff;
pub mod inspect;
pub mod launch;
pub mod liveness;
pub mod pacing;
pub mod page;
pub mod probe;
pub mod reader;
pub mod recipe;
pub mod schedule;
pub mod shadow;
pub mod shutdown;
pub mod store;
pub mod supervise;
pub mod text;
pub mod time;
pub mod watch;
pub mod watchdog;
pub mod win;

pub use announce::{Mode, Note};
pub use liveness::Pulse;
pub use pacing::Pacing;
pub use page::Page;
pub use schedule::Schedule;
pub use shadow::Shadow;
pub use store::Store;
pub use time::Duration;
pub use watchdog::Watchdog;

use vstd::prelude::*;
use vstd::utf8::{
    decode_utf8, encode_utf8, encode_utf8_decode_utf8, encode_utf8_valid_utf8, is_ascii_chars,
    is_ascii_chars_encode_utf8, valid_utf8,
};

verus! {

/// This program's version, as published in the note it leaves.
pub const VERSION: &'static str = "0.1.0";

/// The prefix the version is marked with inside the built `.exe`, for
/// whoever is doing the scanning.
pub const VERSION_MARKER_PREFIX: &'static str = "WINESHM-VERSION=";

/// The bytes of [`VERSION_MARKER_PREFIX`].
pub open spec fn marker_prefix() -> Seq<u8> {
    seq![87u8, 73, 78, 69, 83, 72, 77, 45, 86, 69, 82, 83, 73, 79, 78, 61]
}

/// The bytes of [`VERSION`].
pub open spec fn version_bytes() -> Seq<u8> {
    seq![48u8, 46, 49, 46, 48]
}

/// A `;`, which ends the version in the marker.
pub open spec fn semicolon() -> u8 {
    59
}

/// Where `needle` first appears in `hay`, as `<[u8]>::windows` and
/// `position` find it.
pub open spec fn first_window(hay: Seq<u8>, needle: Seq<u8>) -> Option<int>
    decreases hay.len(),
{
    if hay.len() < needle.len() || hay.len() == 0 {
        None
    } else if hay.take(needle.len() as int) == needle {
        Some(0)
    } else {
        match first_window(hay.drop_first(), needle) {
            Some(i) => Some(i + 1),
            None => None,
        }
    }
}

/// Where a byte first appears, if it does.
pub open spec fn first_byte(hay: Seq<u8>, b: u8) -> Option<int>
    decreases hay.len(),
{
    if hay.len() == 0 {
        None
    } else if hay[0] == b {
        Some(0)
    } else {
        match first_byte(hay.drop_first(), b) {
            Some(i) => Some(i + 1),
            None => None,
        }
    }
}

/// The version a blob of bytes carries: the text between the first marker
/// and the first `;` after it, if it is UTF-8.
pub open spec fn version_in(bytes: Seq<u8>) -> Option<Seq<char>> {
    match first_window(bytes, marker_prefix()) {
        None => None,
        Some(i) => {
            let rest = bytes.skip(i + marker_prefix().len());
            match first_byte(rest, semicolon()) {
                None => None,
                Some(e) => if valid_utf8(rest.take(e)) {
                    Some(decode_utf8(rest.take(e)))
                } else {
                    None
                },
            }
        },
    }
}

/// The first window is the one with none before it.
proof fn lemma_first_window(hay: Seq<u8>, needle: Seq<u8>, i: int)
    requires
        needle.len() > 0,
        0 <= i,
        i <= hay.len() - needle.len() + 1 || i == 0,
        forall|j: int| 0 <= j < i ==> #[trigger] hay.subrange(j, j + needle.len()) != needle,
    ensures
        i + needle.len() <= hay.len() && hay.subrange(i, i + needle.len()) == needle
            ==> first_window(hay, needle) == Some(i),
        i + needle.len() > hay.len() ==> first_window(hay, needle) is None,
    decreases i,
{
    if hay.len() >= needle.len() {
        assert(hay.take(needle.len() as int) =~= hay.subrange(0, needle.len() as int));
        if i > 0 {
            let t = hay.drop_first();
            assert(hay.subrange(0int, 0int + needle.len()) != needle);
            assert forall|j: int| 0 <= j < i - 1 implies #[trigger] t.subrange(j, j + needle.len())
                != needle by {
                assert(t.subrange(j, j + needle.len()) =~= hay.subrange(j + 1, j + 1 + needle.len()));
            }
            if i + needle.len() <= hay.len() {
                assert(t.subrange(i - 1, i - 1 + needle.len()) =~= hay.subrange(
                    i,
                    i + needle.len(),
                ));
            }
            lemma_first_window(t, needle, i - 1);
        }
    }
}

/// The first appearance of a byte is the one with none before it.
proof fn lemma_first_byte(hay: Seq<u8>, b: u8, i: int)
    requires
        0 <= i <= hay.len(),
        forall|j: int| 0 <= j < i ==> #[trigger] hay[j] != b,
    ensures
        i < hay.len() && hay[i] == b ==> first_byte(hay, b) == Some(i),
        i == hay.len() ==> first_byte(hay, b) is None,
    decreases i,
{
    if i > 0 {
        let t = hay.drop_first();
        assert forall|j: int| 0 <= j < i - 1 implies #[trigger] t[j] != b by {
            assert(t[j] == hay[j + 1]);
        }
        if i < hay.len() {
            assert(t[i - 1] == hay[i]);
        }
        lemma_first_byte(t, b, i - 1);
    }
}

/// `core::str::from_utf8`, taken as an owned string.
///
/// The standard library documents that it succeeds exactly when the bytes
/// are valid UTF-8; the contract says that, and that the text is what the
/// bytes decode to.
#[verifier::external_body]
fn utf8_text(bytes: &[u8]) -> (r: Option<String>)
    ensures
        match r {
            Some(s) => valid_utf8(bytes@) && s@ == decode_utf8(bytes@),
            None => !valid_utf8(bytes@),
        },
{
    match core::str::from_utf8(bytes) {
        Ok(text) => Some(text.to_string()),
        Err(_) => None,
    }
}

/// The marker the built program carries: the prefix, the version, a `;`.
pub fn version_marker() -> (v: Vec<u8>)
    ensures
        v@ == marker_prefix() + version_bytes() + seq![semicolon()],
{
    let v: Vec<u8> = vec![87u8, 73, 78, 69, 83, 72, 77, 45, 86, 69, 82, 83, 73, 79, 78, 61, 48, 46, 49, 46, 48, 59];
    assert(v@ =~= marker_prefix() + version_bytes() + seq![semicolon()]);
    v
}

/// Whether `needle` stands in `hay` at `at`.
fn window_at(hay: &[u8], at: usize, needle: &[u8]) -> (b: bool)
    requires
        at + needle@.len() <= hay@.len(),
    ensures
        b == (hay@.subrange(at as int, at + needle@.len()) == needle@),
{
    let n = needle.len();
    let len = hay.len();
    for k in 0..n
        invariant
            n == needle@.len(),
            len == hay@.len(),
            at + n <= len,
            forall|j: int| 0 <= j < k ==> hay@[at + j] == needle@[j],
    {
        if hay[at + k] != needle[k] {
            assert(hay@.subrange(at as int, at + n)[k as int] != needle@[k as int]);
            return false;
        }
    }
    assert(hay@.subrange(at as int, at + n) =~= needle@);
    true
}

/// Where `needle` first stands in `hay`, if it does.
fn find_window(hay: &[u8], needle: &[u8]) -> (r: Option<usize>)
    requires
        needle@.len() > 0,
    ensures
        match r {
            Some(i) => first_window(hay@, needle@) == Some(i as int),
            None => first_window(hay@, needle@) is None,
        },
{
    let n = needle.len();
    let len = hay.len();
    if len < n {
        proof {
            lemma_first_window(hay@, needle@, 0);
        }
        return None;
    }
    let last = len - n;
    for i in 0..last + 1
        invariant
            n == needle@.len(),
            n > 0,
            len == hay@.len(),
            last == len - n,
            forall|j: int| 0 <= j < i ==> #[trigger] hay@.subrange(j, j + needle@.len()) != needle@,
    {
        if window_at(hay, i, needle) {
            proof {
                lemma_first_window(hay@, needle@, i as int);
            }
            return Some(i);
        }
    }
    proof {
        lemma_first_window(hay@, needle@, (last + 1) as int);
    }
    None
}

/// Where a byte first appears in `hay` at or after `from`, counted from the
/// start of `hay`.
fn find_byte_from(hay: &[u8], from: usize, b: u8) -> (r: Option<usize>)
    requires
        from <= hay@.len(),
    ensures
        match r {
            Some(i) => from <= i < hay@.len() && first_byte(hay@.skip(from as int), b) == Some(
                i - from,
            ),
            None => first_byte(hay@.skip(from as int), b) is None,
        },
{
    let ghost t = hay@.skip(from as int);
    let len = hay.len();
    for i in from..len
        invariant
            len == hay@.len(),
            from <= i <= len,
            t == hay@.skip(from as int),
            forall|j: int| 0 <= j < i - from ==> #[trigger] t[j] != b,
    {
        assert(t[i - from] == hay@[i as int]);
        if hay[i] == b {
            proof {
                lemma_first_byte(t, b, i - from);
            }
            return Some(i);
        }
    }
    proof {
        lemma_first_byte(t, b, len - from);
    }
    None
}

/// A copy of part of a byte run.
fn bytes_between(hay: &[u8], lo: usize, hi: usize) -> (r: Vec<u8>)
    requires
        lo <= hi <= hay@.len(),
    ensures
        r@ == hay@.subrange(lo as int, hi as int),
{
    let mut r: Vec<u8> = Vec::new();
    for i in lo..hi
        invariant
            lo <= i <= hi <= hay@.len(),
            r@ == hay@.subrange(lo as int, i as int),
    {
        r.push(hay[i]);
        assert(r@ =~= hay@.subrange(lo as int, i + 1));
    }
    r
}

/// Find the version inside the bytes of a `wineshm.exe`, without running
/// it: the text after the first marker, up to the `;` that ends it. A blob
/// with no marker, or a marker that never ends, reports nothing rather than
/// a guess.
pub fn version_in_binary(bytes: &[u8]) -> (r: Option<String>)
    ensures
        r.deep_view() == version_in(bytes@),
{
    let head: Vec<u8> = vec![87u8, 73, 78, 69, 83, 72, 77, 45, 86, 69, 82, 83, 73, 79, 78, 61];
    assert(head@ =~= marker_prefix());
    let at = match find_window(bytes, head.as_slice()) {
        Some(at) => at,
        None => return None,
    };
    proof {
        lemma_first_window_fits(bytes@, marker_prefix());
        assert(marker_prefix().len() == 16);
    }
    let len = bytes.len();
    assert(at + 16 <= len);
    let start = at + 16;
    let ghost rest = bytes@.skip(start as int);
    let end = match find_byte_from(bytes, start, 59u8) {
        Some(end) => end,
        None => return None,
    };
    let part = bytes_between(bytes, start, end);
    assert(part@ =~= rest.take(end - start));
    utf8_text(part.as_slice())
}

/// A window that is found fits inside what it was found in.
proof fn lemma_first_window_fits(hay: Seq<u8>, needle: Seq<u8>)
    ensures
        first_window(hay, needle) matches Some(i) ==> 0 <= i && i + needle.len() <= hay.len(),
    decreases hay.len(),
{
    if hay.len() >= needle.len() && hay.len() > 0 && hay.take(needle.len() as int) != needle {
        lemma_first_window_fits(hay.drop_first(), needle);
    }
}

/// **The marker says what the crate says**: the version read out of the
/// marker the built program carries is [`VERSION`].
pub proof fn lemma_marker_carries_the_version()
    ensures
        version_in(marker_prefix() + version_bytes() + seq![semicolon()]) == Some(VERSION@),
{
    let m = marker_prefix() + version_bytes() + seq![semicolon()];
    let p = marker_prefix();
    assert(m.take(16) =~= p);
    assert(m.len() == 22);
    assert(first_window(m, p) == Some(0int));
    let rest = m.skip(16);
    assert(rest =~= version_bytes() + seq![semicolon()]);
    lemma_first_byte(rest, semicolon(), 5);
    assert(rest.take(5) =~= version_bytes());
    reveal_strlit("0.1.0");
    let chars = seq!['0', '.', '1', '.', '0'];
    assert(is_ascii_chars(chars));
    is_ascii_chars_encode_utf8(chars);
    assert(encode_utf8(chars) =~= version_bytes());
    encode_utf8_valid_utf8(chars);
    encode_utf8_decode_utf8(chars);
    assert(VERSION@ =~= chars);
}

} // verus!
