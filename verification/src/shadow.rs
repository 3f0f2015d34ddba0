//! Noticing that nothing happened, so that nothing is done about it.
//!
//! When a page has to be copied rather than owned, comparing first costs a
//! read, and skipping the copy saves the write and the page fault that
//! dirties the destination. Most looks find nothing: a static block is
//! written once a session, a paused car writes nothing anywhere. The
//! counters here are what let the program say how much was saved.

use vstd::prelude::*;

verus! {

/// A shadow as values: the bytes last seen and the counters — looks,
/// copies, bytes copied, and the bytes every look saw, which is what a copier
/// that copied on every look would have written.
pub struct ShadowView {
    pub last: Seq<u8>,
    pub looks: nat,
    pub copies: nat,
    pub bytes_copied: nat,
    pub looked: nat,
}

/// `n`, or the top of `u64` if it is past it.
pub open spec fn capped(n: int) -> nat {
    if n > u64::MAX { u64::MAX as nat } else if n < 0 { 0 } else { n as nat }
}

/// What one look at `fresh` does to a shadow: it is counted, and its length
/// added to what every look saw (stopping at the top of `u64`); when the
/// bytes differ from the last ones they are taken and the copy counted.
pub open spec fn look_at(v: ShadowView, fresh: Seq<u8>) -> ShadowView {
    let looked = capped((v.looked + fresh.len()) as int);
    if v.last == fresh {
        ShadowView { looks: v.looks + 1, looked, ..v }
    } else {
        ShadowView {
            last: fresh,
            looks: v.looks + 1,
            copies: v.copies + 1,
            bytes_copied: v.bytes_copied + fresh.len(),
            looked,
        }
    }
}

/// A shadow after a run of looks, in order.
pub open spec fn after_looks(v: ShadowView, looks: Seq<Seq<u8>>) -> ShadowView
    decreases looks.len(),
{
    if looks.len() == 0 {
        v
    } else {
        after_looks(look_at(v, looks[0]), looks.drop_first())
    }
}

/// The bytes a run of looks saw, all together.
pub open spec fn total_len(looks: Seq<Seq<u8>>) -> nat
    decreases looks.len(),
{
    if looks.len() == 0 {
        0
    } else {
        looks[0].len() + total_len(looks.drop_first())
    }
}

/// **What a copier that copied on every look would have written is the sum
/// of what every look saw, and the bytes actually copied never exceed it**:
/// over any run of looks whose lengths fit a `u64` together, from any shadow
/// whose copies so far are within what it has seen.
pub proof fn lemma_copying_never_beats_always_copying(v: ShadowView, looks: Seq<Seq<u8>>)
    requires
        v.bytes_copied <= v.looked,
        v.looked + total_len(looks) <= u64::MAX,
    ensures
        after_looks(v, looks).looked == v.looked + total_len(looks),
        after_looks(v, looks).bytes_copied <= after_looks(v, looks).looked,
        after_looks(v, looks).looks == v.looks + looks.len(),
    decreases looks.len(),
{
    if looks.len() > 0 {
        lemma_copying_never_beats_always_copying(look_at(v, looks[0]), looks.drop_first());
    }
}

/// The last bytes seen for one page, and what has been done about them.
#[derive(Debug)]
pub struct Shadow {
    last: Vec<u8>,
    looks: u64,
    copies: u64,
    bytes_copied: u64,
    looked: u64,
}

impl View for Shadow {
    type V = ShadowView;

    closed spec fn view(&self) -> ShadowView {
        ShadowView {
            last: self.last@,
            looks: self.looks as nat,
            copies: self.copies as nat,
            bytes_copied: self.bytes_copied as nat,
            looked: self.looked as nat,
        }
    }
}

impl Clone for Shadow {
    fn clone(&self) -> (s: Shadow)
        ensures
            s@ == self@,
    {
        proof {
            use_type_invariant(self);
        }
        Shadow {
            last: copy_of(self.last.as_slice()),
            looks: self.looks,
            copies: self.copies,
            bytes_copied: self.bytes_copied,
            looked: self.looked,
        }
    }
}

/// A vector holding the same bytes as a slice.
fn copy_of(fresh: &[u8]) -> (v: Vec<u8>)
    ensures
        v@ == fresh@,
{
    let mut v: Vec<u8> = Vec::new();
    let n = fresh.len();
    for i in 0..n
        invariant
            n == fresh@.len(),
            v@ == fresh@.take(i as int),
    {
        v.push(fresh[i]);
        assert(v@ =~= fresh@.take(i + 1));
    }
    assert(v@ =~= fresh@);
    v
}

/// Whether two byte runs are the same, stopping at the first that differs.
fn same_bytes(a: &[u8], b: &[u8]) -> (r: bool)
    ensures
        r == (a@ == b@),
{
    if a.len() != b.len() {
        return false;
    }
    let n = a.len();
    for i in 0..n
        invariant
            n == a@.len(),
            n == b@.len(),
            forall|j: int| 0 <= j < i ==> a@[j] == b@[j],
    {
        if a[i] != b[i] {
            return false;
        }
    }
    assert(a@ =~= b@);
    true
}

impl Shadow {
    #[verifier::type_invariant]
    spec fn counts_add_up(self) -> bool {
        self.copies <= self.looks && self.bytes_copied <= self.looked
    }

    /// A shadow for a page of this size, starting out as zeroes: a freshly
    /// prepared page is zeroes, so a first look at a page nobody has written
    /// finds no change and costs no copy.
    pub fn new(bytes: usize) -> (s: Shadow)
        ensures
            s@.last == Seq::new(bytes as nat, |i: int| 0u8),
            s@.looks == 0,
            s@.copies == 0,
            s@.bytes_copied == 0,
            s@.looked == 0,
    {
        let mut last: Vec<u8> = Vec::new();
        for i in 0..bytes
            invariant
                last@ == Seq::new(i as nat, |j: int| 0u8),
        {
            last.push(0);
            assert(last@ =~= Seq::new((i + 1) as nat, |j: int| 0u8));
        }
        Shadow { last, looks: 0, copies: 0, bytes_copied: 0, looked: 0 }
    }

    /// Look at what is there now; `true` when it differs from last time, in
    /// which case the shadow takes the new bytes — a new length included,
    /// because a writer that restarted with another build must be followed.
    pub fn changed(&mut self, fresh: &[u8]) -> (c: bool)
        requires
            old(self)@.looks < u64::MAX,
            old(self)@.last != fresh@ ==> old(self)@.bytes_copied + fresh@.len() <= u64::MAX,
        ensures
            c == (old(self)@.last != fresh@),
            final(self)@ == look_at(old(self)@, fresh@),
    {
        proof {
            use_type_invariant(&*self);
        }
        let len = fresh.len() as u64;
        self.looked = if self.looked > u64::MAX - len {
            u64::MAX
        } else {
            self.looked + len
        };
        self.looks = self.looks + 1;
        if same_bytes(self.last.as_slice(), fresh) {
            return false;
        }
        self.last = copy_of(fresh);
        self.copies = self.copies + 1;
        self.bytes_copied = self.bytes_copied + fresh.len() as u64;
        true
    }

    /// What was there at the last look.
    pub fn seen(&self) -> (s: &[u8])
        ensures
            s@ == self@.last,
    {
        self.last.as_slice()
    }

    /// How many times this page has been looked at.
    pub fn looks(&self) -> (n: u64)
        ensures
            n == self@.looks,
    {
        self.looks
    }

    /// How many of those looks found a change worth copying; never more than
    /// the looks.
    pub fn copies(&self) -> (n: u64)
        ensures
            n == self@.copies,
            n <= self@.looks,
    {
        proof {
            use_type_invariant(self);
        }
        self.copies
    }

    /// How many bytes have actually been written out.
    pub fn bytes_copied(&self) -> (n: u64)
        ensures
            n == self@.bytes_copied,
    {
        self.bytes_copied
    }

    /// How many bytes a fixed-rate copier would have written over the same
    /// looks — the length of every look, added up — for the line that
    /// compares the two. Never less than what was actually copied.
    pub fn bytes_if_always_copied(&self) -> (n: u64)
        ensures
            n == self@.looked,
            self@.bytes_copied <= n,
    {
        proof {
            use_type_invariant(self);
        }
        self.looked
    }
}

} // verus!
