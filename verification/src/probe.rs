//! Asking how big somebody else's block actually is.
//!
//! A section can be mapped whole by asking for zero bytes, and the address
//! space that took is reported in whole pages. A 2048-byte section and a
//! 4096-byte one both take one 4 KiB page, so the honest answer is an
//! interval, and this module states it as one rather than rounding it to a
//! number that would look like a measurement.

use crate::text::{decimal, push_decimal, push_str};
use vstd::prelude::*;

verus! {

/// The granularity Windows reports mapped address space in: four kilobytes,
/// the page size a view's length is rounded to.
pub const PAGE_GRANULARITY: usize = 4096;

/// `region - by`, or nothing.
pub open spec fn less(region: usize, by: int) -> nat {
    if region >= by { (region - by) as nat } else { 0 }
}

/// The interval a section's true size must lie in: more than the first
/// number and at most the second.
pub open spec fn size_range_of(region: usize, granularity: usize) -> (nat, nat) {
    if granularity == 0 {
        (less(region, 1), region as nat)
    } else {
        (less(region, granularity as int), region as nat)
    }
}

/// What a look at a published section found.
#[derive(Debug, Clone, PartialEq, Eq)]
pub struct Found {
    /// The name that was asked about.
    pub name: String,
    /// How much address space the whole section took.
    pub region: usize,
}

impl Found {
    /// The range the real size must lie in, as `(more_than, at_most)`.
    pub fn size_range(&self) -> (r: (usize, usize))
        ensures
            (r.0 as nat, r.1 as nat) == size_range_of(self.region, PAGE_GRANULARITY),
    {
        size_range(self.region, PAGE_GRANULARITY)
    }

    /// The range in words, for somebody deciding what to type: both ends,
    /// except when the bottom is nothing.
    pub fn described(&self) -> (s: String)
        ensures
            s@ == (if size_range_of(self.region, PAGE_GRANULARITY).0 == 0 {
                "at most "@ + decimal(self.region as nat) + " bytes"@
            } else {
                "more than "@ + decimal(size_range_of(self.region, PAGE_GRANULARITY).0)
                    + " and at most "@ + decimal(self.region as nat) + " bytes"@
            }),
    {
        let (over, upto) = self.size_range();
        let mut s = String::new();
        if over == 0 {
            push_str(&mut s, "at most ");
            push_decimal(&mut s, upto as u128);
            push_str(&mut s, " bytes");
        } else {
            push_str(&mut s, "more than ");
            push_decimal(&mut s, over as u128);
            push_str(&mut s, " and at most ");
            push_decimal(&mut s, upto as u128);
            push_str(&mut s, " bytes");
        }
        proof {
            assert(s@ =~= (if over == 0 {
                "at most "@ + decimal(self.region as nat) + " bytes"@
            } else {
                "more than "@ + decimal(over as nat) + " and at most "@ + decimal(
                    self.region as nat,
                ) + " bytes"@
            }));
        }
        s
    }
}

/// The interval a section's true size must lie in, given the address space
/// it took: `(region - granularity, region]`, the bottom stopping at zero.
/// A granularity of zero is taken as one byte rather than divided by.
pub fn size_range(region: usize, granularity: usize) -> (r: (usize, usize))
    ensures
        (r.0 as nat, r.1 as nat) == size_range_of(region, granularity),
{
    if granularity == 0 {
        let over = if region >= 1 { region - 1 } else { 0 };
        return (over, region);
    }
    let over = if region >= granularity { region - granularity } else { 0 };
    (over, region)
}

/// Whether a size somebody typed is consistent with what was measured:
/// inside the interval, not equal to anything.
pub fn fits(asked: usize, region: usize, granularity: usize) -> (b: bool)
    ensures
        b == (asked > size_range_of(region, granularity).0 && asked <= size_range_of(
            region,
            granularity,
        ).1),
{
    let (over, upto) = size_range(region, granularity);
    asked > over && asked <= upto
}

} // verus!
