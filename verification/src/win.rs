//! What the Win32 half decides, apart from the calls it makes.
//!
//! Creating sections and mapping views is the program's part; the size a
//! section is created with, and what one look at a mirrored page does, are
//! here.

use crate::pacing::{Pacing, backed_off};
use crate::shadow::{Shadow, look_at};
use crate::time::Duration;
use vstd::prelude::*;

verus! {

/// Two to the thirty-second.
pub const HALF: u64 = 0x1_0000_0000;

/// A size, split the way `CreateFileMappingW` wants it: the high and the low
/// thirty-two bits.
pub fn split_size(bytes: usize) -> (r: (u32, u32))
    ensures
        r.0 == bytes as nat / HALF as nat,
        r.1 == bytes as nat % HALF as nat,
        r.0 * HALF + r.1 == bytes,
{
    let b = bytes as u64;
    let high = b / HALF;
    let low = b % HALF;
    assert(high <= u32::MAX) by (nonlinear_arith)
        requires
            high == b / HALF,
            HALF == 0x1_0000_0000u64,
    ;
    (high as u32, low as u32)
}

/// One look at a mirrored page: compare what the writer's section holds now
/// with what was last seen, and take the next wait from the pace. Returns
/// whether it changed — so the caller copies it — and how long to wait.
pub fn tick(shadow: &mut Shadow, pacing: &mut Pacing, fresh: &[u8]) -> (r: (bool, Duration))
    requires
        old(shadow)@.looks < u64::MAX,
        old(shadow)@.last != fresh@ ==> old(shadow)@.bytes_copied + fresh@.len() <= u64::MAX,
    ensures
        r.0 == (old(shadow)@.last != fresh@),
        final(shadow)@.last == fresh@,
        final(shadow)@.looks == old(shadow)@.looks + 1,
        final(shadow)@ == look_at(old(shadow)@, fresh@),
        final(pacing).floor() == old(pacing).floor(),
        final(pacing).ceiling() == old(pacing).ceiling(),
        final(pacing).pace() == (if r.0 {
            old(pacing).floor() as int
        } else {
            backed_off(old(pacing).pace(), old(pacing).ceiling())
        }),
        r.1@ == final(pacing).pace(),
{
    let changed = shadow.changed(fresh);
    let wait = pacing.after(changed);
    (changed, wait)
}

} // verus!
