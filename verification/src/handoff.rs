//! Letting the game hold the section, and leaving.
//!
//! A named section in Wine is a counted object: once the game has mapped the
//! section this program created, the game's handle keeps it alive and its
//! stores keep landing in the file. Handing over is only allowed when
//! somebody is left watching, because when the game exits the file stays,
//! holding the last frame for ever.

use vstd::prelude::*;

verus! {

/// What this program's exit code means when it has handed the section over.
///
/// Distinct from 0 (success), 1 (the ordinary failure) and 2 (a bad command
/// line), because the Linux half reads it from `wait` and has to be sure.
pub const HANDED_OVER: u8 = 3;

/// Whether the section may be left in the game's hands: only when every page
/// is owned, a heartbeat is named, and the game has been seen writing.
pub fn may_hand_over(all_owned: bool, heartbeat_named: bool, has_stirred: bool) -> (b: bool)
    ensures
        b == (all_owned && heartbeat_named && has_stirred),
{
    all_owned && heartbeat_named && has_stirred
}

} // verus!
