//! The console control events, named here rather than imported, so that the
//! rule about which of them means "stop" is a function of ordinary numbers.

use vstd::prelude::*;

verus! {

/// Ctrl-C.
pub const CTRL_C: u32 = 0;

/// Ctrl-Break.
pub const CTRL_BREAK: u32 = 1;

/// The window was closed.
pub const CLOSE: u32 = 2;

/// The user is logging off.
pub const LOGOFF: u32 = 5;

/// The machine is shutting down.
pub const SHUTDOWN: u32 = 6;

} // verus!
