//! Process exit codes shared by every command.
use vstd::prelude::*;

verus! {

/// No failing check.
pub const OK: u8 = 0;

/// At least one failing check.
pub const FAIL: u8 = 1;

} // verus!
