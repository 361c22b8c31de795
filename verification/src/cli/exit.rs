//! Process exit codes, documented for humans and agents alike.

use vstd::prelude::*;

verus! {

/// Operation completed successfully.
pub const OK: i32 = 0;

/// Invalid usage, rejected plan or I/O failure.
pub const ERROR: i32 = 1;

/// `check` found at least one finding.
pub const BROKEN: i32 = 2;

} // verus!
