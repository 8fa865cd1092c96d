//! How the extraction of a memory ended.

use vstd::prelude::*;

verus! {

/// No tier failed.
pub const SUCCESS: u8 = 1;

/// A tier failed; what the others found was kept.
pub const PARTIAL_FAILURE: u8 = 2;

/// Nothing was kept.
pub const FAILURE: u8 = 3;

/// No tier was to run.
pub const SKIPPED: u8 = 4;

} // verus!
