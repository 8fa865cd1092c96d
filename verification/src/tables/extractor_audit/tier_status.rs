//! What became of a tier.

use vstd::prelude::*;

verus! {

/// It ran.
pub const RAN: u8 = 1;

/// It was left out.
pub const SKIPPED: u8 = 2;

/// It failed.
pub const FAILED: u8 = 3;

/// There is no such tier.
pub const ABSENT: u8 = 4;

} // verus!
