//! How a run ended.

use vstd::prelude::*;

verus! {

pub const SUCCESS: u8 = 1;

pub const FAILURE: u8 = 2;

pub const SKIPPED_BUDGET: u8 = 3;

pub const SKIPPED_FILTER: u8 = 4;

pub const SKIPPED_DUPLICATE: u8 = 5;

pub const SKIPPED_DISABLED: u8 = 6;

} // verus!
