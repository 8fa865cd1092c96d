//! How a name was resolved.

use vstd::prelude::*;

verus! {

pub const TIER_1_EXACT: u8 = 0;

pub const TIER_2_FUZZY: u8 = 1;

pub const TIER_3_EMBEDDING: u8 = 2;

pub const TIER_4_LLM: u8 = 3;

pub const CREATED: u8 = 4;

pub const AMBIGUOUS: u8 = 5;

pub const NOT_RESOLVED: u8 = 6;

} // verus!
