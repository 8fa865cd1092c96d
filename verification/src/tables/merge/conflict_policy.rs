//! How a disagreement is to be settled.

use vstd::prelude::*;

verus! {

pub const SURVIVOR_WINS: u8 = 1;

pub const MERGED_WINS: u8 = 2;

pub const NEWEST_WINS: u8 = 3;

pub const CONCAT_TEXT: u8 = 4;

pub const REJECT_MERGE: u8 = 5;

} // verus!
