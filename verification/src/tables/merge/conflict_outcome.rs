//! How a disagreement was settled.

use vstd::prelude::*;

verus! {

pub const KEPT_SURVIVOR: u8 = 1;

pub const REPLACED_WITH_MERGED: u8 = 2;

pub const CONCATENATED: u8 = 3;

} // verus!
