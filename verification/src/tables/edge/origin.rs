//! How an edge came to be.

use vstd::prelude::*;

verus! {

pub const EXPLICIT: u8 = 0;

pub const AUTO_DERIVED: u8 = 1;

} // verus!
