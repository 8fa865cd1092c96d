//! Who merged.

use vstd::prelude::*;

verus! {

pub const SYSTEM: u8 = 0;

pub const AGENT: u8 = 1;

} // verus!
