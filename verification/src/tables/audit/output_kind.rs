//! What a run produced.

use vstd::prelude::*;

verus! {

pub const ENTITY: u8 = 1;

pub const STATEMENT: u8 = 2;

pub const RELATION: u8 = 3;

pub const ENTITY_MENTION: u8 = 4;

} // verus!
