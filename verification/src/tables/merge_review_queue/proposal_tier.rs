//! What made a proposal.

use vstd::prelude::*;

verus! {

pub const EXACT: u8 = 1;

pub const ALIAS: u8 = 2;

pub const EMBEDDING: u8 = 3;

pub const LLM: u8 = 4;

} // verus!
