//! Who derived an edge.

use vstd::prelude::*;

verus! {

pub const CLIENT: u8 = 0;

pub const CONSOLIDATION_WORKER: u8 = 1;

pub const SIMILARITY_WORKER: u8 = 2;

/// Links memories of one context that follow each other.
pub const TEMPORAL_WORKER: u8 = 3;

/// Links causes to effects.
pub const CAUSAL_WORKER: u8 = 4;

} // verus!
