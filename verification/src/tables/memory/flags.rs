//! The status bits of a memory.

use vstd::prelude::*;

verus! {

/// The memory is active; without it the memory is tombstoned.
pub const ACTIVE: u32 = 1;

/// The vector was zeroed.
pub const HARD_FORGOTTEN: u32 = 2;

/// The memory is not evicted by itself.
pub const PINNED: u32 = 4;

/// The vector belongs to another model.
pub const STALE: u32 = 8;

/// Bits without a meaning.
pub const RESERVED_MASK: u32 = 0xffff_fff0;

} // verus!
