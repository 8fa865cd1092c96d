//! The status bits of an entity.

use vstd::prelude::*;

verus! {

/// The entity was removed; its row stays.
pub const TOMBSTONED: u32 = 1;

/// The entity was merged into another.
pub const MERGED: u32 = 2;

/// Bits without a meaning.
pub const RESERVED_MASK: u32 = 0xffff_fffc;

} // verus!
