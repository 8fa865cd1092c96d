//! How a memory mentions an entity.

use vstd::prelude::*;

verus! {

/// As what a statement is about.
pub const SUBJECT_OF: u8 = 0;

/// As what a statement says of another.
pub const OBJECT_OF: u8 = 1;

/// In its text.
pub const IN_TEXT: u8 = 2;

} // verus!
