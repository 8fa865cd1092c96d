//! Vectors of the questions that a memory answers.

use vstd::prelude::*;

verus! {

/// The bytes of a question's vector: 384 numbers of 4 bytes.
pub const HYPE_VECTOR_BYTES: usize = 1536;

} // verus!
