//! The outcomes of a contradiction audit.

use vstd::prelude::*;

verus! {

/// At least two current facts with different objects coexist.
pub const PENDING: u8 = 0;

/// One side was superseded, retracted or tombstoned, and at most one object is
/// left.
pub const RESOLVED: u8 = 1;

} // verus!
