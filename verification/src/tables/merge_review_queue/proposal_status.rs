//! What became of a proposal.

use vstd::prelude::*;

verus! {

/// Not decided.
pub const PENDING: u8 = 0;

/// Merged, because the two became alike enough.
pub const AUTO_APPLIED: u8 = 1;

/// Merged by an operator.
pub const APPROVED: u8 = 2;

/// Rejected by an operator, or because the two became too unlike.
pub const REJECTED: u8 = 3;

/// Pending for too long.
pub const EXPIRED: u8 = 4;

} // verus!
