//! Whether a failure is worth a retry.

use vstd::prelude::*;

verus! {

/// Not known; a retry is worth it.
pub const UNCLASSIFIED: u8 = 0;

/// The same call may succeed later.
pub const TRANSIENT: u8 = 1;

/// The call cannot succeed as it is.
pub const PERMANENT: u8 = 2;

} // verus!
