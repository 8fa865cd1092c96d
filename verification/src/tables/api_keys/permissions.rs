//! What a key may do.

use vstd::prelude::*;

verus! {

/// May encode memories.
pub const ENCODE: u32 = 1;

/// May recall, query, plan and reason.
pub const RECALL: u32 = 2;

/// May forget memories.
pub const FORGET: u32 = 4;

/// May link and unlink.
pub const LINK: u32 = 8;

/// May upload schemas.
pub const SCHEMA_UPLOAD: u32 = 16;

/// May administer, which includes issuing and revoking keys.
pub const ADMIN: u32 = 32;

/// Reading, writing and linking.
pub const STANDARD_AGENT: u32 = 15;

/// Reading.
pub const READ_ONLY: u32 = 2;

/// Everything but administering.
pub const READ_WRITE: u32 = 31;

/// Everything.
pub const FULL: u32 = 63;

} // verus!
