//! The requests whose responses are kept.

use vstd::prelude::*;

verus! {

pub const UNKNOWN: u8 = 0;

pub const ENCODE: u8 = 1;

pub const FORGET: u8 = 2;

pub const LINK: u8 = 3;

pub const UNLINK: u8 = 4;

pub const UPDATE_KIND: u8 = 5;

pub const UPDATE_CONTEXT: u8 = 6;

pub const TXN_BEGIN: u8 = 7;

pub const TXN_COMMIT: u8 = 8;

} // verus!
