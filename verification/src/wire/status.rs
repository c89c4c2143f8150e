//! The status that a reply carries.

use vstd::prelude::*;

verus! {

/// Done; the payload is the result.
pub const OK: u16 = 0;

/// The badge does not allow the request.
pub const ACCESS: u16 = 1;

/// The request makes no sense, or its reply has no room.
pub const INVALID: u16 = 2;

/// The operation was allowed and tried, and failed.
pub const FAILED: u16 = 3;

} // verus!
