//! Status codes: the HTTP numbers where the meaning is the same.

use vstd::prelude::*;

verus! {

pub const OK: u64 = 200;

/// Subscription snapshot complete.
pub const NO_CONTENT: u64 = 204;

/// The cursor condition is satisfied.
pub const UNCHANGED: u64 = 304;

pub const NOT_FOUND: u64 = 404;

/// The pinned hash does not match; a fresh record is attached.
pub const CONFLICT: u64 = 409;

pub const PRECONDITION_FAILED: u64 = 412;

pub const RANGE_INVALID: u64 = 416;

pub const RATE_LIMITED: u64 = 429;

pub const INTERNAL: u64 = 500;

pub const UNSUPPORTED: u64 = 501;

} // verus!
