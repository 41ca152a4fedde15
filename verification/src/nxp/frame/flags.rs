//! Frame flag bits.

use vstd::prelude::*;

verus! {

/// Last frame of this stream.
pub const END_STREAM: u8 = 0x01;

/// Headers block complete.
pub const END_HEADERS: u8 = 0x02;

/// Reset the stream.
pub const INTERRUPT: u8 = 0x04;

/// First frame of a stream.
pub const SYN: u8 = 0x08;

} // verus!
