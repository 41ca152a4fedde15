//! NXP binary framing: ten-byte headers, big-endian integers, LEB128
//! varints inside payloads, and signed content-addressed resource records.
//!
//! - `wire`: bounds-checked reader and writer over bytes
//! - `frame`: frame header, frame types, the payload of a fetch
//! - `record`: resource records and the bytes that are signed
//! - `codec`: frames off a stream that arrives piece by piece, and onto one

pub mod codec;
pub mod frame;
pub mod record;
pub mod wire;
