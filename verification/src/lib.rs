//! Nexus: an experimental alternative web.

pub mod browser;
pub mod byte_map;
pub mod bytes;
pub mod cli;
pub mod content;
pub mod dht;
pub mod digest;
pub mod hex_text;
pub mod identity;
pub mod json;
pub mod keys;
pub mod nxp;
pub mod protocol;
pub mod renderer;
pub mod resolver;
pub mod server;
pub mod storage;
pub mod table;
pub mod text;
pub mod transport;
pub mod webvm;
