//! The tunnel protocol.

pub mod header;
pub mod vmess;
