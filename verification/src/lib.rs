//! The logic of a VMess proxy that runs as an edge worker: the sealed request header and the answer
//! to it, the course of a session, the text of proxy addresses, and the links that clients import.

pub mod common;
pub mod config;
pub mod error;
pub mod link;
pub mod proxy;
pub mod tunnel;
