//! The `engine.io` protocol.

pub mod client;
pub mod error;
pub mod header;
pub mod http;
pub mod packet;
pub mod payload;
pub mod polling;
pub mod response;
pub mod server;
pub mod socket;
pub mod transports;
