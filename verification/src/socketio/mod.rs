//! The `socket.io` protocol, which runs over `engine.io`.

pub mod client;
pub mod clients;
pub mod collect;
pub mod decode;
pub mod error;
pub mod event;
pub mod packet;
pub mod payload;
pub mod raw;
pub mod rooms;
pub mod server;
pub mod sid;
pub mod socket;
pub mod tables;
pub mod value;
