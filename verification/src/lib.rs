//! The `engine.io` and `socket.io` protocols, for clients and servers: packets and payloads, the
//! states of connections, rooms and callbacks. What is to be sent, told or called comes back as a
//! value; sockets, timers and tasks are left to the caller.

pub mod address;
pub mod binary;
pub mod engineio;
pub mod socketio;
pub mod table;
pub mod text;
