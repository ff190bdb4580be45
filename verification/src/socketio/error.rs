//! What can go wrong in the `socket.io` protocol.
use vstd::prelude::*;

verus! {

/// An error of the `socket.io` protocol.
#[derive(Clone, Copy, Debug, PartialEq, Eq, Structural)]
#[non_exhaustive]
pub enum Error {
    /// A packet refers to what is not there.
    InvalidPacket(),
    /// An attachment came in a packet of the given `engine.io` type.
    InvalidAttachmentPacketType(u8),
    /// Something was asked of a connection that is not open.
    IllegalActionBeforeOpen(),
    /// An address is no URL, or is too long.
    InvalidUrl(),
}

}
