//! Packets of the `socket.io` protocol.
use vstd::prelude::*;

use crate::engineio::payload;
use crate::socketio::value;
use crate::socketio::value::{Value, ValueView};

verus! {

#[derive(Copy, Clone, Eq, PartialEq, Debug, Structural)]
pub enum PacketType {
    Connect,
    Disconnect,
    Event,
    Ack,
    ConnectError,
    BinaryEvent,
    BinaryAck,
}

/// The number of an acknowledgement that is asked for.
pub type AckId = usize;

/// A packet of the `socket.io` protocol.
#[derive(Debug, PartialEq, Eq)]
pub struct Packet {
    pub ptype: PacketType,
    pub nsp: String,
    pub data: Option<Value>,
    pub id: Option<AckId>,
    pub attachment_count: u8,
    pub attachments: Option<Vec<Vec<u8>>>,
}

/// The value of a [`Packet`].
pub struct PacketView {
    pub ptype: PacketType,
    pub nsp: Seq<char>,
    pub data: Option<ValueView>,
    pub id: Option<AckId>,
    pub attachment_count: u8,
    pub attachments: Option<Seq<Seq<u8>>>,
}

/// The values of optional attachments.
pub open spec fn attachment_views(attachments: Option<Vec<Vec<u8>>>) -> Option<Seq<Seq<u8>>> {
    match attachments {
        Some(attachments) => Some(payload::byte_views(attachments@)),
        None => None,
    }
}

impl View for Packet {
    type V = PacketView;

    open spec fn view(&self) -> PacketView {
        PacketView {
            ptype: self.ptype,
            nsp: self.nsp@,
            data: value::value_view(self.data),
            id: self.id,
            attachment_count: self.attachment_count,
            attachments: attachment_views(self.attachments),
        }
    }
}

impl Packet {
    pub fn new(
        ptype: PacketType,
        nsp: String,
        data: Option<Value>,
        id: Option<AckId>,
        attachment_count: u8,
        attachments: Option<Vec<Vec<u8>>>,
    ) -> (packet: Self)
        ensures
            packet@ == (PacketView {
                ptype,
                nsp: nsp@,
                data: value::value_view(data),
                id,
                attachment_count,
                attachments: attachment_views(attachments),
            }),
    {
        Packet { ptype, nsp, data, id, attachment_count, attachments }
    }
}

}
