//! A connection to a namespace: its state, and what each packet makes it do.
use std::sync::Arc;

use vstd::prelude::*;
use vstd::string::*;

use crate::engineio::server;
use crate::socketio::decode;
use crate::socketio::error::Error;
use crate::socketio::event;
use crate::socketio::event::{Event, EventView};
use crate::socketio::packet;
use crate::socketio::packet::{AckId, Packet, PacketType, PacketView};
use crate::socketio::payload;
use crate::socketio::payload::{Payload, PayloadView};
use crate::socketio::raw;
use crate::socketio::raw::RawSocket;
use crate::socketio::tables;
use crate::socketio::tables::Callbacks;
use crate::socketio::value;
use crate::socketio::value::{Value, ValueView};
use crate::text;

verus! {

/// An acknowledgement that is waited for.
#[derive(Copy, Clone, Debug, PartialEq, Eq, Structural)]
pub struct Ack {
    pub id: AckId,
    /// When it was asked for.
    pub time_started: u64,
    /// How long it is waited for.
    pub timeout: u64,
    /// The callback that it is meant for.
    pub callback: u64,
}

/// A call of a callback.
#[derive(Debug)]
pub struct Call {
    pub callback: u64,
    pub payload: Option<Payload>,
    /// The acknowledgement that the other end asks for.
    pub need_ack: Option<AckId>,
}

/// The value of a [`Call`].
pub struct CallView {
    pub callback: u64,
    pub payload: Option<PayloadView>,
    pub need_ack: Option<AckId>,
}

impl View for Call {
    type V = CallView;

    open spec fn view(&self) -> CallView {
        CallView {
            callback: self.callback,
            payload: payload::payload_view(self.payload),
            need_ack: self.need_ack,
        }
    }
}

/// The value of an optional call.
pub open spec fn call_view(call: Option<Call>) -> Option<CallView> {
    match call {
        Some(call) => Some(call@),
        None => None,
    }
}

/// A connection to a namespace. Both ends use it.
#[derive(Debug)]
pub struct Socket {
    nsp: String,
    on: Arc<Callbacks>,
    outstanding_acks: Vec<Ack>,
    is_connected: bool,
    next_ack_id: AckId,
}

/// The value of a [`Socket`].
pub struct SocketView {
    pub nsp: Seq<char>,
    /// The callbacks by the keys of their events.
    pub on: Map<(u8, Seq<char>), u64>,
    /// The acknowledgements that are waited for.
    pub acks: Seq<Ack>,
    pub connected: bool,
    /// The number of the next acknowledgement to be asked for.
    pub next_ack_id: AckId,
}

impl View for Socket {
    type V = SocketView;

    closed spec fn view(&self) -> SocketView {
        SocketView {
            nsp: self.nsp@,
            on: tables::callbacks_in(*self.on),
            acks: self.outstanding_acks@,
            connected: self.is_connected,
            next_ack_id: self.next_ack_id,
        }
    }
}

/// Whether no number is waited for twice, and none is still to be given out.
pub open spec fn acks_are_distinct(acks: Seq<Ack>, next_ack_id: AckId) -> bool {
    &&& forall|i: int, j: int|
        0 <= i < j < acks.len() ==> (#[trigger] acks[i]).id != (#[trigger] acks[j]).id
    &&& forall|i: int| 0 <= i < acks.len() ==> (#[trigger] acks[i]).id < next_ack_id
}

/// The callback of an event.
pub open spec fn callback_of(s: SocketView, event: EventView) -> Option<u64> {
    if s.on.dom().contains(tables::event_key(event)) {
        Some(s.on[tables::event_key(event)])
    } else {
        None
    }
}

/// The call that an event makes, if it has a callback.
pub open spec fn called(
    s: SocketView,
    event: EventView,
    payload: Option<PayloadView>,
    need_ack: Option<AckId>,
) -> Option<CallView> {
    match callback_of(s, event) {
        Some(callback) => Some(CallView { callback, payload, need_ack }),
        None => None,
    }
}

/// Where among acknowledgements that are waited for one of a number stands.
pub open spec fn is_ack_at(acks: Seq<Ack>, i: int, id: AckId) -> bool {
    0 <= i < acks.len() && acks[i].id == id
}

/// Whether an acknowledgement of a number is waited for.
pub open spec fn is_awaited(acks: Seq<Ack>, id: AckId) -> bool {
    exists|i: int| is_ack_at(acks, i, id)
}

/// The place of the acknowledgement of a number among those that are waited for.
pub open spec fn ack_place(acks: Seq<Ack>, id: AckId) -> int {
    choose|i: int| is_ack_at(acks, i, id)
}

/// The payload of an acknowledgement.
pub open spec fn ack_payload(p: PacketView, is_binary: bool) -> Option<PayloadView> {
    if is_binary {
        decode::binary_payload(p.data, p.attachments, false)
    } else {
        decode::event_payload(p.data, false)
    }
}

/// A connection after an acknowledgement came: it is no longer waited for.
pub open spec fn after_ack(s: SocketView, p: PacketView) -> SocketView {
    match p.id {
        Some(id) if is_awaited(s.acks, id) => SocketView {
            acks: s.acks.remove(ack_place(s.acks, id)),
            ..s
        },
        _ => s,
    }
}

/// The call that an acknowledgement makes: that of its callback, if it is waited for and in time.
pub open spec fn on_ack(s: SocketView, p: PacketView, is_binary: bool, now: u64) -> Option<CallView> {
    match p.id {
        Some(id) if is_awaited(s.acks, id) => {
            let ack = s.acks[ack_place(s.acks, id)];
            if server::elapsed(ack.time_started, now) < ack.timeout {
                Some(
                    CallView {
                        callback: ack.callback,
                        payload: ack_payload(p, is_binary),
                        need_ack: None,
                    },
                )
            } else {
                None
            }
        },
        _ => None,
    }
}

/// The callback that a packet settles: the one that waits for the acknowledgement that the packet
/// is. It is called with the packet if that is in time, and not again.
pub open spec fn settled(s: SocketView, p: PacketView) -> Option<u64> {
    if p.nsp == s.nsp && (p.ptype == PacketType::Ack || p.ptype == PacketType::BinaryAck) {
        match p.id {
            Some(id) if is_awaited(s.acks, id) => Some(s.acks[ack_place(s.acks, id)].callback),
            _ => None,
        }
    } else {
        None
    }
}

/// The call that an event packet without attachments makes.
pub open spec fn on_event(s: SocketView, p: PacketView) -> Option<CallView> {
    match p.data {
        Some(ValueView::Array(values)) => called(
            s,
            decode::event_of_data(values),
            decode::event_payload(p.data, true),
            p.id,
        ),
        _ => None,
    }
}

/// The call that a binary event packet makes.
pub open spec fn on_binary_event(s: SocketView, p: PacketView) -> Option<CallView> {
    called(
        s,
        decode::event_of_binary(p.data),
        decode::binary_payload(p.data, p.attachments, true),
        p.id,
    )
}

/// The payload of a packet's bare data.
pub open spec fn data_payload(data: Option<ValueView>) -> PayloadView {
    match data {
        Some(data) => PayloadView::Json(data),
        None => PayloadView::Json(ValueView::Null),
    }
}

/// The payload that is a text.
pub open spec fn text_payload(s: Seq<char>) -> PayloadView {
    PayloadView::Json(ValueView::String(s))
}

/// The reason for which a connection was refused, given what came along as a developer reads it.
pub open spec fn connect_error_reason(shown: Seq<char>) -> Seq<char> {
    "Received an ConnectError frame: "@ + shown
}

/// The payload that tells of a refused connection.
pub open spec fn connect_error_payload(data: Option<ValueView>) -> PayloadView {
    text_payload(connect_error_reason(value::optional_text(data)))
}

/// Tells why a connection was refused, given what came along as a developer reads it.
pub fn refusal_reason(shown: &str) -> (reason: String)
    ensures
        reason@ == connect_error_reason(shown@),
{
    let mut reason = "Received an ConnectError frame: ".to_owned();
    reason.append(shown);
    reason
}

/// A connection after a packet came.
pub open spec fn after_packet(s: SocketView, p: PacketView) -> SocketView {
    if p.nsp != s.nsp {
        s
    } else {
        match p.ptype {
            PacketType::Ack => after_ack(s, p),
            PacketType::BinaryAck => after_ack(s, p),
            PacketType::Event => s,
            PacketType::BinaryEvent => s,
            PacketType::Connect => SocketView { connected: true, ..s },
            PacketType::Disconnect => SocketView { connected: false, ..s },
            PacketType::ConnectError => SocketView { connected: false, ..s },
        }
    }
}

/// The call that a packet makes.
pub open spec fn on_packet(s: SocketView, p: PacketView, now: u64) -> Option<CallView> {
    if p.nsp != s.nsp {
        None
    } else {
        match p.ptype {
            PacketType::Ack => on_ack(s, p, false, now),
            PacketType::BinaryAck => on_ack(s, p, true, now),
            PacketType::Event => on_event(s, p),
            PacketType::BinaryEvent => on_binary_event(s, p),
            PacketType::Connect => called(s, EventView::Connect, Some(data_payload(p.data)), None),
            PacketType::Disconnect => called(s, EventView::Close, None, None),
            PacketType::ConnectError => called(
                s,
                EventView::Error,
                Some(connect_error_payload(p.data)),
                None,
            ),
        }
    }
}

/// What the poll for a packet came to.
#[derive(Debug)]
pub enum Polled {
    /// The connection underneath ended.
    Ended,
    /// The connection underneath failed.
    Failed(Option<Call>),
    /// The packet is for another namespace: poll on.
    Skipped,
    /// A packet came.
    Came(Packet, Option<Call>),
}

impl Socket {
    #[verifier::type_invariant]
    spec fn well_formed(self) -> bool {
        acks_are_distinct(self.outstanding_acks@, self.next_ack_id)
    }

    /// Makes a connection to a namespace.
    pub fn new(nsp: String, on: Arc<Callbacks>) -> (socket: Self)
        ensures
            socket@ == (SocketView {
                nsp: nsp@,
                on: tables::callbacks_in(*on),
                acks: Seq::empty(),
                connected: true,
                next_ack_id: 0,
            }),
    {
        Socket {
            nsp,
            on,
            outstanding_acks: Vec::new(),
            is_connected: true,
            next_ack_id: 0,
        }
    }

    /// The namespace.
    pub fn nsp(&self) -> (nsp: &str)
        ensures
            nsp@ == self@.nsp,
    {
        self.nsp.as_str()
    }

    /// Whether the connection is open.
    pub fn is_connected(&self) -> (connected: bool)
        ensures
            connected == self@.connected,
    {
        self.is_connected
    }

    /// The number of the next acknowledgement to be asked for.
    pub fn next_ack_id(&self) -> (id: AckId)
        ensures
            id == self@.next_ack_id,
    {
        self.next_ack_id
    }

    /// The packet that opens the connection, once the one underneath is open.
    pub fn connect(&self) -> (packet: Packet)
        ensures
            packet@ == raw::plain_packet(PacketType::Connect, self@.nsp),
    {
        // construct the opening packet
        Packet::new(PacketType::Connect, self.nsp.clone(), None, None, 0, None)
    }

    /// The packet of an event, which could either be one of the common events like "message" or
    /// "error" or a custom event like "foo".
    pub fn emit(&self, event: Event, data: Payload) -> (packet: Result<Packet, Error>)
        ensures
            !self@.connected ==> packet == Err::<Packet, Error>(Error::IllegalActionBeforeOpen()),
            self@.connected ==> (packet matches Ok(p) && p@ == raw::payload_packet(
                data@,
                Some(event@),
                self@.nsp,
                None,
                false,
            )),
    {
        if !self.is_connected {
            return Err(Error::IllegalActionBeforeOpen());
        }
        Ok(RawSocket::emit(self.nsp.as_str(), event, data))
    }

    /// The packet that answers an event.
    pub fn ack(&self, id: AckId, data: Payload) -> (packet: Result<Packet, Error>)
        ensures
            !self@.connected ==> packet == Err::<Packet, Error>(Error::IllegalActionBeforeOpen()),
            self@.connected ==> (packet matches Ok(p) && p@ == raw::payload_packet(
                data@,
                None,
                self@.nsp,
                Some(id),
                true,
            )),
    {
        if !self.is_connected {
            return Err(Error::IllegalActionBeforeOpen());
        }
        Ok(RawSocket::ack(self.nsp.as_str(), id, data))
    }

    /// The packet by which a server accepts a client.
    pub fn handshake(&self, data: Value) -> (packet: Result<Packet, Error>)
        ensures
            !self@.connected ==> packet == Err::<Packet, Error>(Error::IllegalActionBeforeOpen()),
            self@.connected ==> (packet matches Ok(p) && p@ == (PacketView {
                data: Some(data@),
                ..raw::plain_packet(PacketType::Connect, self@.nsp)
            })),
    {
        if !self.is_connected {
            return Err(Error::IllegalActionBeforeOpen());
        }
        Ok(RawSocket::handshake(self.nsp.as_str(), data))
    }

    /// Closes the connection. The packet that tells the other end is to be sent, and then the
    /// connection underneath closed.
    pub fn disconnect(&mut self) -> (packet: Packet)
        ensures
            final(self)@ == (SocketView { connected: false, ..old(self)@ }),
            packet@ == raw::plain_packet(PacketType::Disconnect, old(self)@.nsp),
    {
        proof {
            use_type_invariant(&*self);
        }
        self.is_connected = false;
        Packet::new(PacketType::Disconnect, self.nsp.clone(), None, None, 0, None)
    }

    /// The packet of an event that asks for an acknowledgement, which is waited for from then on.
    /// If it comes in time, the callback is called with what it carries.
    pub fn emit_with_ack(
        &mut self,
        event: Event,
        data: Payload,
        timeout: u64,
        callback: u64,
        now: u64,
    ) -> (packet: Result<Packet, Error>)
        requires
            old(self)@.next_ack_id < usize::MAX,
        ensures
            !old(self)@.connected ==> packet == Err::<Packet, Error>(Error::IllegalActionBeforeOpen())
                && final(self)@ == old(self)@,
            old(self)@.connected ==> {
                let id = old(self)@.next_ack_id;
                &&& packet matches Ok(p) && p@ == raw::payload_packet(
                    data@,
                    Some(event@),
                    old(self)@.nsp,
                    Some(id),
                    false,
                )
                &&& final(self)@ == (SocketView {
                    acks: old(self)@.acks.push(Ack { id, time_started: now, timeout, callback }),
                    next_ack_id: (id + 1) as usize,
                    ..old(self)@
                })
            },
            old(self)@.connected ==> forall|p: PacketView, later: u64|
                p.nsp == old(self)@.nsp && (p.ptype == PacketType::Ack || p.ptype
                    == PacketType::BinaryAck) && p.id == Some(old(self)@.next_ack_id) ==> {
                    &&& now <= later ==> ((#[trigger] on_packet(final(self)@, p, later)) is Some
                        <==> later - now < timeout)
                    &&& on_packet(final(self)@, p, later) matches Some(call) ==> call.callback == callback
                },
    {
        if !self.is_connected {
            return Err(Error::IllegalActionBeforeOpen());
        }
        proof {
            use_type_invariant(&*self);
        }
        let id: AckId = self.next_ack_id;
        let packet = RawSocket::build_packet_for_payload(
            data,
            Some(event),
            self.nsp.as_str(),
            Some(id),
            false,
        );
        let ack = Ack { id, time_started: now, timeout, callback };
        let ghost before = self.outstanding_acks@;
        let mut acks: Vec<Ack> = Vec::new();
        std::mem::swap(&mut acks, &mut self.outstanding_acks);
        // add the ack to the tuple of outstanding acks
        acks.push(ack);
        self.next_ack_id = id + 1;
        proof {
            assert(acks@ =~= before.push(ack));
            assert(acks_are_distinct(acks@, self.next_ack_id)) by {
                assert forall|i: int, j: int| 0 <= i < j < acks@.len() implies (#[trigger] acks@[i]).id
                    != (#[trigger] acks@[j]).id by {
                    assert(acks@[i] == before[i]);
                    if j < before.len() {
                        assert(acks@[j] == before[j]);
                    }
                }
                assert forall|i: int| 0 <= i < acks@.len() implies (#[trigger] acks@[i]).id
                    < self.next_ack_id by {
                    if i < before.len() {
                        assert(acks@[i] == before[i]);
                    }
                }
            }
        }
        self.outstanding_acks = acks;
        proof {
            assert forall|p: PacketView, later: u64|
                p.nsp == old(self)@.nsp && (p.ptype == PacketType::Ack || p.ptype
                    == PacketType::BinaryAck) && p.id == Some(id) implies {
                &&& now <= later ==> ((#[trigger] on_packet(self@, p, later)) is Some <==> later - now
                    < timeout)
                &&& on_packet(self@, p, later) matches Some(call) ==> call.callback == callback
            } by {
                law_awaited_ack_calls(self@, p, before.len() as int, later);
            }
        }
        Ok(packet)
    }

    /// The call of the callback of an event, if it has one.
    pub fn callback(&self, event: &Event, payload: Option<Payload>, need_ack: Option<AckId>) -> (call:
        Option<Call>)
        ensures
            call_view(call) == called(self@, event@, payload::payload_view(payload), need_ack),
            call is Some <==> self@.on.dom().contains(tables::event_key(event@)),
            call matches Some(c) ==> {
                &&& c.callback == self@.on[tables::event_key(event@)]
                &&& c.payload == payload
                &&& c.need_ack == need_ack
            },
    {
        let key = tables::key_of(event);
        match tables::get_callback(&*self.on, &key) {
            Some(callback) => Some(Call { callback, payload, need_ack }),
            None => None,
        }
    }

    /// The place of the acknowledgement of a number among those that are waited for.
    fn find_ack(&self, id: AckId) -> (place: Option<usize>)
        ensures
            place is Some <==> is_awaited(self@.acks, id),
            place matches Some(i) ==> i == ack_place(self@.acks, id) && i < self@.acks.len(),
    {
        proof {
            use_type_invariant(self);
        }
        let ghost acks = self.outstanding_acks@;
        let mut i: usize = 0;
        while i < self.outstanding_acks.len()
            invariant
                acks == self.outstanding_acks@,
                acks_are_distinct(acks, self.next_ack_id),
                i <= acks.len(),
                forall|j: int| 0 <= j < i ==> (#[trigger] acks[j]).id != id,
            decreases acks.len() - i,
        {
            if self.outstanding_acks[i].id == id {
                proof {
                    assert(is_ack_at(acks, i as int, id));
                    let k = ack_place(acks, id);
                    assert(is_ack_at(acks, k, id));
                    assert(k == i);
                }
                return Some(i);
            }
            i = i + 1;
        }
        assert(!is_awaited(acks, id)) by {
            if is_awaited(acks, id) {
                let k = ack_place(acks, id);
                assert(is_ack_at(acks, k, id));
            }
        }
        None
    }

    /// The callback that a packet settles.
    pub fn settled_callback(&self, packet: &Packet) -> (callback: Option<u64>)
        ensures
            callback == settled(self@, packet@),
    {
        if !text::same_text(packet.nsp.as_str(), self.nsp.as_str()) {
            return None;
        }
        if packet.ptype != PacketType::Ack && packet.ptype != PacketType::BinaryAck {
            return None;
        }
        match packet.id {
            Some(id) => match self.find_ack(id) {
                Some(i) => Some(self.outstanding_acks[i].callback),
                None => None,
            },
            None => None,
        }
    }

    /// Takes an acknowledgement: it is no longer waited for, and its callback is called if it is
    /// in time.
    pub fn handle_ack(&mut self, packet: &Packet, is_binary: bool, now: u64) -> (call: Option<Call>)
        ensures
            final(self)@ == after_ack(old(self)@, packet@),
            call_view(call) == on_ack(old(self)@, packet@, is_binary, now),
    {
        proof {
            use_type_invariant(&*self);
        }
        let id: AckId = match packet.id {
            Some(id) => id,
            None => {
                return None;
            },
        };
        let i: usize = match self.find_ack(id) {
            Some(i) => i,
            None => {
                return None;
            },
        };
        let ack: Ack = self.outstanding_acks[i];
        let ghost before = self.outstanding_acks@;
        let mut acks: Vec<Ack> = Vec::new();
        std::mem::swap(&mut acks, &mut self.outstanding_acks);
        let _ = acks.remove(i);
        proof {
            assert(acks@ =~= before.remove(i as int));
            lemma_acks_without(before, self.next_ack_id, i as int);
        }
        self.outstanding_acks = acks;
        if now.saturating_sub(ack.time_started) < ack.timeout {
            let payload = if is_binary {
                decode::decode_binary_payload(&packet.data, &packet.attachments, false)
            } else {
                decode::decode_event_payload(packet, false)
            };
            Some(Call { callback: ack.callback, payload, need_ack: None })
        } else {
            None
        }
    }

    /// Takes a binary event.
    pub fn handle_binary_event(&self, packet: &Packet) -> (call: Option<Call>)
        ensures
            call_view(call) == on_binary_event(self@, packet@),
    {
        let event = decode::event_of_binary_data(&packet.data);
        let payload = decode::decode_binary_payload(&packet.data, &packet.attachments, true);
        self.callback(&event, payload, packet.id)
    }

    /// Takes an event. Its data must be an array with the event first, and then what it carries;
    /// if no event is specified, the message callback is used.
    pub fn handle_event(&self, packet: &Packet) -> (call: Option<Call>)
        ensures
            call_view(call) == on_event(self@, packet@),
    {
        match &packet.data {
            Some(Value::Array(contents)) => {
                proof {
                    value::lemma_array_view(*contents);
                }
                let event = decode::event_of_values(contents);
                let payload = decode::decode_event_payload(packet, true);
                self.callback(&event, payload, packet.id)
            },
            _ => None,
        }
    }

    /// Takes the opening of the connection.
    pub fn handle_connect(&mut self, packet: Option<&Packet>) -> (call: Option<Call>)
        ensures
            final(self)@ == (SocketView { connected: true, ..old(self)@ }),
            call_view(call) == called(
                old(self)@,
                EventView::Connect,
                match packet {
                    Some(p) => Some(data_payload(p@.data)),
                    None => None,
                },
                None,
            ),
    {
        proof {
            use_type_invariant(&*self);
        }
        self.is_connected = true;
        let payload = match packet {
            Some(packet) => Some(Payload::from(Self::clone_data(&packet.data))),
            None => None,
        };
        self.callback(&Event::Connect, payload, None)
    }

    /// Copies the data of a packet.
    fn clone_data(data: &Option<Value>) -> (copy: Option<Value>)
        ensures
            value::value_view(copy) == value::value_view(*data),
    {
        match data {
            Some(data) => Some(data.clone()),
            None => None,
        }
    }

    /// Takes a packet. One that is meant for another namespace does nothing.
    pub fn handle_socketio_packet(&mut self, packet: &Packet, now: u64) -> (call: Option<Call>)
        ensures
            final(self)@ == after_packet(old(self)@, packet@),
            call_view(call) == on_packet(old(self)@, packet@, now),
    {
        if !text::same_text(packet.nsp.as_str(), self.nsp.as_str()) {
            return None;
        }
        proof {
            use_type_invariant(&*self);
        }
        match packet.ptype {
            PacketType::Ack => self.handle_ack(packet, false, now),
            PacketType::BinaryAck => self.handle_ack(packet, true, now),
            PacketType::Event => self.handle_event(packet),
            PacketType::BinaryEvent => self.handle_binary_event(packet),
            PacketType::Connect => self.handle_connect(Some(packet)),
            PacketType::Disconnect => {
                self.is_connected = false;
                self.callback(&Event::Close, None, None)
            },
            PacketType::ConnectError => {
                self.is_connected = false;
                let reason = refusal_reason(value::debug_optional(&packet.data).as_str());
                let payload = Payload::from(Value::String(reason));
                self.callback(&Event::Error, Some(payload), None)
            },
        }
    }

    /// Takes what the connection underneath gave: a packet, an error by its text, or the end. A
    /// packet that is not meant for the namespace is skipped.
    pub fn poll_packet(&mut self, next: Option<Result<Packet, String>>, now: u64) -> (polled: Polled)
        ensures
            match next {
                None => polled is Ended && final(self)@ == old(self)@,
                Some(Err(reason)) => {
                    &&& final(self)@ == old(self)@
                    &&& polled matches Polled::Failed(call) && call_view(call) == called(
                        old(self)@,
                        EventView::Error,
                        Some(text_payload(reason@)),
                        None,
                    )
                },
                Some(Ok(packet)) => if packet@.nsp == old(self)@.nsp {
                    &&& final(self)@ == after_packet(old(self)@, packet@)
                    &&& polled matches Polled::Came(p, call) && p == packet && call_view(call)
                        == on_packet(old(self)@, packet@, now)
                } else {
                    polled is Skipped && final(self)@ == old(self)@
                },
            },
    {
        match next {
            // end the stream if the underlying one is closed
            None => Polled::Ended,
            Some(Err(reason)) => {
                // call the error callback
                let payload = Payload::from(Value::String(reason));
                Polled::Failed(self.callback(&Event::Error, Some(payload), None))
            },
            Some(Ok(packet)) => {
                // if this packet is not meant for the current namespace, skip it and poll for the
                // next one
                if text::same_text(packet.nsp.as_str(), self.nsp.as_str()) {
                    let call = self.handle_socketio_packet(&packet, now);
                    Polled::Came(packet, call)
                } else {
                    Polled::Skipped
                }
            },
        }
    }
}

/// Acknowledgements stay distinct when one is taken away.
proof fn lemma_acks_without(acks: Seq<Ack>, next_ack_id: AckId, place: int)
    requires
        acks_are_distinct(acks, next_ack_id),
        0 <= place < acks.len(),
    ensures
        acks_are_distinct(acks.remove(place), next_ack_id),
        !is_awaited(acks.remove(place), acks[place].id),
        forall|id: AckId|
            id != acks[place].id && #[trigger] is_awaited(acks, id) ==> is_awaited(
                acks.remove(place),
                id,
            ),
{
    let after = acks.remove(place);
    assert forall|i: int, j: int| 0 <= i < j < after.len() implies (#[trigger] after[i]).id != (
    #[trigger] after[j]).id by {
        let i0 = if i < place { i } else { i + 1 };
        let j0 = if j < place { j } else { j + 1 };
        assert(after[i] == acks[i0] && after[j] == acks[j0]);
    }
    assert forall|i: int| 0 <= i < after.len() implies (#[trigger] after[i]).id < next_ack_id by {
        let i0 = if i < place { i } else { i + 1 };
        assert(after[i] == acks[i0]);
    }
    if is_awaited(after, acks[place].id) {
        let k = ack_place(after, acks[place].id);
        assert(is_ack_at(after, k, acks[place].id));
        let k0 = if k < place { k } else { k + 1 };
        assert(after[k] == acks[k0]);
    }
    assert forall|id: AckId| id != acks[place].id && #[trigger] is_awaited(acks, id) implies is_awaited(
        after,
        id,
    ) by {
        let k = ack_place(acks, id);
        assert(is_ack_at(acks, k, id));
        let k1 = if k < place { k } else { k - 1 };
        assert(after[k1] == acks[k]);
        assert(is_ack_at(after, k1, id));
    }
}

/// A packet for another namespace changes nothing and calls nothing.
pub proof fn law_other_namespace_is_ignored(s: SocketView, p: PacketView, now: u64)
    requires
        p.nsp != s.nsp,
    ensures
        after_packet(s, p) == s,
        on_packet(s, p, now) is None,
{
}

/// An acknowledgement is taken once: when another of its number comes, nothing is called and
/// nothing changes. The others are waited for as before.
pub proof fn law_ack_is_taken_once(
    s: SocketView,
    first: PacketView,
    second: PacketView,
    is_binary: bool,
    now: u64,
)
    requires
        acks_are_distinct(s.acks, s.next_ack_id),
        first.id is Some,
        second.id == first.id,
    ensures
        on_ack(after_ack(s, first), second, is_binary, now) is None,
        after_ack(after_ack(s, first), second) == after_ack(s, first),
        forall|id: AckId|
            Some(id) != first.id && is_awaited(s.acks, id) ==> #[trigger] is_awaited(
                after_ack(s, first).acks,
                id,
            ),
{
    let id = first.id->Some_0;
    if is_awaited(s.acks, id) {
        let k = ack_place(s.acks, id);
        assert(is_ack_at(s.acks, k, id));
        lemma_acks_without(s.acks, s.next_ack_id, k);
    }
}

/// A packet calls the callback of an acknowledgement only if it settles it, and an acknowledgement
/// that a packet settles is not waited for any more.
pub proof fn law_settled_ack_is_gone(s: SocketView, p: PacketView, now: u64)
    requires
        acks_are_distinct(s.acks, s.next_ack_id),
        p.ptype == PacketType::Ack || p.ptype == PacketType::BinaryAck,
    ensures
        on_packet(s, p, now) matches Some(call) ==> settled(s, p) == Some(call.callback),
        settled(s, p) is Some ==> (p.id matches Some(id) && !is_awaited(after_packet(s, p).acks, id)),
{
    if settled(s, p) is Some {
        let k = ack_place(s.acks, p.id->Some_0);
        assert(is_ack_at(s.acks, k, p.id->Some_0));
        lemma_acks_without(s.acks, s.next_ack_id, k);
    }
}

/// An acknowledgement that comes too late calls nothing, though it is taken.
pub proof fn law_late_ack_is_dropped(s: SocketView, p: PacketView, is_binary: bool, now: u64)
    requires
        p.id matches Some(id) && is_awaited(s.acks, id),
        server::elapsed(
            s.acks[ack_place(s.acks, p.id->Some_0)].time_started,
            now,
        ) >= s.acks[ack_place(s.acks, p.id->Some_0)].timeout,
    ensures
        on_ack(s, p, is_binary, now) is None,
        after_ack(s, p).acks.len() == s.acks.len() - 1,
{
    let k = ack_place(s.acks, p.id->Some_0);
    assert(is_ack_at(s.acks, k, p.id->Some_0));
}

/// Whether a payload comes through whole: it holds something, none of its JSON looks like a
/// placeholder, and the attachments can be numbered.
pub open spec fn comes_through(payload: PayloadView) -> bool {
    &&& payload::items_of(payload).len() > 0
    &&& decode::is_unambiguous(payload::items_of(payload))
    &&& raw::payload_attachments(payload).len() <= usize::MAX
}

/// An event that one end of a connection emits makes the other end call that event's callback with
/// what was emitted, and with the acknowledgement that was asked for; one thing stands for itself.
pub proof fn law_emitted_event_calls_back(
    s: SocketView,
    event: EventView,
    payload: PayloadView,
    id: Option<AckId>,
    now: u64,
)
    requires
        event::is_proper(event),
        comes_through(payload),
    ensures
        on_packet(s, raw::payload_packet(payload, Some(event), s.nsp, id, false), now) == called(
            s,
            event,
            Some(payload::payload_of(payload::items_of(payload))),
            id,
        ),
        on_packet(s, raw::payload_packet(payload, Some(event), s.nsp, id, false), now) is Some
            <==> s.on.dom().contains(tables::event_key(event)),
        on_packet(s, raw::payload_packet(payload, Some(event), s.nsp, id, false), now) matches Some(call)
            ==> {
            &&& call.callback == s.on[tables::event_key(event)]
            &&& call.need_ack == id
            &&& call.payload matches Some(p) && payload::items_of(p) == payload::items_of(payload)
        },
{
    payload::law_items_of_payload(payload::items_of(payload));
    lemma_encoded_len(payload::items_of(payload));
    decode::law_event_is_read_back(event, payload);
    if raw::payload_attachments(payload).len() > 0 {
        decode::law_binary_payload_is_read_back(Some(event), payload);
    } else {
        decode::law_json_payload_is_read_back(Some(event), payload);
    }
}

/// An acknowledgement that comes in time calls the callback that waits for it with what the other
/// end answered.
pub proof fn law_ack_calls_back(s: SocketView, ack: Ack, payload: PayloadView, now: u64)
    requires
        acks_are_distinct(s.acks, s.next_ack_id),
        s.acks.contains(ack),
        server::elapsed(ack.time_started, now) < ack.timeout,
        comes_through(payload),
    ensures
        on_packet(s, raw::payload_packet(payload, None, s.nsp, Some(ack.id), true), now) == Some(
            CallView {
                callback: ack.callback,
                payload: Some(payload::payload_of(payload::items_of(payload))),
                need_ack: None,
            },
        ),
{
    let i = choose|i: int| 0 <= i < s.acks.len() && s.acks[i] == ack;
    assert(is_ack_at(s.acks, i, ack.id));
    let k = ack_place(s.acks, ack.id);
    assert(is_ack_at(s.acks, k, ack.id));
    assert(k == i);
    if raw::payload_attachments(payload).len() > 0 {
        decode::law_binary_payload_is_read_back(None, payload);
    } else {
        decode::law_json_payload_is_read_back(None, payload);
    }
}

proof fn lemma_encoded_len(items: Seq<payload::RawPayloadView>)
    ensures
        raw::encoded_items(items, 0).len() == items.len(),
    decreases items.len(),
{
    if items.len() > 0 {
        lemma_encoded_len(items.drop_last());
    }
}

/// An event packet for the namespace makes a call if and only if its data are an array and a callback
/// is registered for its event. The call is that callback's, with what the packet carries, and it
/// asks for the acknowledgement that the packet asks for.
pub proof fn law_event_packet_calls(s: SocketView, p: PacketView, now: u64)
    requires
        p.nsp == s.nsp,
        p.ptype == PacketType::Event,
    ensures
        p.data matches Some(ValueView::Array(values)) ==> {
            let key = tables::event_key(decode::event_of_data(values));
            &&& on_packet(s, p, now) is Some <==> s.on.dom().contains(key)
            &&& on_packet(s, p, now) matches Some(call) ==> call.callback == s.on[key] && call.payload
                == decode::event_payload(p.data, true) && call.need_ack == p.id
        },
        !(p.data matches Some(ValueView::Array(_))) ==> on_packet(s, p, now) is None,
        after_packet(s, p) == s,
{
}

/// A binary event packet for the namespace makes a call if and only if a callback is registered for
/// its event. The call is that callback's, with what the packet and its attachments carry, and it asks
/// for the acknowledgement that the packet asks for.
pub proof fn law_binary_event_packet_calls(s: SocketView, p: PacketView, now: u64)
    requires
        p.nsp == s.nsp,
        p.ptype == PacketType::BinaryEvent,
    ensures
        ({
            let key = tables::event_key(decode::event_of_binary(p.data));
            &&& on_packet(s, p, now) is Some <==> s.on.dom().contains(key)
            &&& on_packet(s, p, now) matches Some(call) ==> call.callback == s.on[key] && call.payload
                == decode::binary_payload(p.data, p.attachments, true) && call.need_ack == p.id
        }),
        after_packet(s, p) == s,
{
}

/// A packet that opens, closes or refuses the connection makes the call of the callback that is
/// registered for that event, if there is one: with the packet's data, with nothing, or with the
/// reason. No acknowledgement is asked for. The connection is open, or not, from then on, and is
/// otherwise as before.
pub proof fn law_connection_packet_calls(s: SocketView, p: PacketView, now: u64)
    requires
        p.nsp == s.nsp,
    ensures
        p.ptype == PacketType::Connect ==> {
            let key = tables::event_key(EventView::Connect);
            &&& on_packet(s, p, now) is Some <==> s.on.dom().contains(key)
            &&& on_packet(s, p, now) matches Some(call) ==> call.callback == s.on[key] && call.need_ack is None
                && call.payload == Some(
                PayloadView::Json(
                    match p.data {
                        Some(data) => data,
                        None => ValueView::Null,
                    },
                ),
            )
            &&& after_packet(s, p).connected
        },
        p.ptype == PacketType::Disconnect ==> {
            let key = tables::event_key(EventView::Close);
            &&& on_packet(s, p, now) is Some <==> s.on.dom().contains(key)
            &&& on_packet(s, p, now) matches Some(call) ==> call.callback == s.on[key] && call.need_ack is None
                && call.payload is None
            &&& !after_packet(s, p).connected
        },
        p.ptype == PacketType::ConnectError ==> {
            let key = tables::event_key(EventView::Error);
            &&& on_packet(s, p, now) is Some <==> s.on.dom().contains(key)
            &&& on_packet(s, p, now) matches Some(call) ==> call.callback == s.on[key] && call.need_ack is None
                && call.payload == Some(
                PayloadView::Json(
                    ValueView::String("Received an ConnectError frame: "@ + value::optional_text(p.data)),
                ),
            )
            &&& !after_packet(s, p).connected
        },
        p.ptype == PacketType::Connect || p.ptype == PacketType::Disconnect || p.ptype
            == PacketType::ConnectError ==> {
            &&& after_packet(s, p).nsp == s.nsp
            &&& after_packet(s, p).on == s.on
            &&& after_packet(s, p).acks == s.acks
            &&& after_packet(s, p).next_ack_id == s.next_ack_id
        },
{
}

/// An acknowledgement of a number that is waited for, at any place, takes that place out and changes
/// nothing else. If less than the time it is waited for has passed, it calls the callback that waits,
/// with what the packet carries, and asks for nothing; else it calls nothing.
pub proof fn law_awaited_ack_calls(s: SocketView, p: PacketView, i: int, now: u64)
    requires
        acks_are_distinct(s.acks, s.next_ack_id),
        p.nsp == s.nsp,
        p.ptype == PacketType::Ack || p.ptype == PacketType::BinaryAck,
        0 <= i < s.acks.len(),
        p.id == Some(s.acks[i].id),
    ensures
        ({
            let ack = s.acks[i];
            let in_time = if now < ack.time_started {
                0 < ack.timeout
            } else {
                now - ack.time_started < ack.timeout
            };
            &&& on_packet(s, p, now) is Some <==> in_time
            &&& on_packet(s, p, now) matches Some(call) ==> {
                &&& call.callback == ack.callback
                &&& call.need_ack is None
                &&& p.ptype == PacketType::Ack ==> call.payload == decode::event_payload(p.data, false)
                &&& p.ptype == PacketType::BinaryAck ==> call.payload == decode::binary_payload(
                    p.data,
                    p.attachments,
                    false,
                )
            }
            &&& settled(s, p) == Some(ack.callback)
        }),
        after_packet(s, p).acks == s.acks.remove(i),
        after_packet(s, p).nsp == s.nsp,
        after_packet(s, p).on == s.on,
        after_packet(s, p).connected == s.connected,
        after_packet(s, p).next_ack_id == s.next_ack_id,
{
    let id = s.acks[i].id;
    assert(is_ack_at(s.acks, i, id));
    let k = ack_place(s.acks, id);
    assert(is_ack_at(s.acks, k, id));
    assert(k == i);
}

/// An acknowledgement of a number that is not waited for, or of none, calls nothing, settles nothing
/// and changes nothing.
pub proof fn law_unawaited_ack_is_ignored(s: SocketView, p: PacketView, now: u64)
    requires
        p.ptype == PacketType::Ack || p.ptype == PacketType::BinaryAck,
        p.id matches Some(id) ==> (forall|i: int|
            0 <= i < s.acks.len() ==> (#[trigger] s.acks[i]).id != id),
    ensures
        on_packet(s, p, now) is None,
        after_packet(s, p) == s,
        settled(s, p) is None,
{
    if p.id is Some && is_awaited(s.acks, p.id->Some_0) {
        let k = ack_place(s.acks, p.id->Some_0);
        assert(is_ack_at(s.acks, k, p.id->Some_0));
        assert(s.acks[k].id == p.id->Some_0);
    }
}

/// Only an acknowledgement settles a callback, and only one for the namespace.
pub proof fn law_only_acks_settle(s: SocketView, p: PacketView)
    ensures
        p.ptype != PacketType::Ack && p.ptype != PacketType::BinaryAck ==> settled(s, p) is None,
        p.nsp != s.nsp ==> settled(s, p) is None,
{
}

/// A call is made just where a callback is registered for the event: that callback's, with what was
/// given, whatever kind of payload that is.
pub proof fn law_registered_callback_is_called(
    s: SocketView,
    event: EventView,
    payload: Option<PayloadView>,
    need_ack: Option<AckId>,
)
    ensures
        called(s, event, payload, need_ack) is Some <==> s.on.dom().contains(tables::event_key(event)),
        called(s, event, payload, need_ack) matches Some(call) ==> {
            &&& call.callback == s.on[tables::event_key(event)]
            &&& call.payload == payload
            &&& call.need_ack == need_ack
        },
{
}

/// Which payloads come through whole: those that hold something, with no object among their JSON that
/// has a member `_placeholder`, and with attachments that can be numbered.
pub proof fn law_what_comes_through(payload: PayloadView)
    ensures
        comes_through(payload) <==> {
            &&& payload::items_of(payload).len() > 0
            &&& forall|i: int|
                0 <= i < payload::items_of(payload).len() ==> ((
                #[trigger] payload::items_of(payload)[i]) matches payload::RawPayloadView::Json(v)
                    ==> value::get(v, "_placeholder"@) is None)
            &&& raw::attachments_of(payload::items_of(payload)).len() <= usize::MAX
        },
{
}

}
