//! A connection of the `engine.io` protocol: its state, and what each event makes it do.
use std::sync::Arc;

use vstd::prelude::*;
use vstd::string::*;
use vstd::utf8::*;

use crate::engineio::error::Error;
use crate::engineio::packet;
use crate::engineio::packet::{HandshakePacket, Packet, PacketType, PacketView, Sid, SEPARATOR};
use crate::engineio::payload;
use crate::engineio::payload::Payload;
use crate::engineio::transports;
use crate::engineio::transports::{Data, DataView};

verus! {

/// What the observer of a connection is told.
#[derive(Debug)]
pub enum Event {
    OnOpen(Sid),
    OnClose(Sid),
    OnData(Sid, Vec<u8>),
    OnPacket(Sid, Packet),
    OnError(Sid, String),
}

/// The value of an event.
pub enum EventView {
    OnOpen(Seq<char>),
    OnClose(Seq<char>),
    OnData(Seq<char>, Seq<u8>),
    OnPacket(Seq<char>, PacketView),
    OnError(Seq<char>, Seq<char>),
}

impl View for Event {
    type V = EventView;

    open spec fn view(&self) -> EventView {
        match self {
            Event::OnOpen(sid) => EventView::OnOpen(sid@),
            Event::OnClose(sid) => EventView::OnClose(sid@),
            Event::OnData(sid, data) => EventView::OnData(sid@, data@),
            Event::OnPacket(sid, packet) => EventView::OnPacket(sid@, packet@),
            Event::OnError(sid, text) => EventView::OnError(sid@, text@),
        }
    }
}

/// Something that a connection has its surroundings do.
#[derive(Debug)]
pub enum Action {
    /// Tell the observer.
    Notify(Event),
    /// Hand data to the transport.
    Send(Data),
}

/// The value of an action.
pub enum ActionView {
    Notify(EventView),
    Send(DataView),
}

impl View for Action {
    type V = ActionView;

    open spec fn view(&self) -> ActionView {
        match self {
            Action::Notify(event) => ActionView::Notify(event@),
            Action::Send(data) => ActionView::Send(data@),
        }
    }
}

/// The values of a row of actions.
pub open spec fn action_views(actions: Seq<Action>) -> Seq<ActionView> {
    actions.map_values(|a: Action| a@)
}

/// A connection. Both ends use it.
#[derive(Debug)]
pub struct Socket {
    connected: bool,
    last_ping: u64,
    last_pong: u64,
    connection_data: HandshakePacket,
    server_end: bool,
    should_pong: bool,
    observed: bool,
}

/// The value of a connection.
pub struct SocketView {
    pub connected: bool,
    /// When the last ping came.
    pub last_ping: u64,
    /// When the last packet came.
    pub last_pong: u64,
    pub sid: Seq<char>,
    pub server_end: bool,
    pub should_pong: bool,
    pub observed: bool,
}

impl View for Socket {
    type V = SocketView;

    closed spec fn view(&self) -> SocketView {
        SocketView {
            connected: self.connected,
            last_ping: self.last_ping,
            last_pong: self.last_pong,
            sid: self.connection_data.sid@,
            server_end: self.server_end,
            should_pong: self.should_pong,
            observed: self.observed,
        }
    }
}

/// Tells the observer of a connection, if it has one.
pub open spec fn notified(s: SocketView, event: EventView) -> Seq<ActionView> {
    if s.observed {
        seq![ActionView::Notify(event)]
    } else {
        Seq::empty()
    }
}

/// What the transport is given for a packet: binary data as they are, anything else encoded.
pub open spec fn packet_data(p: PacketView) -> DataView {
    if p.ptype == PacketType::MessageBinary {
        DataView::Binary(p.data)
    } else {
        DataView::Text(packet::encoded_packet(p))
    }
}

/// What emitting a packet makes a connection do: send it, or complain while it is not open.
pub open spec fn emitted(s: SocketView, p: PacketView) -> Seq<ActionView> {
    if s.connected {
        seq![ActionView::Send(packet_data(p))]
    } else {
        notified(s, EventView::OnError(s.sid, "Illegal action before open"@))
    }
}

/// A packet without data.
pub open spec fn bare(ptype: PacketType) -> PacketView {
    PacketView { ptype, data: Seq::empty() }
}

/// A connection that is open.
pub open spec fn opened(s: SocketView) -> SocketView {
    SocketView { connected: true, ..s }
}

/// A connection that is closed.
pub open spec fn closed(s: SocketView) -> SocketView {
    SocketView { connected: false, ..s }
}

/// What closing makes a connection do.
pub open spec fn closing(s: SocketView) -> Seq<ActionView> {
    if s.connected {
        notified(s, EventView::OnClose(s.sid))
    } else {
        Seq::empty()
    }
}

/// A connection after a packet came.
pub open spec fn after_packet(s: SocketView, p: PacketView, now: u64) -> SocketView {
    let s = SocketView { last_pong: now, ..s };
    match p.ptype {
        PacketType::Close => closed(s),
        PacketType::Ping => SocketView { last_ping: now, ..s },
        _ => s,
    }
}

/// What a packet that came makes a connection do.
pub open spec fn on_packet(s: SocketView, p: PacketView, now: u64) -> Seq<ActionView> {
    notified(s, EventView::OnPacket(s.sid, p)) + match p.ptype {
        PacketType::Message => notified(s, EventView::OnData(s.sid, p.data)),
        PacketType::MessageBinary => notified(s, EventView::OnData(s.sid, p.data)),
        PacketType::Close => closing(s),
        PacketType::Ping => if s.should_pong {
            emitted(s, PacketView { ptype: PacketType::Pong, data: p.data })
        } else {
            Seq::empty()
        },
        _ => Seq::empty(),
    }
}

/// A connection after packets came, one after the other.
pub open spec fn after_packets(s: SocketView, packets: Seq<PacketView>, now: u64) -> SocketView
    decreases packets.len(),
{
    if packets.len() == 0 {
        s
    } else {
        after_packet(after_packets(s, packets.drop_last(), now), packets.last(), now)
    }
}

/// What packets that came make a connection do.
pub open spec fn on_packets(s: SocketView, packets: Seq<PacketView>, now: u64) -> Seq<ActionView>
    decreases packets.len(),
{
    if packets.len() == 0 {
        Seq::empty()
    } else {
        on_packets(s, packets.drop_last(), now) + on_packet(
            after_packets(s, packets.drop_last(), now),
            packets.last(),
            now,
        )
    }
}

/// Puts actions behind others.
fn then_do(actions: &mut Vec<Action>, more: Vec<Action>)
    ensures
        action_views(final(actions)@) == action_views(old(actions)@) + action_views(more@),
{
    let mut more = more;
    let ghost before = actions@;
    let ghost added = more@;
    actions.append(&mut more);
    assert(actions@ =~= before + added);
    assert(action_views(actions@) =~= action_views(before) + action_views(added));
}

/// A row of one action.
fn only(action: Action) -> (actions: Vec<Action>)
    ensures
        action_views(actions@) == seq![action@],
{
    let mut actions: Vec<Action> = Vec::new();
    actions.push(action);
    assert(action_views(actions@) =~= seq![action@]);
    actions
}

/// No action.
fn nothing() -> (actions: Vec<Action>)
    ensures
        action_views(actions@) == Seq::<ActionView>::empty(),
{
    let actions: Vec<Action> = Vec::new();
    assert(action_views(actions@) =~= Seq::<ActionView>::empty());
    actions
}

impl Socket {
    /// Makes a connection that is not open yet.
    pub fn new(
        handshake: HandshakePacket,
        observed: bool,
        should_pong: bool,
        server_end: bool,
        now: u64,
    ) -> (socket: Self)
        ensures
            socket@ == (SocketView {
                connected: false,
                last_ping: now,
                last_pong: now,
                sid: handshake.sid@,
                server_end,
                should_pong,
                observed,
            }),
    {
        Socket {
            connected: false,
            last_ping: now,
            last_pong: now,
            connection_data: handshake,
            server_end,
            should_pong,
            observed,
        }
    }

    /// When the last packet came.
    pub fn last_pong(&self) -> (at: u64)
        ensures
            at == self@.last_pong,
    {
        self.last_pong
    }

    /// When the last ping came.
    pub fn last_ping(&self) -> (at: u64)
        ensures
            at == self@.last_ping,
    {
        self.last_ping
    }

    /// The session's identifier.
    pub fn sid(&self) -> (sid: Sid)
        ensures
            sid@ == self@.sid,
    {
        Arc::clone(&self.connection_data.sid)
    }

    /// Whether the connection is open.
    pub fn is_connected(&self) -> (connected: bool)
        ensures
            connected == self@.connected,
    {
        self.connected
    }

    /// Tells the observer, if there is one.
    fn notify(&self, event: Event) -> (actions: Vec<Action>)
        ensures
            action_views(actions@) == notified(self@, event@),
    {
        if self.observed {
            only(Action::Notify(event))
        } else {
            nothing()
        }
    }

    /// Opens the connection. What is left to do once the observer was told is up to
    /// [`Socket::finish_connect`].
    pub fn connect(&mut self) -> (actions: Vec<Action>)
        ensures
            final(self)@ == opened(old(self)@),
            action_views(actions@) == notified(old(self)@, EventView::OnOpen(old(self)@.sid)),
    {
        self.connected = true;
        self.notify(Event::OnOpen(self.sid()))
    }

    /// Completes the opening. A client sends a first pong, to trigger the ping cycle of the
    /// server.
    pub fn finish_connect(&mut self, now: u64) -> (actions: Vec<Action>)
        ensures
            final(self)@ == (SocketView { last_ping: now, ..old(self)@ }),
            action_views(actions@) == if old(self)@.server_end {
                Seq::empty()
            } else {
                emitted(old(self)@, bare(PacketType::Pong))
            },
    {
        // set the last ping to now
        self.last_ping = now;
        if !self.server_end {
            // emit a pong packet to keep trigger the ping cycle on the server
            self.emit(Packet::new(PacketType::Pong, Vec::new())).0
        } else {
            nothing()
        }
    }

    /// Emits a packet: sends it, or complains while the connection is not open.
    pub fn emit(&self, packet: Packet) -> (outcome: (Vec<Action>, Result<(), Error>))
        ensures
            action_views(outcome.0@) == emitted(self@, packet@),
            outcome.1 is Ok <==> self@.connected,
            outcome.1 matches Err(e) ==> e == Error::IllegalActionBeforeOpen(),
    {
        if !self.connected {
            let error = Error::IllegalActionBeforeOpen();
            let actions = self.on_error(error.text());
            return (actions, Err(error));
        }
        // if this is a binary attachment, then send the raw bytes
        let data = match packet.ptype {
            PacketType::MessageBinary => Data::Binary(packet.data),
            _ => Data::Text(Vec::<u8>::from(packet)),
        };
        (only(Action::Send(data)), Ok(()))
    }

    /// Tells the observer of an error, such as that of the transport.
    pub fn on_error(&self, text: String) -> (actions: Vec<Action>)
        ensures
            action_views(actions@) == notified(self@, EventView::OnError(self@.sid, text@)),
    {
        self.notify(Event::OnError(self.sid(), text))
    }

    /// Starts to close the connection from this end; nothing is left to do where it is not open.
    /// Once all of it was done, [`Socket::finish_disconnect`] completes the closing.
    pub fn disconnect(&self) -> (actions: Option<Vec<Action>>)
        ensures
            actions is Some <==> self@.connected,
            actions matches Some(a) ==> action_views(a@) == closing(self@) + emitted(
                self@,
                bare(PacketType::Close),
            ),
    {
        if !self.connected {
            return None;
        }
        let mut actions = self.notify(Event::OnClose(self.sid()));
        then_do(&mut actions, self.emit(Packet::new(PacketType::Close, Vec::new())).0);
        Some(actions)
    }

    /// Completes the closing from this end.
    pub fn finish_disconnect(&mut self)
        ensures
            final(self)@ == closed(old(self)@),
    {
        self.connected = false;
    }

    /// Takes a ping.
    pub fn pinged(&mut self, now: u64)
        ensures
            final(self)@ == (SocketView { last_ping: now, ..old(self)@ }),
    {
        self.last_ping = now;
    }

    /// Takes a sign of life.
    pub fn ponged(&mut self, now: u64)
        ensures
            final(self)@ == (SocketView { last_pong: now, ..old(self)@ }),
    {
        self.last_pong = now;
    }

    /// Tells the observer of a packet.
    pub fn handle_packet(&self, packet: Packet) -> (actions: Vec<Action>)
        ensures
            action_views(actions@) == notified(self@, EventView::OnPacket(self@.sid, packet@)),
    {
        self.notify(Event::OnPacket(self.sid(), packet))
    }

    /// Tells the observer of data.
    pub fn handle_data(&self, data: Vec<u8>) -> (actions: Vec<Action>)
        ensures
            action_views(actions@) == notified(self@, EventView::OnData(self@.sid, data@)),
    {
        self.notify(Event::OnData(self.sid(), data))
    }

    /// Closes the connection on behalf of the other end.
    pub fn handle_close(&mut self) -> (actions: Vec<Action>)
        ensures
            final(self)@ == closed(old(self)@),
            action_views(actions@) == closing(old(self)@),
    {
        if !self.connected {
            return nothing();
        }
        let actions = self.notify(Event::OnClose(self.sid()));
        self.connected = false;
        actions
    }

    /// Takes a packet.
    pub fn handle_incoming_packet(&mut self, packet: Packet, now: u64) -> (actions: Vec<Action>)
        ensures
            final(self)@ == after_packet(old(self)@, packet@, now),
            action_views(actions@) == on_packet(old(self)@, packet@, now),
    {
        // update last_pong on any packet, incoming data is a good sign of other side's liveness
        self.ponged(now);
        // check for the appropriate action or callback
        let mut actions = self.handle_packet(packet.clone());
        let more = match packet.ptype {
            PacketType::MessageBinary | PacketType::Message => self.handle_data(packet.data),
            PacketType::Close => self.handle_close(),
            PacketType::Ping => {
                self.pinged(now);
                // server should not pong
                if self.should_pong {
                    self.emit(Packet::new(PacketType::Pong, packet.data)).0
                } else {
                    nothing()
                }
            },
            // an upgrade is already checked during the handshake
            PacketType::Upgrade | PacketType::Pong | PacketType::Open | PacketType::Noop => nothing(),
        };
        then_do(&mut actions, more);
        assert(action_views(actions@) =~= on_packet(old(self)@, packet@, now));
        actions
    }

    /// Reads the packets of a payload. Each is to be taken by [`Socket::handle_incoming_packet`]
    /// when it is handed out.
    pub fn parse_payload(bytes: Vec<u8>) -> (packets: Result<Vec<Packet>, Error>)
        ensures
            match packets {
                Ok(packets) => payload::decoded_payload(bytes@) == Ok::<Seq<PacketView>, Error>(
                    packet::packet_views(packets@),
                ),
                Err(e) => payload::decoded_payload(bytes@) == Err::<Seq<PacketView>, Error>(e),
            },
    {
        match Payload::try_from(bytes) {
            Ok(payload) => Ok(payload.into_packets()),
            Err(e) => Err(e),
        }
    }
}

/// What one end emits over a websocket the other end takes as that packet alone, if it is text
/// that can stand in a payload; binary data come as a message, if there are any and they hold no
/// separator.
pub proof fn law_emitted_packet_arrives_by_websocket(p: PacketView)
    requires
        p.ptype != PacketType::MessageBinary ==> payload::fits_payload(p) && valid_utf8(
            packet::encoded_packet(p),
        ),
        p.ptype == PacketType::MessageBinary ==> p.data.len() > 0 && !p.data.contains(SEPARATOR),
    ensures
        transports::data_message(packet_data(p)) matches Some(m) && (transports::received(m) matches Some(
            bytes,
        ) && payload::decoded_payload(bytes) == Ok::<Seq<PacketView>, Error>(
            seq![
                if p.ptype == PacketType::MessageBinary {
                    PacketView { ptype: PacketType::Message, data: p.data }
                } else {
                    p
                },
            ],
        )),
{
    if p.ptype == PacketType::MessageBinary {
        transports::law_websocket_binary_arrives(p.data);
    } else {
        transports::law_websocket_text_arrives(p);
    }
}

/// What a client posts while it polls the server takes as that packet alone, if it is text that
/// can stand in a payload.
pub proof fn law_posted_packet_arrives(p: PacketView)
    requires
        p.ptype != PacketType::MessageBinary,
        payload::fits_payload(p),
    ensures
        payload::decoded_payload(transports::polling_body(packet_data(p))) == Ok::<
            Seq<PacketView>,
            Error,
        >(seq![p]),
{
    packet::law_text_packet_is_read_back(p);
    assert(packet::encoded_packet(p).skip(1) =~= p.data);
    transports::lemma_lone_packet(packet::encoded_packet(p), p);
}

/// While a connection is not open, emitting sends nothing.
pub proof fn law_nothing_is_sent_before_open(s: SocketView, p: PacketView)
    requires
        !s.connected,
    ensures
        forall|i: int| 0 <= i < emitted(s, p).len() ==> (#[trigger] emitted(s, p)[i]) is Notify,
{
}

/// Packets that come neither open a connection nor change whose it is; each counts as a sign of
/// life.
pub proof fn law_packets_keep_identity(s: SocketView, packets: Seq<PacketView>, now: u64)
    ensures
        ({
            let t = after_packets(s, packets, now);
            &&& t.sid == s.sid
            &&& t.server_end == s.server_end
            &&& t.should_pong == s.should_pong
            &&& t.observed == s.observed
            &&& t.connected ==> s.connected
            &&& packets.len() > 0 ==> t.last_pong == now
        }),
    decreases packets.len(),
{
    if packets.len() > 0 {
        law_packets_keep_identity(s, packets.drop_last(), now);
    }
}

/// A close packet among packets leaves the connection closed, whatever else comes.
pub proof fn law_close_packet_closes(s: SocketView, packets: Seq<PacketView>, now: u64, i: int)
    requires
        0 <= i < packets.len(),
        packets[i].ptype == PacketType::Close,
    ensures
        !after_packets(s, packets, now).connected,
    decreases packets.len(),
{
    if i < packets.len() - 1 {
        law_close_packet_closes(s, packets.drop_last(), now, i);
    }
}

/// The number of times that actions tell of the closing of a connection.
pub open spec fn closings_told(actions: Seq<ActionView>) -> nat
    decreases actions.len(),
{
    if actions.len() == 0 {
        0
    } else {
        closings_told(actions.drop_last()) + if actions.last() matches ActionView::Notify(
            EventView::OnClose(_),
        ) {
            1nat
        } else {
            0nat
        }
    }
}

proof fn lemma_closings_told_concat(a: Seq<ActionView>, b: Seq<ActionView>)
    ensures
        closings_told(a + b) == closings_told(a) + closings_told(b),
    decreases b.len(),
{
    if b.len() == 0 {
        assert(a + b =~= a);
    } else {
        assert((a + b).drop_last() =~= a + b.drop_last());
        lemma_closings_told_concat(a, b.drop_last());
    }
}

/// However many close packets come, the observer is told of the closing once, and only where the
/// connection was open and is closed then.
pub proof fn law_closing_is_told_once(s: SocketView, packets: Seq<PacketView>, now: u64)
    ensures
        closings_told(on_packets(s, packets, now)) == if s.observed && s.connected && !after_packets(
            s,
            packets,
            now,
        ).connected {
            1nat
        } else {
            0nat
        },
    decreases packets.len(),
{
    if packets.len() > 0 {
        let before = packets.drop_last();
        let t = after_packets(s, before, now);
        law_closing_is_told_once(s, before, now);
        law_packets_keep_identity(s, before, now);
        lemma_closings_told_concat(on_packets(s, before, now), on_packet(t, packets.last(), now));
        let told = notified(t, EventView::OnPacket(t.sid, packets.last()));
        reveal_with_fuel(closings_told, 3);
        assert(on_packet(t, packets.last(), now).drop_last() =~= told
            || on_packet(t, packets.last(), now).drop_last() =~= Seq::<ActionView>::empty()
            || on_packet(t, packets.last(), now) =~= Seq::<ActionView>::empty());
    }
}

/// Emitting a packet over an open connection sends one thing and does nothing else: binary data as
/// they are, or else the character of the packet's type and its data. Over one that is not open it
/// only tells the observer, if there is one.
pub proof fn law_emitting_sends_once(s: SocketView, p: PacketView)
    ensures
        s.connected && p.ptype == PacketType::MessageBinary ==> emitted(s, p) == seq![
            ActionView::Send(DataView::Binary(p.data)),
        ],
        s.connected && p.ptype != PacketType::MessageBinary ==> emitted(s, p).len() == 1 && (emitted(
            s,
            p,
        )[0] matches ActionView::Send(DataView::Text(bytes)) && bytes.len() == p.data.len() + 1
            && bytes[0] as int == packet::type_text(p.ptype)[0] as int && bytes.skip(1) == p.data),
        !s.connected && s.observed ==> emitted(s, p) == seq![
            ActionView::Notify(EventView::OnError(s.sid, "Illegal action before open"@)),
        ],
        !s.connected && !s.observed ==> emitted(s, p).len() == 0,
{
    packet::law_packet_is_written(p);
}

/// What a packet makes an observed connection do. The observer is told of the packet first. Behind
/// that it is told of the data of a message, of either kind, and of the closing of an open connection
/// by a close packet. A ping is answered by a `3` and the ping's data, if pings are answered and the
/// connection is open. Nothing else is done.
pub proof fn law_packet_is_told(s: SocketView, p: PacketView, now: u64)
    requires
        s.observed,
    ensures
        ({
            let done = on_packet(s, p, now);
            let told = ActionView::Notify(EventView::OnPacket(s.sid, p));
            &&& done.len() > 0
            &&& done[0] == told
            &&& p.ptype == PacketType::Message || p.ptype == PacketType::MessageBinary ==> done == seq![
                told,
                ActionView::Notify(EventView::OnData(s.sid, p.data)),
            ]
            &&& p.ptype == PacketType::Close && s.connected ==> done == seq![
                told,
                ActionView::Notify(EventView::OnClose(s.sid)),
            ]
            &&& p.ptype == PacketType::Close && !s.connected ==> done == seq![told]
            &&& p.ptype == PacketType::Ping && s.should_pong && s.connected ==> done == seq![
                told,
                ActionView::Send(DataView::Text(seq![0x33u8] + p.data)),
            ]
            &&& p.ptype == PacketType::Ping && s.should_pong && !s.connected ==> done == seq![
                told,
                ActionView::Notify(EventView::OnError(s.sid, "Illegal action before open"@)),
            ]
            &&& p.ptype == PacketType::Ping && !s.should_pong ==> done == seq![told]
            &&& p.ptype == PacketType::Open || p.ptype == PacketType::Pong || p.ptype
                == PacketType::Upgrade || p.ptype == PacketType::Noop ==> done == seq![told]
        }),
{
    lemma_pong_bytes(p.data);
    let told = ActionView::Notify(EventView::OnPacket(s.sid, p));
    assert(seq![told] + Seq::<ActionView>::empty() =~= seq![told]);
    match p.ptype {
        PacketType::Message | PacketType::MessageBinary => {
            let data = ActionView::Notify(EventView::OnData(s.sid, p.data));
            assert(seq![told] + seq![data] =~= seq![told, data]);
        },
        PacketType::Close => {
            let close = ActionView::Notify(EventView::OnClose(s.sid));
            assert(seq![told] + seq![close] =~= seq![told, close]);
        },
        PacketType::Ping => {
            let pong = ActionView::Send(DataView::Text(seq![0x33u8] + p.data));
            assert(seq![told] + seq![pong] =~= seq![told, pong]);
            let error = ActionView::Notify(EventView::OnError(s.sid, "Illegal action before open"@));
            assert(seq![told] + seq![error] =~= seq![told, error]);
        },
        _ => {},
    }
}

/// What a packet makes a connection do that nobody observes: nothing, but for the answer to a ping.
pub proof fn law_packet_is_taken_unobserved(s: SocketView, p: PacketView, now: u64)
    requires
        !s.observed,
    ensures
        p.ptype == PacketType::Ping && s.should_pong && s.connected ==> on_packet(s, p, now) == seq![
            ActionView::Send(DataView::Text(seq![0x33u8] + p.data)),
        ],
        !(p.ptype == PacketType::Ping && s.should_pong && s.connected) ==> on_packet(s, p, now).len() == 0,
{
    lemma_pong_bytes(p.data);
    let pong = ActionView::Send(DataView::Text(seq![0x33u8] + p.data));
    assert(Seq::<ActionView>::empty() + seq![pong] =~= seq![pong]);
}

proof fn lemma_pong_bytes(data: Seq<u8>)
    ensures
        packet::encoded_packet(PacketView { ptype: PacketType::Pong, data }) == seq![0x33u8] + data,
{
    let p = PacketView { ptype: PacketType::Pong, data };
    packet::law_packet_is_written(p);
    packet::law_type_texts(PacketType::Pong);
    assert(packet::encoded_packet(p) =~= seq![packet::encoded_packet(p)[0]]
        + packet::encoded_packet(p).skip(1));
}

/// How a packet changes a connection: it came now; a ping is the last one from then on; a close packet
/// closes; and nothing else changes.
pub proof fn law_packet_changes(s: SocketView, p: PacketView, now: u64)
    ensures
        ({
            let t = after_packet(s, p, now);
            &&& t.last_pong == now
            &&& p.ptype == PacketType::Ping ==> t.last_ping == now
            &&& p.ptype != PacketType::Ping ==> t.last_ping == s.last_ping
            &&& t.connected <==> s.connected && p.ptype != PacketType::Close
            &&& t.sid == s.sid
            &&& t.server_end == s.server_end
            &&& t.should_pong == s.should_pong
            &&& t.observed == s.observed
        }),
{
}

/// Packets are taken in turn: what some do, and then others, is what all of them do; and one alone
/// does what it does.
pub proof fn law_packets_are_taken_in_turn(
    s: SocketView,
    a: Seq<PacketView>,
    b: Seq<PacketView>,
    p: PacketView,
    now: u64,
)
    ensures
        after_packets(s, a + b, now) == after_packets(after_packets(s, a, now), b, now),
        on_packets(s, a + b, now) == on_packets(s, a, now) + on_packets(
            after_packets(s, a, now),
            b,
            now,
        ),
        after_packets(s, seq![p], now) == after_packet(s, p, now),
        on_packets(s, seq![p], now) == on_packet(s, p, now),
        after_packets(s, Seq::empty(), now) == s,
        on_packets(s, Seq::empty(), now) == Seq::<ActionView>::empty(),
    decreases b.len(),
{
    let one = seq![p];
    assert(one.drop_last() =~= Seq::empty());
    assert(after_packets(s, one.drop_last(), now) == s);
    assert(on_packets(s, one.drop_last(), now) =~= Seq::<ActionView>::empty());
    assert(on_packets(s, one, now) =~= on_packet(s, p, now));
    if b.len() == 0 {
        assert(a + b =~= a);
        assert(on_packets(s, a, now) + Seq::<ActionView>::empty() =~= on_packets(s, a, now));
    } else {
        law_packets_are_taken_in_turn(s, a, b.drop_last(), p, now);
        assert((a + b).drop_last() =~= a + b.drop_last());
        assert((a + b).last() == b.last());
        let t = after_packets(s, a, now);
        assert(on_packets(s, a + b, now) =~= on_packets(s, a, now) + on_packets(t, b, now));
    }
}

/// Opening and closing change whether a connection is open, and nothing else. The closing of an open
/// connection is told once; there is nothing to tell where it was not open.
pub proof fn law_opening_and_closing(s: SocketView)
    ensures
        opened(s).connected,
        !closed(s).connected,
        opened(closed(s)) == opened(s),
        closed(opened(s)) == closed(s),
        s.connected ==> opened(s) == s,
        !s.connected ==> closed(s) == s,
        s.connected && s.observed ==> closing(s) == seq![ActionView::Notify(EventView::OnClose(s.sid))],
        !s.connected || !s.observed ==> closing(s).len() == 0,
{
}

/// Only an observed connection tells, and it tells just what there is to tell.
pub proof fn law_observer_is_told(s: SocketView, event: EventView, ptype: PacketType)
    ensures
        s.observed ==> notified(s, event).len() == 1 && notified(s, event)[0] == ActionView::Notify(event),
        !s.observed ==> notified(s, event).len() == 0,
        bare(ptype).ptype == ptype,
        bare(ptype).data.len() == 0,
{
}

/// The values of actions stand in the places of the actions, one for each.
pub proof fn law_action_values_in_place(row: Seq<Action>, i: int)
    requires
        0 <= i < row.len(),
    ensures
        action_views(row).len() == row.len(),
        action_views(row)[i] == row[i]@,
{
}

}
