//! The state of an `engine.io` server.
use std::sync::Arc;

use vstd::prelude::*;
use vstd::string::*;
use vstd::utf8::*;

use crate::binary;
use crate::engineio::error::Error;
use crate::engineio::packet;
use crate::engineio::packet::{HandshakePacket, Packet, PacketType, PacketView, Sid};
use crate::engineio::socket;
use crate::engineio::socket::{Action, ActionView, EventView, Socket, SocketView};
use crate::table::Table;
use crate::text;

verus! {

#[derive(Debug, Clone, Copy)]
pub struct ServerOption {
    pub ping_timeout: u64,
    pub ping_interval: u64,
    pub max_payload: usize,
}

/// The options of a server that was given none.
pub open spec fn default_option() -> ServerOption {
    ServerOption { ping_timeout: 25000, ping_interval: 20000, max_payload: 1024 }
}

impl Default for ServerOption {
    fn default() -> (option: Self)
        ensures
            option == default_option(),
    {
        Self { ping_timeout: 25000, ping_interval: 20000, max_payload: 1024 }
    }
}

/// The number after another, starting over after the last.
pub open spec fn following(seq: usize) -> usize {
    if seq == usize::MAX {
        0
    } else {
        (seq + 1) as usize
    }
}

/// The bytes that the identifier of a session stands for: the text of its number.
pub open spec fn sid_bytes(seq: usize) -> Seq<u8> {
    encode_utf8(text::decimal(seq as nat))
}

/// A source of identifiers of sessions.
#[derive(Debug)]
pub struct SidGenerator {
    seq: usize,
}

impl View for SidGenerator {
    type V = usize;

    closed spec fn view(&self) -> usize {
        self.seq
    }
}

impl Default for SidGenerator {
    fn default() -> (generator: Self)
        ensures
            generator@ == 0,
    {
        SidGenerator { seq: 0 }
    }
}

impl SidGenerator {
    /// Makes an identifier: the base64 text of a number that goes up by one each time.
    pub fn generate(&mut self) -> (sid: Sid)
        ensures
            final(self)@ == following(old(self)@),
            old(self)@ < usize::MAX ==> final(self)@ == old(self)@ + 1,
            old(self)@ == usize::MAX ==> final(self)@ == 0,
            sid@ == binary::base64_text(sid_bytes(old(self)@)),
            binary::is_base64_text(sid@),
            binary::stands_for(sid@, sid_bytes(old(self)@)),
    {
        let number = text::decimal_text(self.seq as u64);
        self.seq = self.seq.wrapping_add(1);
        Arc::new(binary::encode(number.as_str().as_bytes()))
    }
}

/// Identifiers that were made of different numbers differ.
pub proof fn law_sids_differ(a: Seq<char>, m: usize, b: Seq<char>, n: usize)
    requires
        binary::stands_for(a, sid_bytes(m)),
        binary::stands_for(b, sid_bytes(n)),
        m != n,
    ensures
        a != b,
{
    if a == b {
        text::lemma_utf8_injective(text::decimal(m as nat), text::decimal(n as nat));
        text::law_decimal_is_injective(m as nat, n as nat);
    }
}

/// The number that a source is at after some calls.
pub open spec fn number_after(seq: usize, calls: nat) -> usize
    decreases calls,
{
    if calls == 0 {
        seq
    } else {
        following(number_after(seq, (calls - 1) as nat))
    }
}

/// A source counts its calls: each number is larger by the calls since, and only after the largest
/// number it starts over at zero.
pub proof fn law_numbers_count_calls(seq: usize, calls: nat)
    ensures
        seq + calls <= usize::MAX ==> number_after(seq, calls) == seq + calls,
        usize::MAX < seq + calls && calls <= usize::MAX ==> number_after(seq, calls) == seq + calls
            - usize::MAX - 1,
    decreases calls,
{
    if calls > 0 {
        law_numbers_count_calls(seq, (calls - 1) as nat);
    }
}

proof fn lemma_calls_in_parts(seq: usize, first: nat, calls: nat)
    ensures
        number_after(seq, first + calls) == number_after(number_after(seq, first), calls),
    decreases calls,
{
    if calls > 0 {
        lemma_calls_in_parts(seq, first, (calls - 1) as nat);
        assert((first + calls - 1) as nat == first + (calls - 1) as nat);
    }
}

/// The numbers of two calls of one source differ, however many calls were made before them, unless
/// more calls lie between them than there are numbers.
pub proof fn law_numbers_differ(seq: usize, first: nat, second: nat)
    requires
        first < second,
        second - first <= usize::MAX,
    ensures
        number_after(seq, first) != number_after(seq, second),
{
    let between = (second - first) as nat;
    lemma_calls_in_parts(seq, first, between);
    law_numbers_count_calls(number_after(seq, first), between);
}

/// The identifiers that one source hands out are different, unless more calls lie between them than
/// there are numbers.
pub proof fn law_handed_out_sids_differ(
    seq: usize,
    first: nat,
    a: Seq<char>,
    second: nat,
    b: Seq<char>,
)
    requires
        first < second,
        second - first <= usize::MAX,
        binary::stands_for(a, sid_bytes(number_after(seq, first))),
        binary::stands_for(b, sid_bytes(number_after(seq, second))),
    ensures
        a != b,
{
    law_numbers_differ(seq, first, second);
    law_sids_differ(a, number_after(seq, first), b, number_after(seq, second));
}

/// The bytes that an identifier stands for are a text, and that text is read as the number that the
/// identifier was made of.
pub proof fn law_sid_tells_its_number(seq: usize)
    ensures
        valid_utf8(sid_bytes(seq)),
        text::number(decode_utf8(sid_bytes(seq))) == Some(seq as nat),
{
    let s = text::decimal(seq as nat);
    encode_utf8_valid_utf8(s);
    encode_utf8_decode_utf8(s);
    text::law_number_of_decimal(seq as nat);
}

/// What a server is made with.
#[derive(Debug)]
pub struct ServerBuilder {
    port: u16,
    server_option: ServerOption,
    polling_buffer: usize,
    event_size: usize,
}

/// The value of a [`ServerBuilder`].
pub struct ServerBuilderView {
    pub port: u16,
    pub server_option: ServerOption,
    /// The number of payloads that wait for a polling client.
    pub polling_buffer: usize,
    /// The number of events that wait for the observer.
    pub event_size: usize,
}

impl View for ServerBuilder {
    type V = ServerBuilderView;

    closed spec fn view(&self) -> ServerBuilderView {
        ServerBuilderView {
            port: self.port,
            server_option: self.server_option,
            polling_buffer: self.polling_buffer,
            event_size: self.event_size,
        }
    }
}

impl ServerBuilder {
    pub fn new(port: u16) -> (builder: Self)
        ensures
            builder@ == (ServerBuilderView {
                port,
                server_option: default_option(),
                polling_buffer: 100,
                event_size: 1000,
            }),
    {
        ServerBuilder {
            port,
            server_option: ServerOption::default(),
            polling_buffer: 100,
            event_size: 1000,
        }
    }

    pub fn server_option(self, server_option: ServerOption) -> (builder: Self)
        ensures
            builder@ == (ServerBuilderView { server_option, ..self@ }),
    {
        ServerBuilder { server_option, ..self }
    }

    pub fn polling_buffer(self, polling_buffer: usize) -> (builder: Self)
        ensures
            builder@ == (ServerBuilderView { polling_buffer, ..self@ }),
    {
        ServerBuilder { polling_buffer, ..self }
    }

    pub fn event_size(self, event_size: usize) -> (builder: Self)
        ensures
            builder@ == (ServerBuilderView { event_size, ..self@ }),
    {
        ServerBuilder { event_size, ..self }
    }

    pub fn build(self) -> (server: Server)
        ensures
            server@ == (ServerView {
                config: self@,
                seq: 0,
                sockets: Map::empty(),
            }),
    {
        let server = Server {
            config: self,
            id_generator: SidGenerator::default(),
            sockets: Table::new(),
        };
        assert(socket_views(server.sockets@) =~= Map::<Seq<char>, SocketView>::empty());
        server
    }
}

/// The state of a server: what it was made with, and its connections by their sessions.
#[derive(Debug)]
pub struct Server {
    config: ServerBuilder,
    id_generator: SidGenerator,
    sockets: Table<Socket>,
}

/// The value of a [`Server`].
pub struct ServerView {
    pub config: ServerBuilderView,
    /// The number of the next session.
    pub seq: usize,
    pub sockets: Map<Seq<char>, SocketView>,
}

/// The values of connections.
pub open spec fn socket_views(sockets: Map<Seq<char>, Socket>) -> Map<Seq<char>, SocketView> {
    sockets.map_values(|s: Socket| s@)
}

impl View for Server {
    type V = ServerView;

    closed spec fn view(&self) -> ServerView {
        ServerView {
            config: self.config@,
            seq: self.id_generator@,
            sockets: socket_views(self.sockets@),
        }
    }
}

/// A server with other connections.
pub open spec fn with_sockets(s: ServerView, sockets: Map<Seq<char>, SocketView>) -> ServerView {
    ServerView { sockets, ..s }
}

/// A connection of a server, as it is made: the client pings back, and the server is observed.
pub open spec fn fresh_socket(sid: Seq<char>, now: u64) -> SocketView {
    SocketView {
        connected: true,
        last_ping: now,
        last_pong: now,
        sid,
        server_end: true,
        should_pong: false,
        observed: true,
    }
}

/// How long ago something was.
pub open spec fn elapsed(then: u64, now: u64) -> int {
    if now < then {
        0
    } else {
        now - then
    }
}

/// How long a connection may be silent.
pub open spec fn silence_limit(option: ServerOption) -> int {
    option.ping_timeout + option.ping_interval
}

/// Whether a connection is kept, given whether a ping could be sent and when the last packet came.
pub open spec fn is_kept(
    option: ServerOption,
    ping_sent: bool,
    last_pong: Option<u64>,
    now: u64,
) -> bool {
    ping_sent && (last_pong matches Some(then) && elapsed(then, now) < silence_limit(option))
}

/// Whether a handshake tells of the options of a server.
pub open spec fn has_options(handshake: HandshakePacket, option: ServerOption) -> bool {
    &&& handshake.ping_interval == option.ping_interval
    &&& handshake.ping_timeout == option.ping_timeout
    &&& handshake.max_payload == option.max_payload
}

impl Server {
    /// The port that the server listens on.
    pub fn port(&self) -> (port: u16)
        ensures
            port == self@.config.port,
    {
        self.config.port
    }

    /// The number of payloads that wait for a polling client.
    pub fn polling_buffer(&self) -> (size: usize)
        ensures
            size == self@.config.polling_buffer,
    {
        self.config.polling_buffer
    }

    /// The number of events that wait for the observer.
    pub fn event_size(&self) -> (size: usize)
        ensures
            size == self@.config.event_size,
    {
        self.config.event_size
    }

    /// The options of the server.
    pub fn server_option(&self) -> (option: ServerOption)
        ensures
            option == self@.config.server_option,
    {
        self.config.server_option
    }

    /// The number of bytes of a request that are read.
    pub fn max_payload(&self) -> (n: usize)
        ensures
            n == 1000,
    {
        1000
    }

    /// Makes an identifier for a session.
    pub fn generate_sid(&mut self) -> (sid: Sid)
        ensures
            final(self)@ == (ServerView { seq: following(old(self)@.seq), ..old(self)@ }),
            old(self)@.seq < usize::MAX ==> final(self)@.seq == old(self)@.seq + 1,
            sid@ == binary::base64_text(sid_bytes(old(self)@.seq)),
            binary::is_base64_text(sid@),
            binary::stands_for(sid@, sid_bytes(old(self)@.seq)),
    {
        self.id_generator.generate()
    }

    /// Makes the handshake of a session, which is a new one where none is given.
    pub fn handshake_packet(&mut self, upgrades: Vec<String>, sid: Option<Sid>) -> (handshake:
        HandshakePacket)
        ensures
            handshake.upgrades == upgrades,
            has_options(handshake, old(self)@.config.server_option),
            match sid {
                Some(sid) => handshake.sid@ == sid@ && final(self)@ == old(self)@,
                None => handshake.sid@ == binary::base64_text(sid_bytes(old(self)@.seq))
                    && final(self)@ == (ServerView { seq: following(old(self)@.seq), ..old(self)@ })
                    && (old(self)@.seq < usize::MAX ==> final(self)@.seq == old(self)@.seq + 1),
            },
    {
        let sid = match sid {
            Some(sid) => sid,
            None => self.id_generator.generate(),
        };
        HandshakePacket {
            sid,
            upgrades,
            ping_interval: self.config.server_option.ping_interval,
            ping_timeout: self.config.server_option.ping_timeout,
            max_payload: self.config.server_option.max_payload,
        }
    }

    /// Makes the handshake of a session that polls: it may change to a websocket.
    pub fn polling_handshake(&mut self, sid: Sid) -> (handshake: HandshakePacket)
        ensures
            final(self)@ == old(self)@,
            handshake.sid@ == sid@,
            text::texts(handshake.upgrades@) == seq!["websocket"@],
            has_options(handshake, old(self)@.config.server_option),
    {
        let mut upgrades: Vec<String> = Vec::new();
        upgrades.push("websocket".to_owned());
        assert(text::texts(upgrades@) =~= seq!["websocket"@]);
        self.handshake_packet(upgrades, Some(sid))
    }

    /// Makes the handshake of a session over a websocket, which has nothing to change to.
    pub fn websocket_handshake(&mut self, sid: Sid) -> (handshake: HandshakePacket)
        ensures
            final(self)@ == old(self)@,
            handshake.sid@ == sid@,
            handshake.upgrades@.len() == 0,
            has_options(handshake, old(self)@.config.server_option),
    {
        self.handshake_packet(Vec::new(), Some(sid))
    }

    /// Makes the connection of a session and opens it. Once the observer was told,
    /// [`Server::store_socket`] keeps the connection.
    pub fn open_socket(&mut self, sid: Sid, now: u64) -> (opening: (Socket, Vec<Action>))
        ensures
            final(self)@ == old(self)@,
            opening.0@ == fresh_socket(sid@, now),
            socket::action_views(opening.1@) == seq![ActionView::Notify(EventView::OnOpen(sid@))],
    {
        let mut upgrades: Vec<String> = Vec::new();
        upgrades.push("webscocket".to_owned());
        let handshake = self.handshake_packet(upgrades, Some(sid));
        // server no need to pong
        let mut socket = Socket::new(handshake, true, false, true, now);
        let actions = socket.connect();
        (socket, actions)
    }

    /// Completes the opening of a connection, and keeps it. The connection that the session had
    /// before is handed out.
    pub fn store_socket(&mut self, sid: &Sid, socket: Socket, now: u64) -> (stored: (
        Vec<Action>,
        Option<Socket>,
    ))
        ensures
            final(self)@ == with_sockets(
                old(self)@,
                old(self)@.sockets.insert(sid@, SocketView { last_ping: now, ..socket@ }),
            ),
            socket::action_views(stored.0@) == if socket@.server_end {
                Seq::<ActionView>::empty()
            } else {
                socket::emitted(socket@, socket::bare(PacketType::Pong))
            },
            stored.1 is Some <==> old(self)@.sockets.dom().contains(sid@),
            stored.1 matches Some(s) ==> s@ == old(self)@.sockets[sid@],
    {
        let mut socket = socket;
        let ghost before = self.sockets@;
        let actions = socket.finish_connect(now);
        let name: String = sid.as_str().to_owned();
        let replaced = self.sockets.insert(name, socket);
        assert(socket_views(self.sockets@) =~= socket_views(before).insert(sid@, socket@));
        (actions, replaced)
    }

    /// The connection of a session.
    pub fn socket(&self, sid: &Sid) -> (found: Option<&Socket>)
        ensures
            found is Some <==> self@.sockets.dom().contains(sid@),
            found matches Some(s) ==> s@ == self@.sockets[sid@],
    {
        self.sockets.get(sid.as_str())
    }

    /// Emits a packet on the connection of a session; nothing happens where there is none.
    pub fn emit(&self, sid: &Sid, packet: Packet) -> (outcome: (Vec<Action>, Result<(), Error>))
        ensures
            self@.sockets.dom().contains(sid@) ==> {
                &&& socket::action_views(outcome.0@) == socket::emitted(self@.sockets[sid@], packet@)
                &&& outcome.1 is Ok <==> self@.sockets[sid@].connected
                &&& outcome.1 matches Err(e) ==> e == Error::IllegalActionBeforeOpen()
            },
            !self@.sockets.dom().contains(sid@) ==> outcome.0@.len() == 0 && outcome.1 is Ok,
    {
        match self.socket(sid) {
            Some(socket) => socket.emit(packet),
            None => (Vec::new(), Ok(())),
        }
    }

    /// Lets a polling client that waits come back, by a packet that means nothing.
    pub fn drain_polling(&self, sid: &Sid) -> (actions: Vec<Action>)
        ensures
            self@.sockets.dom().contains(sid@) ==> socket::action_views(actions@) == socket::emitted(
                self@.sockets[sid@],
                socket::bare(PacketType::Noop),
            ),
            !self@.sockets.dom().contains(sid@) ==> actions@.len() == 0,
    {
        self.emit(sid, Packet::noop()).0
    }

    /// Takes a packet of a session, and tells what it makes the connection do; nothing happens
    /// where there is no connection.
    pub fn handle_incoming_packet(&mut self, sid: &Sid, packet: Packet, now: u64) -> (actions: Option<
        Vec<Action>,
    >)
        ensures
            match actions {
                None => !old(self)@.sockets.dom().contains(sid@) && final(self)@ == old(self)@,
                Some(actions) => {
                    let before = old(self)@.sockets[sid@];
                    &&& old(self)@.sockets.dom().contains(sid@)
                    &&& socket::action_views(actions@) == socket::on_packet(before, packet@, now)
                    &&& final(self)@ == with_sockets(
                        old(self)@,
                        old(self)@.sockets.insert(sid@, socket::after_packet(before, packet@, now)),
                    )
                },
            },
    {
        let ghost before = self.sockets@;
        match self.sockets.remove(sid.as_str()) {
            None => {
                assert(self.sockets@ =~= before);
                None
            },
            Some(mut socket) => {
                let actions = socket.handle_incoming_packet(packet, now);
                let _ = self.sockets.insert(sid.as_str().to_owned(), socket);
                assert(socket_views(self.sockets@) =~= socket_views(before).insert(sid@, socket@));
                Some(actions)
            },
        }
    }

    /// Starts to close the connection of a session from this end; nothing is left to do where it
    /// is not open, or where there is none. Once all of it was done,
    /// [`Server::finish_disconnect`] completes the closing.
    pub fn disconnect(&self, sid: &Sid) -> (actions: Option<Vec<Action>>)
        ensures
            actions is Some <==> self@.sockets.dom().contains(sid@) && self@.sockets[sid@].connected,
            actions matches Some(a) ==> socket::action_views(a@) == socket::closing(
                self@.sockets[sid@],
            ) + socket::emitted(self@.sockets[sid@], socket::bare(PacketType::Close)),
    {
        match self.socket(sid) {
            Some(socket) => socket.disconnect(),
            None => None,
        }
    }

    /// Completes the closing of the connection of a session from this end. The connection is still
    /// kept.
    pub fn finish_disconnect(&mut self, sid: &Sid)
        ensures
            final(self)@ == if old(self)@.sockets.dom().contains(sid@) {
                with_sockets(
                    old(self)@,
                    old(self)@.sockets.insert(sid@, socket::closed(old(self)@.sockets[sid@])),
                )
            } else {
                old(self)@
            },
    {
        let ghost before = self.sockets@;
        match self.sockets.remove(sid.as_str()) {
            None => {
                assert(self.sockets@ =~= before);
            },
            Some(mut socket) => {
                socket.finish_disconnect();
                let _ = self.sockets.insert(sid.as_str().to_owned(), socket);
                assert(socket_views(self.sockets@) =~= socket_views(before).insert(sid@, socket@));
            },
        }
    }

    /// Lets the connection of a session go, with what is left to do to close it: the connection is
    /// closed from this end where it is still open.
    pub fn close_socket(&mut self, sid: &Sid) -> (closing: Option<(Socket, Option<Vec<Action>>)>)
        ensures
            final(self)@ == with_sockets(old(self)@, old(self)@.sockets.remove(sid@)),
            closing is Some <==> old(self)@.sockets.dom().contains(sid@),
            closing matches Some((socket, actions)) ==> {
                &&& socket@ == old(self)@.sockets[sid@]
                &&& actions is Some <==> socket@.connected
                &&& actions matches Some(a) ==> socket::action_views(a@) == socket::closing(socket@)
                    + socket::emitted(socket@, socket::bare(PacketType::Close))
            },
    {
        let ghost before = self.sockets@;
        let removed = self.sockets.remove(sid.as_str());
        assert(socket_views(self.sockets@) =~= socket_views(before).remove(sid@));
        match removed {
            None => None,
            Some(socket) => {
                let actions = socket.disconnect();
                Some((socket, actions))
            },
        }
    }

    /// When the last packet of a session came.
    pub fn last_pong(&self, sid: &Sid) -> (at: Option<u64>)
        ensures
            at == if self@.sockets.dom().contains(sid@) {
                Some(self@.sockets[sid@].last_pong)
            } else {
                None
            },
    {
        match self.socket(sid) {
            Some(socket) => Some(socket.last_pong()),
            None => None,
        }
    }

    /// Pings the client of a session.
    pub fn ping(&self, sid: &Sid) -> (outcome: (Vec<Action>, Result<(), Error>))
        ensures
            self@.sockets.dom().contains(sid@) ==> {
                &&& socket::action_views(outcome.0@) == socket::emitted(
                    self@.sockets[sid@],
                    socket::bare(PacketType::Ping),
                )
                &&& outcome.1 is Ok <==> self@.sockets[sid@].connected
                &&& outcome.1 matches Err(e) ==> e == Error::IllegalActionBeforeOpen()
            },
            !self@.sockets.dom().contains(sid@) ==> outcome.0@.len() == 0 && outcome.1 is Ok,
    {
        self.emit(sid, Packet::new(PacketType::Ping, Vec::new()))
    }

    /// Whether the connection of a session is kept, given whether a ping could be sent. A
    /// connection that is not kept is to be closed.
    pub fn keeps(&self, sid: &Sid, ping_sent: bool, now: u64) -> (kept: bool)
        requires
            silence_limit(self@.config.server_option) <= u64::MAX,
        ensures
            kept == is_kept(
                self@.config.server_option,
                ping_sent,
                if self@.sockets.dom().contains(sid@) {
                    Some(self@.sockets[sid@].last_pong)
                } else {
                    None
                },
                now,
            ),
    {
        let option = self.config.server_option;
        let timeout: u64 = option.ping_timeout + option.ping_interval;
        if !ping_sent {
            return false;
        }
        match self.last_pong(sid) {
            Some(then) => now.saturating_sub(then) < timeout,
            None => false,
        }
    }
}

/// A connection from which packets came at some time is kept at a later time just where less than
/// the limit has passed since, as long as pings can be sent.
pub proof fn law_packets_keep_connection(
    option: ServerOption,
    s: SocketView,
    packets: Seq<PacketView>,
    then: u64,
    now: u64,
)
    requires
        packets.len() > 0,
        then <= now,
    ensures
        is_kept(option, true, Some(socket::after_packets(s, packets, then).last_pong), now)
            <==> now - then < silence_limit(option),
{
    socket::law_packets_keep_identity(s, packets, then);
}

/// Once the connection of a session was let go it is not found, and those of other sessions are
/// found as before.
pub proof fn law_closed_session_is_gone(s: ServerView, sid: Seq<char>, other: Seq<char>)
    ensures
        ({
            let after = with_sockets(s, s.sockets.remove(sid));
            &&& !after.sockets.dom().contains(sid)
            &&& other != sid ==> {
                &&& after.sockets.dom().contains(other) == s.sockets.dom().contains(other)
                &&& after.sockets[other] == s.sockets[other]
            }
        }),
{
}

/// A connection is kept only where a ping could be sent and a packet came less than the two times
/// of the options ago; a packet from the future came just now.
pub proof fn law_kept_connection(option: ServerOption, ping_sent: bool, then: u64, now: u64)
    ensures
        !is_kept(option, false, Some(then), now),
        !is_kept(option, ping_sent, None, now),
        then <= now ==> (is_kept(option, true, Some(then), now) <==> now - then < option.ping_timeout
            + option.ping_interval),
        now < then ==> (is_kept(option, true, Some(then), now) <==> 0 < option.ping_timeout
            + option.ping_interval),
{
}

/// A new connection is open, under its session, at the server's end, observed; both of its times are
/// now, and it does not answer pings.
pub proof fn law_fresh_connection(sid: Seq<char>, now: u64)
    ensures
        fresh_socket(sid, now).connected,
        fresh_socket(sid, now).sid == sid,
        fresh_socket(sid, now).server_end,
        fresh_socket(sid, now).observed,
        !fresh_socket(sid, now).should_pong,
        fresh_socket(sid, now).last_ping == now,
        fresh_socket(sid, now).last_pong == now,
{
}

/// With other connections a server has the same settings and the same next session.
pub proof fn law_connections_are_apart(s: ServerView, sockets: Map<Seq<char>, SocketView>)
    ensures
        with_sockets(s, sockets).config == s.config,
        with_sockets(s, sockets).seq == s.seq,
        with_sockets(s, sockets).sockets == sockets,
{
}

/// A handshake tells of the options of a server: their times, in the places of the same names, and
/// their limit.
pub proof fn law_handshake_tells_options(handshake: HandshakePacket, option: ServerOption)
    ensures
        has_options(handshake, option) <==> (ServerOption {
            ping_timeout: handshake.ping_timeout,
            ping_interval: handshake.ping_interval,
            max_payload: handshake.max_payload,
        }) == option,
        default_option().ping_timeout == 25000,
        default_option().ping_interval == 20000,
        default_option().max_payload == 1024,
{
}

/// The values of connections stand under their sessions.
pub proof fn law_connection_values_by_session(map: Map<Seq<char>, Socket>, key: Seq<char>)
    ensures
        socket_views(map).dom().contains(key) <==> map.dom().contains(key),
        map.dom().contains(key) ==> socket_views(map)[key] == map[key]@,
{
}

}
