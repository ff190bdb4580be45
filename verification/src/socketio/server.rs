//! The state of a `socket.io` server: callbacks, rooms and clients.
use std::sync::Arc;

use vstd::prelude::*;
use vstd::string::*;

use crate::engineio::packet::Sid;
use crate::engineio::server as engine;
use crate::engineio::server::{
    Server as EngineServer, ServerBuilder as EngineServerBuilder, ServerBuilderView as EngineBuilderView,
    ServerOption, ServerView as EngineServerView,
};
use crate::engineio::socket::Event as EngineEvent;
use crate::socketio::clients;
use crate::socketio::clients::ClientTable;
use crate::socketio::event::{Event, EventView};
use crate::socketio::packet::{Packet, PacketType};
use crate::socketio::rooms;
use crate::socketio::rooms::{NspRooms, SidSet};
use crate::socketio::sid;
use crate::socketio::sid::SidGenerator;
use crate::socketio::tables;
use crate::socketio::tables::{Callbacks, NspCallbacks, Rooms};
use crate::socketio::value;
use crate::socketio::value::{Value, ValueView};
use crate::table::Table;
use crate::text;

verus! {

/// The seconds that a new client has to name its namespace.
pub const CONNECT_TIMEOUT: u64 = 5;

/// What a server is made with.
#[derive(Debug)]
pub struct ServerBuilder {
    builder: EngineServerBuilder,
    on: Table<Callbacks>,
}

/// The value of a [`ServerBuilder`].
pub struct ServerBuilderView {
    pub engine: EngineBuilderView,
    /// The callbacks of each namespace.
    pub on: Map<Seq<char>, Map<(u8, Seq<char>), u64>>,
}

/// The values of the callbacks of each namespace.
pub open spec fn callback_views(on: Map<Seq<char>, Callbacks>) -> Map<
    Seq<char>,
    Map<(u8, Seq<char>), u64>,
> {
    on.map_values(|c: Callbacks| tables::callbacks_in(c))
}

impl View for ServerBuilder {
    type V = ServerBuilderView;

    closed spec fn view(&self) -> ServerBuilderView {
        ServerBuilderView { engine: self.builder@, on: callback_views(self.on@) }
    }
}

/// The callbacks of a namespace; none where it is not known.
pub open spec fn callbacks_of(
    on: Map<Seq<char>, Map<(u8, Seq<char>), u64>>,
    nsp: Seq<char>,
) -> Map<(u8, Seq<char>), u64> {
    if on.dom().contains(nsp) {
        on[nsp]
    } else {
        Map::empty()
    }
}

/// The callbacks of each namespace with one more, in place of one for the same event.
pub open spec fn with_callback(
    on: Map<Seq<char>, Map<(u8, Seq<char>), u64>>,
    nsp: Seq<char>,
    event: EventView,
    callback: u64,
) -> Map<Seq<char>, Map<(u8, Seq<char>), u64>> {
    on.insert(nsp, callbacks_of(on, nsp).insert(tables::event_key(event), callback))
}

impl ServerBuilder {
    pub fn new(port: u16) -> (builder: Self)
        ensures
            builder@ == (ServerBuilderView {
                engine: EngineBuilderView {
                    port,
                    server_option: engine::default_option(),
                    polling_buffer: 100,
                    event_size: 1000,
                },
                on: Map::empty(),
            }),
    {
        let builder = ServerBuilder { builder: EngineServerBuilder::new(port), on: Table::new() };
        assert(callback_views(builder.on@) =~= Map::<Seq<char>, Map<(u8, Seq<char>), u64>>::empty());
        builder
    }

    pub fn server_option(self, server_option: ServerOption) -> (builder: Self)
        ensures
            builder@ == (ServerBuilderView {
                engine: EngineBuilderView { server_option, ..self@.engine },
                ..self@
            }),
    {
        ServerBuilder { builder: self.builder.server_option(server_option), on: self.on }
    }

    /// Registers a callback for an event in a namespace, in place of one for the same event.
    pub fn on(self, namespace: String, event: &Event, callback: u64) -> (builder: Self)
        ensures
            builder@ == (ServerBuilderView {
                on: with_callback(self@.on, namespace@, event@, callback),
                ..self@
            }),
    {
        let ServerBuilder { builder, on } = self;
        let mut on = on;
        let ghost before = on@;
        let mut callbacks = match on.remove(namespace.as_str()) {
            Some(callbacks) => callbacks,
            None => {
                let callbacks = tables::new_callbacks();
                assert(tables::callbacks_in(callbacks) =~= Map::<(u8, Seq<char>), u64>::empty());
                callbacks
            },
        };
        tables::insert_callback(&mut callbacks, tables::key_of(event), callback);
        let _ = on.insert(namespace, callbacks);
        assert(callback_views(on@) =~= with_callback(
            callback_views(before),
            namespace@,
            event@,
            callback,
        ));
        ServerBuilder { builder, on }
    }

    /// Makes the server, and the `engine.io` server underneath it.
    pub fn build(self) -> (servers: (Server, EngineServer))
        ensures
            servers.0@ == (ServerView {
                on: self@.on,
                rooms: Map::empty(),
                clients: Map::empty(),
                seq: 0,
            }),
            servers.1@ == (EngineServerView {
                config: self@.engine,
                seq: 0,
                sockets: Map::empty(),
            }),
    {
        let engine_server = self.builder.build();
        let ghost all = callback_views(self.on@);
        let mut left = self.on;
        let mut on = tables::new_namespaces();
        let names = left.keys();
        let ghost texts = text::texts(names@);
        let mut i: usize = 0;
        proof {
            assert(texts.take(0).to_set() =~= Set::<Seq<char>>::empty());
            assert(tables::namespaces_in(on) =~= all.restrict(texts.take(0).to_set()));
            assert(left@ =~= left@.remove_keys(texts.take(0).to_set()));
        }
        let ghost start = left@;
        while i < names.len()
            invariant
                i <= names@.len(),
                texts == text::texts(names@),
                all == callback_views(start),
                forall|a: int, b: int|
                    0 <= a < b < names@.len() ==> (#[trigger] names@[a])@ != (#[trigger] names@[b])@,
                forall|a: int| 0 <= a < names@.len() ==> start.dom().contains((#[trigger] names@[a])@),
                left@ == start.remove_keys(texts.take(i as int).to_set()),
                tables::namespaces_in(on) == all.restrict(texts.take(i as int).to_set()),
            decreases names@.len() - i,
        {
            let ghost name = texts[i as int];
            let ghost done = texts.take(i as int).to_set();
            proof {
                assert(name == names@[i as int]@);
                assert(start.dom().contains(name));
                rooms::lemma_take_next(texts, i as int);
                assert(!done.contains(name)) by {
                    if texts.take(i as int).contains(name) {
                        let j = choose|j: int| 0 <= j < i && texts.take(i as int)[j] == name;
                        assert(names@[j]@ == names@[i as int]@);
                    }
                }
                assert(left@.dom().contains(name));
            }
            match left.remove(names[i].as_str()) {
                Some(callbacks) => {
                    assert(tables::callbacks_in(callbacks) == all[name]);
                    tables::insert_namespace(&mut on, names[i].clone(), Arc::new(callbacks));
                },
                None => {},
            }
            proof {
                assert(left@ =~= start.remove_keys(texts.take(i + 1).to_set()));
                assert(tables::namespaces_in(on) =~= all.restrict(texts.take(i + 1).to_set()));
            }
            i = i + 1;
        }
        proof {
            assert(texts.take(i as int) =~= texts);
            assert forall|k: Seq<char>| all.dom().contains(k) implies texts.to_set().contains(k) by {
                let j = choose|j: int| 0 <= j < names@.len() && (#[trigger] names@[j])@ == k;
                assert(texts[j] == k);
            }
            assert(tables::namespaces_in(on) =~= all);
        }
        let rooms = tables::new_rooms();
        assert(tables::rooms_in(rooms) =~= Map::<Seq<char>, Map<Seq<char>, Set<Seq<char>>>>::empty());
        let clients = ClientTable::new();
        (Server { on, rooms, clients, sid_generator: SidGenerator::default() }, engine_server)
    }
}

/// The state of a server.
#[derive(Debug)]
pub struct Server {
    on: NspCallbacks,
    rooms: Rooms,
    clients: ClientTable,
    sid_generator: SidGenerator,
}

/// The value of a [`Server`].
pub struct ServerView {
    /// The callbacks of each namespace.
    pub on: Map<Seq<char>, Map<(u8, Seq<char>), u64>>,
    /// The clients in each room of each namespace.
    pub rooms: Map<Seq<char>, Map<Seq<char>, Set<Seq<char>>>>,
    /// The clients of each session, by their identifiers and namespaces.
    pub clients: Map<Seq<char>, Map<Seq<char>, Map<Seq<char>, u64>>>,
    /// The number of the next client.
    pub seq: usize,
}

impl View for Server {
    type V = ServerView;

    closed spec fn view(&self) -> ServerView {
        ServerView {
            on: tables::namespaces_in(self.on),
            rooms: tables::rooms_in(self.rooms),
            clients: self.clients@,
            seq: self.sid_generator@,
        }
    }
}

/// The rooms of a namespace.
pub open spec fn rooms_of(
    all: Map<Seq<char>, Map<Seq<char>, Set<Seq<char>>>>,
    nsp: Seq<char>,
) -> Map<Seq<char>, Set<Seq<char>>> {
    if all.dom().contains(nsp) {
        all[nsp]
    } else {
        Map::empty()
    }
}

/// The rooms of each namespace after a client joined rooms, one after the other.
pub open spec fn after_joins(
    all: Map<Seq<char>, Map<Seq<char>, Set<Seq<char>>>>,
    nsp: Seq<char>,
    names: Seq<Seq<char>>,
    sid: Seq<char>,
) -> Map<Seq<char>, Map<Seq<char>, Set<Seq<char>>>>
    decreases names.len(),
{
    if names.len() == 0 {
        all
    } else {
        let before = after_joins(all, nsp, names.drop_last(), sid);
        before.insert(nsp, rooms::after_join(rooms_of(before, nsp), names.last(), sid))
    }
}

/// The rooms of each namespace after a client left rooms, one after the other.
pub open spec fn after_leaves(
    all: Map<Seq<char>, Map<Seq<char>, Set<Seq<char>>>>,
    nsp: Seq<char>,
    names: Seq<Seq<char>>,
    sid: Seq<char>,
) -> Map<Seq<char>, Map<Seq<char>, Set<Seq<char>>>>
    decreases names.len(),
{
    if names.len() == 0 {
        all
    } else {
        let before = after_leaves(all, nsp, names.drop_last(), sid);
        if before.dom().contains(nsp) {
            before.insert(nsp, rooms::after_leave(before[nsp], names.last(), sid))
        } else {
            before
        }
    }
}

/// The clients that names stand for in a namespace.
pub open spec fn addressed_all(
    rooms: Map<Seq<char>, Set<Seq<char>>>,
    names: Seq<Seq<char>>,
) -> Set<Seq<char>>
    decreases names.len(),
{
    if names.len() == 0 {
        Set::empty()
    } else {
        addressed_all(rooms, names.drop_last()).union(rooms::addressed(rooms, names.last()))
    }
}

/// The clients that an event for rooms of a namespace goes to; none where the namespace has no
/// rooms.
pub open spec fn targets(
    all: Map<Seq<char>, Map<Seq<char>, Set<Seq<char>>>>,
    nsp: Seq<char>,
    names: Seq<Seq<char>>,
) -> Set<Seq<char>> {
    if all.dom().contains(nsp) {
        addressed_all(all[nsp], names)
    } else {
        Set::empty()
    }
}

/// The client of an identifier in a namespace. It is looked for in the session that the
/// identifier names.
pub open spec fn client_of(
    clients: Map<Seq<char>, Map<Seq<char>, Map<Seq<char>, u64>>>,
    sid: Seq<char>,
    nsp: Seq<char>,
) -> Option<u64> {
    match sid::session_of(sid) {
        None => None,
        Some(engine_sid) => {
            let found = clients::namespaces_of(clients::clients_of(clients, engine_sid), sid);
            if found.dom().contains(nsp) {
                Some(found[nsp])
            } else {
                None
            }
        },
    }
}

/// The rooms of each namespace after the clients of a session left all of them.
pub open spec fn all_without_session(
    all: Map<Seq<char>, Map<Seq<char>, Set<Seq<char>>>>,
    engine_sid: Seq<char>,
) -> Map<Seq<char>, Map<Seq<char>, Set<Seq<char>>>> {
    all.map_values(|r: Map<Seq<char>, Set<Seq<char>>>| rooms::rooms_without_session(r, engine_sid))
}

/// The rooms of each namespace after the clients of a session left those of some.
spec fn all_partly_without(
    all: Map<Seq<char>, Map<Seq<char>, Set<Seq<char>>>>,
    done: Set<Seq<char>>,
    engine_sid: Seq<char>,
) -> Map<Seq<char>, Map<Seq<char>, Set<Seq<char>>>> {
    Map::new(
        |k: Seq<char>| all.dom().contains(k),
        |k: Seq<char>|
            if done.contains(k) {
                rooms::rooms_without_session(all[k], engine_sid)
            } else {
                all[k]
            },
    )
}

/// A server after the clients of a session are gone.
pub open spec fn after_drop(s: ServerView, engine_sid: Seq<char>) -> ServerView {
    ServerView {
        clients: s.clients.remove(engine_sid),
        rooms: all_without_session(s.rooms, engine_sid),
        ..s
    }
}

/// What a server does about an event of the `engine.io` server underneath.
#[derive(Debug)]
pub enum ServerStep {
    /// Take in the client of a session.
    Create(Sid),
    /// Let the clients of a session go.
    Drop(Sid),
    /// Nothing.
    Ignore,
}

/// How the client of a session is taken in.
#[derive(Debug)]
pub enum Admission {
    /// It is known under an identifier, in a namespace.
    Known(Sid, String),
    /// It has yet to name its namespace.
    New,
}

/// Chooses what to do about an event of the `engine.io` server underneath.
pub fn recv_event(event: EngineEvent) -> (step: ServerStep)
    ensures
        match event {
            EngineEvent::OnOpen(esid) => step matches ServerStep::Create(s) && s@ == esid@,
            EngineEvent::OnClose(esid) => step matches ServerStep::Drop(s) && s@ == esid@,
            _ => step is Ignore,
        },
{
    match event {
        EngineEvent::OnOpen(esid) => ServerStep::Create(esid),
        EngineEvent::OnClose(esid) => ServerStep::Drop(esid),
        _ => ServerStep::Ignore,
    }
}

/// The namespace that a packet of a new client names; none where the packet names none, and the
/// next is to be waited for.
pub fn connect_namespace(packet: &Packet) -> (nsp: Option<String>)
    ensures
        nsp is Some <==> packet.ptype == PacketType::Connect,
        nsp matches Some(n) ==> n@ == packet.nsp@,
{
    if packet.ptype == PacketType::Connect {
        Some(packet.nsp.clone())
    } else {
        None
    }
}

/// What a server tells a client that it takes in.
pub fn handshake_data(sid: &Sid) -> (data: Value)
    ensures
        data@ == ValueView::Object(seq![("sid"@, ValueView::String(sid@))]),
{
    let mut members: Vec<(String, Value)> = Vec::new();
    members.push(("sid".to_owned(), Value::String(sid.as_str().to_owned())));
    proof {
        value::lemma_object_view(members);
        assert(value::member_views(members@) =~= seq![("sid"@, ValueView::String(sid@))]);
    }
    Value::Object(members)
}

impl Server {
    /// Makes an identifier for a client of a session.
    pub fn generate_sid(&mut self, engine_sid: &Sid) -> (sid: Sid)
        ensures
            final(self)@ == (ServerView { seq: engine::following(old(self)@.seq), ..old(self)@ }),
            old(self)@.seq < usize::MAX ==> final(self)@.seq == old(self)@.seq + 1,
            crate::binary::stands_for(
                sid@,
                vstd::utf8::encode_utf8(sid::sid_source(engine_sid@, old(self)@.seq)),
            ),
            sid@ == crate::binary::base64_text(
                vstd::utf8::encode_utf8(sid::sid_source(engine_sid@, old(self)@.seq)),
            ),
            sid::session_of(sid@) == Some(sid::before_hyphen(engine_sid@)),
            !engine_sid@.contains('-') ==> sid::session_of(sid@) == Some(engine_sid@),
    {
        self.sid_generator.generate(engine_sid)
    }

    /// The clients that an event for rooms of a namespace goes to, each once.
    pub fn sids_to_emit(&self, nsp: &str, names: &Vec<String>) -> (sids: Vec<Sid>)
        ensures
            rooms::sid_texts(sids@).to_set() == targets(self@.rooms, nsp@, text::texts(names@)),
            rooms::sid_texts(sids@).no_duplicates(),
            forall|sid: Seq<char>| #[trigger]
                rooms::sid_texts(sids@).contains(sid) <==> self@.rooms.dom().contains(nsp@) && exists|i: int|
                    0 <= i < names@.len() && if self@.rooms[nsp@].dom().contains((#[trigger] names@[i])@) {
                        self@.rooms[nsp@][names@[i]@].contains(sid)
                    } else {
                        names@[i]@ == sid
                    },
    {
        let mut found = SidSet::new();
        match tables::get_rooms(&self.rooms, nsp) {
            None => {},
            Some(nsp_rooms) => {
                let ghost texts = text::texts(names@);
                let mut i: usize = 0;
                assert(found@ =~= addressed_all(nsp_rooms@, texts.take(0)));
                while i < names.len()
                    invariant
                        i <= names@.len(),
                        texts == text::texts(names@),
                        found@ == addressed_all(nsp_rooms@, texts.take(i as int)),
                    decreases names@.len() - i,
                {
                    proof {
                        assert(texts.take(i + 1).drop_last() =~= texts.take(i as int));
                        assert(texts.take(i + 1).last() == names@[i as int]@);
                    }
                    let some = nsp_rooms.address(names[i].as_str());
                    Self::insert_all(&mut found, &some);
                    i = i + 1;
                }
                assert(texts.take(i as int) =~= texts);
            },
        }
        let sids = found.to_vec();
        proof {
            let row = text::texts(names@);
            let all = self@.rooms;
            assert forall|sid: Seq<char>| #[trigger]
                rooms::sid_texts(sids@).contains(sid) <==> all.dom().contains(nsp@) && exists|i: int|
                    0 <= i < names@.len() && if all[nsp@].dom().contains((#[trigger] names@[i])@) {
                        all[nsp@][names@[i]@].contains(sid)
                    } else {
                        names@[i]@ == sid
                    } by {
                law_targets_of_names(all, nsp@, row, sid);
                assert(rooms::sid_texts(sids@).contains(sid) <==> rooms::sid_texts(
                    sids@,
                ).to_set().contains(sid));
                if rooms::sid_texts(sids@).contains(sid) {
                    let i = choose|i: int|
                        0 <= i < row.len() && if all[nsp@].dom().contains(#[trigger] row[i]) {
                            all[nsp@][row[i]].contains(sid)
                        } else {
                            row[i] == sid
                        };
                    assert(row[i] == names@[i]@);
                }
                if all.dom().contains(nsp@) && exists|i: int|
                    0 <= i < names@.len() && if all[nsp@].dom().contains((#[trigger] names@[i])@) {
                        all[nsp@][names@[i]@].contains(sid)
                    } else {
                        names@[i]@ == sid
                    } {
                    let i = choose|i: int|
                        0 <= i < names@.len() && if all[nsp@].dom().contains((#[trigger] names@[i])@) {
                            all[nsp@][names@[i]@].contains(sid)
                        } else {
                            names@[i]@ == sid
                        };
                    assert(row[i] == names@[i]@);
                }
            }
        }
        sids
    }

    /// Puts clients into a set.
    fn insert_all(set: &mut SidSet, sids: &Vec<Sid>)
        ensures
            final(set)@ == old(set)@.union(rooms::sid_texts(sids@).to_set()),
    {
        let ghost texts = rooms::sid_texts(sids@);
        let ghost before = set@;
        let mut i: usize = 0;
        assert(texts.take(0).to_set() =~= Set::<Seq<char>>::empty());
        assert(set@ =~= before.union(texts.take(0).to_set()));
        while i < sids.len()
            invariant
                i <= sids@.len(),
                texts == rooms::sid_texts(sids@),
                set@ == before.union(texts.take(i as int).to_set()),
            decreases sids@.len() - i,
        {
            proof {
                rooms::lemma_take_next(texts, i as int);
                assert(texts[i as int] == sids@[i as int]@);
            }
            set.insert(Arc::clone(&sids[i]));
            assert(set@ =~= before.union(texts.take(i + 1).to_set()));
            i = i + 1;
        }
        assert(texts.take(i as int) =~= texts);
    }

    /// The client of an identifier in a namespace.
    pub fn client(&self, sid: &Sid, nsp: &str) -> (client: Option<u64>)
        ensures
            client == client_of(self@.clients, sid@, nsp@),
    {
        match SidGenerator::decode(sid) {
            None => None,
            Some(esid) => match self.clients.get(esid.as_str(), sid.as_str()) {
                None => None,
                Some(found) => match found.get(nsp) {
                    Some(client) => Some(*client),
                    None => None,
                },
            },
        }
    }

    /// The clients that an event for rooms of a namespace goes to, with their identifiers, each
    /// once. An identifier without a client is left out.
    pub fn emit_to(&self, nsp: &str, names: &Vec<String>) -> (clients: Vec<(Sid, u64)>)
        ensures
            forall|i: int|
                0 <= i < clients@.len() ==> {
                    &&& targets(self@.rooms, nsp@, text::texts(names@)).contains(
                        (#[trigger] clients@[i]).0@,
                    )
                    &&& client_of(self@.clients, clients@[i].0@, nsp@) == Some(clients@[i].1)
                },
            forall|sid: Seq<char>| #[trigger]
                targets(self@.rooms, nsp@, text::texts(names@)).contains(sid) && client_of(
                    self@.clients,
                    sid,
                    nsp@,
                ) is Some ==> exists|i: int| 0 <= i < clients@.len() && (#[trigger] clients@[i]).0@ == sid,
            forall|i: int, j: int|
                0 <= i < j < clients@.len() ==> (#[trigger] clients@[i]).0@ != (
                #[trigger] clients@[j]).0@,
    {
        let sids = self.sids_to_emit(nsp, names);
        let ghost texts = rooms::sid_texts(sids@);
        let ghost wanted = targets(self@.rooms, nsp@, text::texts(names@));
        let mut clients: Vec<(Sid, u64)> = Vec::new();
        let mut i: usize = 0;
        while i < sids.len()
            invariant
                i <= sids@.len(),
                texts == rooms::sid_texts(sids@),
                texts.to_set() == wanted,
                texts.no_duplicates(),
                wanted == targets(self@.rooms, nsp@, text::texts(names@)),
                forall|k: int|
                    0 <= k < clients@.len() ==> {
                        &&& wanted.contains((#[trigger] clients@[k]).0@)
                        &&& client_of(self@.clients, clients@[k].0@, nsp@) == Some(clients@[k].1)
                        &&& texts.take(i as int).contains(clients@[k].0@)
                    },
                forall|a: int|
                    0 <= a < i && client_of(self@.clients, #[trigger] texts[a], nsp@) is Some
                        ==> exists|k: int|
                        0 <= k < clients@.len() && (#[trigger] clients@[k]).0@ == texts[a],
                forall|a: int, b: int|
                    0 <= a < b < clients@.len() ==> (#[trigger] clients@[a]).0@ != (
                    #[trigger] clients@[b]).0@,
            decreases sids@.len() - i,
        {
            let sid = Arc::clone(&sids[i]);
            let ghost before = clients@;
            proof {
                assert(texts[i as int] == sid@);
                assert(texts.contains(sid@));
                assert(texts.take(i + 1)[i as int] == sid@);
                assert forall|k: int| 0 <= k < before.len() implies (#[trigger] before[k]).0@ != sid@ by {
                    assert(texts.take(i as int).contains(before[k].0@));
                    let a = choose|a: int| 0 <= a < i && texts.take(i as int)[a] == before[k].0@;
                    assert(texts[a] == before[k].0@);
                }
                assert forall|k: int| 0 <= k < before.len() implies texts.take(i + 1).contains(
                    (#[trigger] before[k]).0@,
                ) by {
                    let a = choose|a: int| 0 <= a < i && texts.take(i as int)[a] == before[k].0@;
                    assert(texts.take(i + 1)[a] == before[k].0@);
                }
            }
            match self.client(&sid, nsp) {
                Some(client) => {
                    clients.push((sid, client));
                    proof {
                        let n = before.len() as int;
                        assert(clients@[n].0@ == texts[i as int]);
                        assert forall|a: int|
                            0 <= a < i + 1 && client_of(self@.clients, #[trigger] texts[a], nsp@) is Some implies exists|
                            k: int,
                        |
                            0 <= k < clients@.len() && (#[trigger] clients@[k]).0@ == texts[a] by {
                            if a < i {
                                let k = choose|k: int|
                                    0 <= k < before.len() && (#[trigger] before[k]).0@ == texts[a];
                                assert(clients@[k] == before[k]);
                            }
                        }
                    }
                },
                None => {},
            }
            i = i + 1;
        }
        proof {
            assert forall|sid: Seq<char>| #[trigger]
                wanted.contains(sid) && client_of(self@.clients, sid, nsp@) is Some implies exists|i: int|
                0 <= i < clients@.len() && (#[trigger] clients@[i]).0@ == sid by {
                assert(texts.contains(sid));
                let a = choose|a: int| 0 <= a < texts.len() && texts[a] == sid;
                assert(client_of(self@.clients, texts[a], nsp@) is Some);
            }
        }
        clients
    }

    /// Lets a client into rooms of a namespace.
    pub fn join(&mut self, nsp: &str, names: &Vec<String>, sid: &Sid)
        ensures
            final(self)@ == (ServerView {
                rooms: after_joins(old(self)@.rooms, nsp@, text::texts(names@), sid@),
                ..old(self)@
            }),
    {
        let ghost texts = text::texts(names@);
        let ghost start = self@;
        let mut i: usize = 0;
        while i < names.len()
            invariant
                i <= names@.len(),
                texts == text::texts(names@),
                self@ == (ServerView {
                    rooms: after_joins(start.rooms, nsp@, texts.take(i as int), sid@),
                    ..start
                }),
            decreases names@.len() - i,
        {
            proof {
                assert(texts.take(i + 1).drop_last() =~= texts.take(i as int));
                assert(texts.take(i + 1).last() == names@[i as int]@);
            }
            let ghost before = tables::rooms_in(self.rooms);
            let mut nsp_rooms = match tables::remove_rooms(&mut self.rooms, nsp) {
                Some(nsp_rooms) => (*nsp_rooms).clone(),
                None => NspRooms::new(),
            };
            nsp_rooms.join(names[i].clone(), Arc::clone(sid));
            tables::insert_rooms(&mut self.rooms, nsp.to_owned(), Arc::new(nsp_rooms));
            assert(tables::rooms_in(self.rooms) =~= before.insert(
                nsp@,
                rooms::after_join(rooms_of(before, nsp@), names@[i as int]@, sid@),
            ));
            i = i + 1;
        }
        assert(texts.take(i as int) =~= texts);
    }

    /// Lets a client out of rooms of a namespace.
    pub fn leave(&mut self, nsp: &str, names: &Vec<String>, sid: &Sid)
        ensures
            final(self)@ == (ServerView {
                rooms: after_leaves(old(self)@.rooms, nsp@, text::texts(names@), sid@),
                ..old(self)@
            }),
    {
        let ghost texts = text::texts(names@);
        let ghost start = self@;
        let mut i: usize = 0;
        while i < names.len()
            invariant
                i <= names@.len(),
                texts == text::texts(names@),
                self@ == (ServerView {
                    rooms: after_leaves(start.rooms, nsp@, texts.take(i as int), sid@),
                    ..start
                }),
            decreases names@.len() - i,
        {
            proof {
                assert(texts.take(i + 1).drop_last() =~= texts.take(i as int));
                assert(texts.take(i + 1).last() == names@[i as int]@);
            }
            let ghost before = tables::rooms_in(self.rooms);
            match tables::remove_rooms(&mut self.rooms, nsp) {
                Some(nsp_rooms) => {
                    let mut nsp_rooms = (*nsp_rooms).clone();
                    nsp_rooms.leave(names[i].as_str(), sid);
                    tables::insert_rooms(&mut self.rooms, nsp.to_owned(), Arc::new(nsp_rooms));
                    assert(tables::rooms_in(self.rooms) =~= before.insert(
                        nsp@,
                        rooms::after_leave(before[nsp@], names@[i as int]@, sid@),
                    ));
                },
                None => {
                    assert(tables::rooms_in(self.rooms) =~= before);
                },
            }
            i = i + 1;
        }
        assert(texts.take(i as int) =~= texts);
    }

    /// Some client of a session: its identifier and namespace. Currently one session has one
    /// identifier, and one identifier has one namespace.
    pub fn client_info(&self, esid: &Sid) -> (info: Option<(Sid, String)>)
        ensures
            info is Some <==> self@.clients.dom().contains(esid@),
            info matches Some((sid, nsp)) ==> self@.clients[esid@].dom().contains(sid@)
                && self@.clients[esid@][sid@].dom().contains(nsp@),
    {
        match self.clients.any(esid.as_str()) {
            None => None,
            Some((sid, nsp)) => Some((Arc::new(sid), nsp)),
        }
    }

    /// Chooses how the client of a session is taken in: a session that has a client is known.
    pub fn create_client(&self, esid: &Sid) -> (admission: Admission)
        ensures
            match admission {
                Admission::Known(sid, nsp) => self@.clients.dom().contains(esid@)
                    && self@.clients[esid@].dom().contains(sid@)
                    && self@.clients[esid@][sid@].dom().contains(nsp@),
                Admission::New => !self@.clients.dom().contains(esid@),
            },
    {
        match self.client_info(esid) {
            Some((sid, nsp)) => Admission::Known(sid, nsp),
            None => Admission::New,
        }
    }

    /// The callbacks of a namespace, if it is known.
    pub fn namespace_callbacks(&self, nsp: &str) -> (callbacks: Option<Arc<Callbacks>>)
        ensures
            callbacks is Some <==> self@.on.dom().contains(nsp@),
            callbacks matches Some(c) ==> tables::callbacks_in(*c) == self@.on[nsp@],
    {
        tables::get_namespace(&self.on, nsp)
    }

    /// Takes a client in, if its namespace is known.
    pub fn insert_clients(&mut self, nsp: &str, esid: &Sid, sid: &Sid, client: u64) -> (known: bool)
        ensures
            known == old(self)@.on.dom().contains(nsp@),
            known ==> final(self)@ == (ServerView {
                clients: clients::with_client(old(self)@.clients, esid@, sid@, nsp@, client),
                ..old(self)@
            }),
            !known ==> final(self)@ == old(self)@,
    {
        if self.namespace_callbacks(nsp).is_none() {
            return false;
        }
        self.clients.insert(esid.as_str(), sid.as_str(), nsp, client);
        true
    }

    /// Lets the clients of a session go, and out of every room.
    pub fn drop_client(&mut self, esid: &Sid)
        ensures
            final(self)@ == after_drop(old(self)@, esid@),
    {
        self.clients.remove(esid.as_str());
        let names = tables::rooms_keys(&self.rooms);
        let ghost before = tables::rooms_in(self.rooms);
        let ghost rest = self@;
        let ghost texts = text::texts(names@);
        let mut i: usize = 0;
        proof {
            assert(texts.take(0).to_set() =~= Set::<Seq<char>>::empty());
            assert(before =~= all_partly_without(before, texts.take(0).to_set(), esid@));
        }
        while i < names.len()
            invariant
                i <= names@.len(),
                texts == text::texts(names@),
                texts.to_set() == before.dom(),
                texts.no_duplicates(),
                self@ == (ServerView {
                    rooms: all_partly_without(before, texts.take(i as int).to_set(), esid@),
                    ..rest
                }),
            decreases names@.len() - i,
        {
            let ghost name = texts[i as int];
            let ghost now = tables::rooms_in(self.rooms);
            proof {
                assert(name == names@[i as int]@);
                rooms::lemma_take_next(texts, i as int);
                assert(texts.to_set().contains(name));
                assert(!texts.take(i as int).to_set().contains(name)) by {
                    if texts.take(i as int).contains(name) {
                        let j = choose|j: int| 0 <= j < i && texts.take(i as int)[j] == name;
                        assert(texts[j] == texts[i as int]);
                    }
                }
                assert(now.dom().contains(name));
                assert(now[name] == before[name]);
            }
            match tables::remove_rooms(&mut self.rooms, names[i].as_str()) {
                Some(nsp_rooms) => {
                    let mut nsp_rooms = (*nsp_rooms).clone();
                    nsp_rooms.drop_session(esid);
                    tables::insert_rooms(&mut self.rooms, names[i].clone(), Arc::new(nsp_rooms));
                    assert(nsp_rooms@ == rooms::rooms_without_session(before[name], esid@));
                },
                None => {},
            }
            assert(tables::rooms_in(self.rooms) =~= all_partly_without(
                before,
                texts.take(i + 1).to_set(),
                esid@,
            ));
            i = i + 1;
        }
        assert(texts.take(i as int) =~= texts);
        assert(self@.rooms =~= all_without_session(before, esid@));
    }
}

/// Whether a client is in a room of a namespace.
pub open spec fn is_in_room(
    all: Map<Seq<char>, Map<Seq<char>, Set<Seq<char>>>>,
    nsp: Seq<char>,
    room: Seq<char>,
    sid: Seq<char>,
) -> bool {
    rooms::members(rooms_of(all, nsp), room).contains(sid)
}

/// Joining rooms puts the client into those rooms, and changes nothing else.
pub proof fn law_join(
    all: Map<Seq<char>, Map<Seq<char>, Set<Seq<char>>>>,
    nsp: Seq<char>,
    names: Seq<Seq<char>>,
    sid: Seq<char>,
    other_nsp: Seq<char>,
    room: Seq<char>,
    other: Seq<char>,
)
    ensures
        is_in_room(after_joins(all, nsp, names, sid), other_nsp, room, other) <==> (is_in_room(
            all,
            other_nsp,
            room,
            other,
        ) || (other_nsp == nsp && names.contains(room) && other == sid)),
    decreases names.len(),
{
    if names.len() > 0 {
        law_join(all, nsp, names.drop_last(), sid, other_nsp, room, other);
        lemma_contains_last(names, room);
    }
}

/// Leaving rooms takes the client out of those rooms, and changes nothing else.
pub proof fn law_leave(
    all: Map<Seq<char>, Map<Seq<char>, Set<Seq<char>>>>,
    nsp: Seq<char>,
    names: Seq<Seq<char>>,
    sid: Seq<char>,
    other_nsp: Seq<char>,
    room: Seq<char>,
    other: Seq<char>,
)
    ensures
        is_in_room(after_leaves(all, nsp, names, sid), other_nsp, room, other) <==> (is_in_room(
            all,
            other_nsp,
            room,
            other,
        ) && !(other_nsp == nsp && names.contains(room) && other == sid)),
    decreases names.len(),
{
    if names.len() > 0 {
        law_leave(all, nsp, names.drop_last(), sid, other_nsp, room, other);
        lemma_contains_last(names, room);
    }
}

/// A row holds what its beginning holds, and its last element.
proof fn lemma_contains_last(names: Seq<Seq<char>>, name: Seq<char>)
    requires
        names.len() > 0,
    ensures
        names.contains(name) <==> (names.drop_last().contains(name) || names.last() == name),
{
    if names.contains(name) {
        let i = choose|i: int| 0 <= i < names.len() && names[i] == name;
        if i < names.len() - 1 {
            assert(names.drop_last()[i] == name);
        }
    }
    if names.drop_last().contains(name) {
        let i = choose|i: int| 0 <= i < names.len() - 1 && names.drop_last()[i] == name;
        assert(names[i] == name);
    }
}

/// Leaving the rooms that were joined undoes the joining, for a client that was in none of them.
pub proof fn law_leave_undoes_join(
    all: Map<Seq<char>, Map<Seq<char>, Set<Seq<char>>>>,
    nsp: Seq<char>,
    names: Seq<Seq<char>>,
    sid: Seq<char>,
    other_nsp: Seq<char>,
    room: Seq<char>,
    other: Seq<char>,
)
    requires
        forall|i: int| 0 <= i < names.len() ==> !is_in_room(all, nsp, #[trigger] names[i], sid),
    ensures
        is_in_room(
            after_leaves(after_joins(all, nsp, names, sid), nsp, names, sid),
            other_nsp,
            room,
            other,
        ) <==> is_in_room(all, other_nsp, room, other),
{
    law_join(all, nsp, names, sid, other_nsp, room, other);
    law_leave(after_joins(all, nsp, names, sid), nsp, names, sid, other_nsp, room, other);
    if other_nsp == nsp && names.contains(room) && other == sid {
        let i = choose|i: int| 0 <= i < names.len() && names[i] == room;
        assert(!is_in_room(all, nsp, names[i], sid));
    }
}

/// A room that a client joined is there, and an event for it goes to the client.
pub proof fn law_joined_client_is_addressed(
    all: Map<Seq<char>, Map<Seq<char>, Set<Seq<char>>>>,
    nsp: Seq<char>,
    names: Seq<Seq<char>>,
    sid: Seq<char>,
    room: Seq<char>,
)
    requires
        names.contains(room),
    ensures
        after_joins(all, nsp, names, sid).dom().contains(nsp),
        after_joins(all, nsp, names, sid)[nsp].dom().contains(room),
        targets(after_joins(all, nsp, names, sid), nsp, seq![room]).contains(sid),
    decreases names.len(),
{
    let after = after_joins(all, nsp, names, sid);
    law_join(all, nsp, names, sid, nsp, room, sid);
    assert(is_in_room(after, nsp, room, sid));
    assert(after.dom().contains(nsp));
    assert(after[nsp].dom().contains(room));
    lemma_targets_of_one(after, nsp, room);
}

/// An event for one room that is there goes to the clients in it, and to no others.
pub proof fn law_room_is_addressed(
    all: Map<Seq<char>, Map<Seq<char>, Set<Seq<char>>>>,
    nsp: Seq<char>,
    room: Seq<char>,
)
    requires
        all.dom().contains(nsp),
        all[nsp].dom().contains(room),
    ensures
        targets(all, nsp, seq![room]) == all[nsp][room],
{
    lemma_targets_of_one(all, nsp, room);
}

proof fn lemma_targets_of_one(
    all: Map<Seq<char>, Map<Seq<char>, Set<Seq<char>>>>,
    nsp: Seq<char>,
    room: Seq<char>,
)
    requires
        all.dom().contains(nsp),
    ensures
        targets(all, nsp, seq![room]) == rooms::addressed(all[nsp], room),
{
    let names = seq![room];
    assert(names.drop_last() =~= Seq::<Seq<char>>::empty());
    assert(addressed_all(all[nsp], names.drop_last()) =~= Set::<Seq<char>>::empty());
    assert(addressed_all(all[nsp], names) =~= rooms::addressed(all[nsp], room));
}

/// Once the clients of a session are gone, they are not found, and in no room; the clients of
/// other sessions are found and in their rooms as before.
pub proof fn law_dropped_session_is_gone(
    s: ServerView,
    engine_sid: Seq<char>,
    sid: Seq<char>,
    nsp: Seq<char>,
    room: Seq<char>,
)
    ensures
        sid::session_of(sid) == Some(engine_sid) ==> {
            &&& client_of(after_drop(s, engine_sid).clients, sid, nsp) is None
            &&& !is_in_room(after_drop(s, engine_sid).rooms, nsp, room, sid)
        },
        sid::session_of(sid) != Some(engine_sid) ==> {
            &&& client_of(after_drop(s, engine_sid).clients, sid, nsp) == client_of(s.clients, sid, nsp)
            &&& is_in_room(after_drop(s, engine_sid).rooms, nsp, room, sid) == is_in_room(
                s.rooms,
                nsp,
                room,
                sid,
            )
        },
{
}

/// A session whose client was taken in is known. The client is found, if its identifier names the
/// session; others are found as before.
pub proof fn law_inserted_client_is_found(
    clients: Map<Seq<char>, Map<Seq<char>, Map<Seq<char>, u64>>>,
    engine_sid: Seq<char>,
    sid: Seq<char>,
    nsp: Seq<char>,
    client: u64,
    other_sid: Seq<char>,
    other_nsp: Seq<char>,
)
    requires
        sid::session_of(sid) == Some(engine_sid),
    ensures
        clients::with_client(clients, engine_sid, sid, nsp, client).dom().contains(engine_sid),
        client_of(clients::with_client(clients, engine_sid, sid, nsp, client), sid, nsp) == Some(client),
        other_sid != sid || other_nsp != nsp ==> client_of(
            clients::with_client(clients, engine_sid, sid, nsp, client),
            other_sid,
            other_nsp,
        ) == client_of(clients, other_sid, other_nsp),
{
}

/// An event for a row of names, of any length, goes to a client if and only if some name of the row
/// is a room that holds the client, or is no room and is the client's identifier; where the namespace
/// has no rooms it goes to none.
pub proof fn law_targets_of_names(
    all: Map<Seq<char>, Map<Seq<char>, Set<Seq<char>>>>,
    nsp: Seq<char>,
    names: Seq<Seq<char>>,
    sid: Seq<char>,
)
    ensures
        targets(all, nsp, names).contains(sid) <==> all.dom().contains(nsp) && exists|i: int|
            0 <= i < names.len() && if all[nsp].dom().contains(#[trigger] names[i]) {
                all[nsp][names[i]].contains(sid)
            } else {
                names[i] == sid
            },
{
    if all.dom().contains(nsp) {
        lemma_addressed_by_some(all[nsp], names, sid);
    }
}

proof fn lemma_addressed_by_some(
    rooms: Map<Seq<char>, Set<Seq<char>>>,
    names: Seq<Seq<char>>,
    sid: Seq<char>,
)
    ensures
        addressed_all(rooms, names).contains(sid) <==> exists|i: int|
            0 <= i < names.len() && if rooms.dom().contains(#[trigger] names[i]) {
                rooms[names[i]].contains(sid)
            } else {
                names[i] == sid
            },
    decreases names.len(),
{
    if names.len() > 0 {
        let before = names.drop_last();
        lemma_addressed_by_some(rooms, before, sid);
        if addressed_all(rooms, before).contains(sid) {
            let i = choose|i: int|
                0 <= i < before.len() && if rooms.dom().contains(#[trigger] before[i]) {
                    rooms[before[i]].contains(sid)
                } else {
                    before[i] == sid
                };
            assert(names[i] == before[i]);
        }
        if rooms::addressed(rooms, names.last()).contains(sid) {
            assert(names[names.len() - 1] == names.last());
        }
        if exists|i: int|
            0 <= i < names.len() && if rooms.dom().contains(#[trigger] names[i]) {
                rooms[names[i]].contains(sid)
            } else {
                names[i] == sid
            } {
            let i = choose|i: int|
                0 <= i < names.len() && if rooms.dom().contains(#[trigger] names[i]) {
                    rooms[names[i]].contains(sid)
                } else {
                    names[i] == sid
                };
            if i < before.len() {
                assert(before[i] == names[i]);
            }
        }
    }
}

/// Whether a client is in a room: the namespace has rooms, the room is one of them, and it holds the
/// client.
pub proof fn law_client_in_room(
    all: Map<Seq<char>, Map<Seq<char>, Set<Seq<char>>>>,
    nsp: Seq<char>,
    room: Seq<char>,
    sid: Seq<char>,
)
    ensures
        is_in_room(all, nsp, room, sid) <==> all.dom().contains(nsp) && all[nsp].dom().contains(room)
            && all[nsp][room].contains(sid),
{
}

/// The rooms that are there after a client joined some: those that were, and the joined ones.
pub proof fn law_joined_rooms_are_there(
    all: Map<Seq<char>, Map<Seq<char>, Set<Seq<char>>>>,
    nsp: Seq<char>,
    names: Seq<Seq<char>>,
    sid: Seq<char>,
    other_nsp: Seq<char>,
    room: Seq<char>,
)
    ensures
        ({
            let after = after_joins(all, nsp, names, sid);
            &&& after.dom().contains(other_nsp) <==> (all.dom().contains(other_nsp) || (other_nsp == nsp
                && names.len() > 0))
            &&& after.dom().contains(other_nsp) ==> (after[other_nsp].dom().contains(room) <==> ((
            all.dom().contains(other_nsp) && all[other_nsp].dom().contains(room)) || (other_nsp == nsp
                && names.contains(room))))
            &&& other_nsp != nsp ==> after[other_nsp] == all[other_nsp]
        }),
    decreases names.len(),
{
    if names.len() > 0 {
        law_joined_rooms_are_there(all, nsp, names.drop_last(), sid, other_nsp, room);
        lemma_contains_last(names, room);
    }
}

/// Leaving rooms makes and unmakes none.
pub proof fn law_left_rooms_stay(
    all: Map<Seq<char>, Map<Seq<char>, Set<Seq<char>>>>,
    nsp: Seq<char>,
    names: Seq<Seq<char>>,
    sid: Seq<char>,
    other_nsp: Seq<char>,
    room: Seq<char>,
)
    ensures
        ({
            let after = after_leaves(all, nsp, names, sid);
            &&& after.dom().contains(other_nsp) <==> all.dom().contains(other_nsp)
            &&& all.dom().contains(other_nsp) ==> (after[other_nsp].dom().contains(room)
                <==> all[other_nsp].dom().contains(room))
            &&& other_nsp != nsp ==> after[other_nsp] == all[other_nsp]
        }),
    decreases names.len(),
{
    if names.len() > 0 {
        law_left_rooms_stay(all, nsp, names.drop_last(), sid, other_nsp, room);
    }
}

/// When the clients of a session are gone, the callbacks, the next number, the rooms and the clients
/// of other sessions are as before, and every room holds just the clients of other sessions that it
/// held.
pub proof fn law_drop_keeps_the_rest(
    s: ServerView,
    engine_sid: Seq<char>,
    other_session: Seq<char>,
    nsp: Seq<char>,
    room: Seq<char>,
    sid: Seq<char>,
)
    ensures
        ({
            let after = after_drop(s, engine_sid);
            &&& after.on == s.on
            &&& after.seq == s.seq
            &&& after.clients.dom().contains(other_session) <==> (s.clients.dom().contains(other_session)
                && other_session != engine_sid)
            &&& other_session != engine_sid ==> after.clients[other_session] == s.clients[other_session]
            &&& after.rooms.dom().contains(nsp) <==> s.rooms.dom().contains(nsp)
            &&& s.rooms.dom().contains(nsp) ==> (after.rooms[nsp].dom().contains(room)
                <==> s.rooms[nsp].dom().contains(room))
            &&& s.rooms.dom().contains(nsp) && s.rooms[nsp].dom().contains(room) ==> (
            after.rooms[nsp][room].contains(sid) <==> (s.rooms[nsp][room].contains(sid)
                && sid::session_of(sid) != Some(engine_sid)))
        }),
{
}

/// A client is found if and only if it is kept under the session that its identifier names, under
/// its identifier and namespace.
pub proof fn law_client_is_found(
    clients: Map<Seq<char>, Map<Seq<char>, Map<Seq<char>, u64>>>,
    sid: Seq<char>,
    nsp: Seq<char>,
    engine_sid: Seq<char>,
    client: u64,
)
    ensures
        sid::session_of(sid) is None ==> client_of(clients, sid, nsp) is None,
        sid::session_of(sid) == Some(engine_sid) ==> (client_of(clients, sid, nsp) == Some(client)
            <==> clients.dom().contains(engine_sid) && clients[engine_sid].dom().contains(sid)
            && clients[engine_sid][sid].dom().contains(nsp) && clients[engine_sid][sid][nsp] == client),
{
}

/// A registered callback is the one for its event in its namespace, and those for other events, and
/// in other namespaces, are as before.
pub proof fn law_registered_callback(
    on: Map<Seq<char>, Map<(u8, Seq<char>), u64>>,
    nsp: Seq<char>,
    event: EventView,
    callback: u64,
    other_nsp: Seq<char>,
    key: (u8, Seq<char>),
)
    ensures
        ({
            let after = with_callback(on, nsp, event, callback);
            &&& after.dom().contains(other_nsp) <==> (on.dom().contains(other_nsp) || other_nsp == nsp)
            &&& other_nsp != nsp ==> after[other_nsp] == on[other_nsp]
            &&& after[nsp].dom().contains(key) <==> (key == tables::event_key(event) || (
            on.dom().contains(nsp) && on[nsp].dom().contains(key)))
            &&& after[nsp][tables::event_key(event)] == callback
            &&& key != tables::event_key(event) && on.dom().contains(nsp) && on[nsp].dom().contains(key)
                ==> after[nsp][key] == on[nsp][key]
        }),
{
}

/// The callbacks stand under their namespaces.
pub proof fn law_callback_values_by_namespace(map: Map<Seq<char>, Callbacks>, key: Seq<char>)
    ensures
        callback_views(map).dom().contains(key) <==> map.dom().contains(key),
        map.dom().contains(key) ==> callback_views(map)[key] == tables::callbacks_in(map[key]),
{
}

}
