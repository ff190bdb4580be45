//! The concurrent maps that a client and a server keep.
use std::sync::Arc;

use dashmap::DashMap;
use vstd::prelude::*;
use vstd::string::*;

use crate::socketio::event::{Event, EventView};
use crate::socketio::rooms::NspRooms;
use crate::table::Table;
use crate::text;

verus! {

/// The concurrent map of the `dashmap` crate. What it holds is known by the names below. A map
/// that is changed is borrowed as such, though the crate would not ask for it.
#[verifier::external_type_specification]
#[verifier::external_body]
#[verifier::reject_recursive_types(K)]
#[verifier::reject_recursive_types(V)]
#[verifier::reject_recursive_types(S)]
pub struct ExDashMap<K, V, S>(DashMap<K, V, S>);

/// Callbacks, each a number under which it is known elsewhere, by the keys of their events.
pub type Callbacks = DashMap<(u8, String), u64>;

/// The callbacks of each namespace.
pub type NspCallbacks = DashMap<String, Arc<Callbacks>>;

/// The rooms of each namespace.
pub type Rooms = DashMap<String, Arc<NspRooms>>;

/// The clients of a session.
pub type SidClients = DashMap<String, Arc<NspClients>>;

/// The clients of each session.
pub type Clients = DashMap<String, SidClients>;

/// The key of an event: its kind, and its name where it is a custom one.
pub open spec fn event_key(event: EventView) -> (u8, Seq<char>) {
    match event {
        EventView::Message => (0u8, Seq::empty()),
        EventView::Error => (1u8, Seq::empty()),
        EventView::Connect => (2u8, Seq::empty()),
        EventView::Close => (3u8, Seq::empty()),
        EventView::Custom(name) => (4u8, name),
    }
}

/// Different events have different keys.
pub proof fn law_event_keys_differ(a: EventView, b: EventView)
    requires
        a != b,
    ensures
        event_key(a) != event_key(b),
{
}

/// Makes the key of an event.
pub fn key_of(event: &Event) -> (key: (u8, String))
    ensures
        (key.0, key.1@) == event_key(event@),
{
    match event {
        Event::Message => (0, String::new()),
        Event::Error => (1, String::new()),
        Event::Connect => (2, String::new()),
        Event::Close => (3, String::new()),
        Event::Custom(name) => (4, name.clone()),
    }
}

/// The callbacks in a map.
pub uninterp spec fn callbacks_in(map: DashMap<(u8, String), u64>) -> Map<(u8, Seq<char>), u64>;

/// Calls `DashMap::new`: an empty map.
#[verifier::external_body]
pub(crate) fn new_callbacks() -> (map: Callbacks)
    ensures
        callbacks_in(map).dom() == Set::<(u8, Seq<char>)>::empty(),
{
    DashMap::new()
}

/// Calls `DashMap::insert`: the value stands under the key, in place of another.
#[verifier::external_body]
pub(crate) fn insert_callback(map: &mut Callbacks, key: (u8, String), callback: u64)
    ensures
        callbacks_in(*final(map)) == callbacks_in(*old(map)).insert((key.0, key.1@), callback),
{
    map.insert(key, callback);
}

/// Calls `DashMap::get`: the value that stands under the key.
#[verifier::external_body]
pub(crate) fn get_callback(map: &Callbacks, key: &(u8, String)) -> (callback: Option<u64>)
    ensures
        callback is Some <==> callbacks_in(*map).dom().contains((key.0, key.1@)),
        callback matches Some(c) ==> c == callbacks_in(*map)[(key.0, key.1@)],
{
    map.get(key).map(|entry| *entry.value())
}

/// The callbacks of each namespace in a map.
pub uninterp spec fn namespaces_in(map: DashMap<String, Arc<DashMap<(u8, String), u64>>>) -> Map<
    Seq<char>,
    Map<(u8, Seq<char>), u64>,
>;

/// Calls `DashMap::new`: an empty map.
#[verifier::external_body]
pub(crate) fn new_namespaces() -> (map: NspCallbacks)
    ensures
        namespaces_in(map).dom() == Set::<Seq<char>>::empty(),
{
    DashMap::new()
}

/// Calls `DashMap::insert`: the value stands under the key, in place of another.
#[verifier::external_body]
pub(crate) fn insert_namespace(map: &mut NspCallbacks, nsp: String, callbacks: Arc<Callbacks>)
    ensures
        namespaces_in(*final(map)) == namespaces_in(*old(map)).insert(nsp@, callbacks_in(*callbacks)),
{
    map.insert(nsp, callbacks);
}

/// Calls `DashMap::get`: the value that stands under the key, which is shared.
#[verifier::external_body]
pub(crate) fn get_namespace(map: &NspCallbacks, nsp: &str) -> (callbacks: Option<Arc<Callbacks>>)
    ensures
        callbacks is Some <==> namespaces_in(*map).dom().contains(nsp@),
        callbacks matches Some(c) ==> callbacks_in(*c) == namespaces_in(*map)[nsp@],
{
    map.get(nsp).map(|entry| Arc::clone(entry.value()))
}

/// The rooms of each namespace in a map.
pub uninterp spec fn rooms_in(map: DashMap<String, Arc<NspRooms>>) -> Map<
    Seq<char>,
    Map<Seq<char>, Set<Seq<char>>>,
>;

/// Calls `DashMap::new`: an empty map.
#[verifier::external_body]
pub(crate) fn new_rooms() -> (map: Rooms)
    ensures
        rooms_in(map).dom() == Set::<Seq<char>>::empty(),
{
    DashMap::new()
}

/// Calls `DashMap::insert`: the value stands under the key, in place of another.
#[verifier::external_body]
pub(crate) fn insert_rooms(map: &mut Rooms, nsp: String, rooms: Arc<NspRooms>)
    ensures
        rooms_in(*final(map)) == rooms_in(*old(map)).insert(nsp@, rooms@),
{
    map.insert(nsp, rooms);
}

/// Calls `DashMap::remove`: the value that stood under the key is handed out.
#[verifier::external_body]
pub(crate) fn remove_rooms(map: &mut Rooms, nsp: &str) -> (rooms: Option<Arc<NspRooms>>)
    ensures
        rooms_in(*final(map)) == rooms_in(*old(map)).remove(nsp@),
        rooms is Some <==> rooms_in(*old(map)).dom().contains(nsp@),
        rooms matches Some(r) ==> r@ == rooms_in(*old(map))[nsp@],
{
    map.remove(nsp).map(|entry| entry.1)
}

/// Calls `DashMap::get`: the value that stands under the key, which is shared.
#[verifier::external_body]
pub(crate) fn get_rooms(map: &Rooms, nsp: &str) -> (rooms: Option<Arc<NspRooms>>)
    ensures
        rooms is Some <==> rooms_in(*map).dom().contains(nsp@),
        rooms matches Some(r) ==> r@ == rooms_in(*map)[nsp@],
{
    map.get(nsp).map(|entry| Arc::clone(entry.value()))
}

/// Calls `DashMap::iter`, and hands out the keys: each comes once, in an order that says nothing.
#[verifier::external_body]
pub(crate) fn rooms_keys(map: &Rooms) -> (keys: Vec<String>)
    ensures
        text::texts(keys@).to_set() == rooms_in(*map).dom(),
        text::texts(keys@).no_duplicates(),
{
    map.iter().map(|entry| entry.key().clone()).collect()
}

/// The clients that go by one identifier, each a number under which it is known elsewhere, by
/// their namespaces.
pub type NspClients = Table<u64>;

/// The clients of a session in a map, by their identifiers.
pub uninterp spec fn sids_in(map: DashMap<String, Arc<Table<u64>>>) -> Map<
    Seq<char>,
    Map<Seq<char>, u64>,
>;

/// The clients of each session in a map.
pub uninterp spec fn clients_in(map: DashMap<String, DashMap<String, Arc<Table<u64>>>>) -> Map<
    Seq<char>,
    Map<Seq<char>, Map<Seq<char>, u64>>,
>;

/// Calls `DashMap::new`: an empty map.
#[verifier::external_body]
pub(crate) fn new_sids() -> (map: SidClients)
    ensures
        sids_in(map).dom() == Set::<Seq<char>>::empty(),
{
    DashMap::new()
}

/// Calls `DashMap::insert`: the value stands under the key, in place of another.
#[verifier::external_body]
pub(crate) fn insert_sid(map: &mut SidClients, sid: String, clients: Arc<NspClients>)
    ensures
        sids_in(*final(map)) == sids_in(*old(map)).insert(sid@, clients@),
{
    map.insert(sid, clients);
}

/// Calls `DashMap::remove`: the value that stood under the key is handed out.
#[verifier::external_body]
pub(crate) fn remove_sid(map: &mut SidClients, sid: &str) -> (clients: Option<Arc<NspClients>>)
    ensures
        sids_in(*final(map)) == sids_in(*old(map)).remove(sid@),
        clients is Some <==> sids_in(*old(map)).dom().contains(sid@),
        clients matches Some(c) ==> c@ == sids_in(*old(map))[sid@],
{
    map.remove(sid).map(|entry| entry.1)
}

/// Calls `DashMap::new`: an empty map.
#[verifier::external_body]
pub(crate) fn new_clients() -> (map: Clients)
    ensures
        clients_in(map).dom() == Set::<Seq<char>>::empty(),
{
    DashMap::new()
}

/// Calls `DashMap::insert`: the value stands under the key, in place of another.
#[verifier::external_body]
pub(crate) fn insert_session(map: &mut Clients, esid: String, clients: SidClients)
    ensures
        clients_in(*final(map)) == clients_in(*old(map)).insert(esid@, sids_in(clients)),
{
    map.insert(esid, clients);
}

/// Calls `DashMap::remove`: the value that stood under the key is handed out.
#[verifier::external_body]
pub(crate) fn remove_session(map: &mut Clients, esid: &str) -> (clients: Option<SidClients>)
    ensures
        clients_in(*final(map)) == clients_in(*old(map)).remove(esid@),
        clients is Some <==> clients_in(*old(map)).dom().contains(esid@),
        clients matches Some(c) ==> sids_in(c) == clients_in(*old(map))[esid@],
{
    map.remove(esid).map(|entry| entry.1)
}

/// Calls `DashMap::get` on the map and on what it holds: the value that stands there under the
/// second key, which is shared.
#[verifier::external_body]
pub(crate) fn get_client(map: &Clients, esid: &str, sid: &str) -> (clients: Option<Arc<NspClients>>)
    ensures
        clients is Some <==> (clients_in(*map).dom().contains(esid@) && clients_in(
            *map,
        )[esid@].dom().contains(sid@)),
        clients matches Some(c) ==> c@ == clients_in(*map)[esid@][sid@],
{
    map.get(esid)?.get(sid).map(|entry| Arc::clone(entry.value()))
}

/// Calls `DashMap::get` on the map, and `DashMap::iter` on what it holds: some entry, whose value
/// is shared.
#[verifier::external_body]
pub(crate) fn any_client(map: &Clients, esid: &str) -> (entry: Option<(String, Arc<NspClients>)>)
    ensures
        entry is Some <==> (clients_in(*map).dom().contains(esid@) && clients_in(*map)[esid@].dom()
            != Set::<Seq<char>>::empty()),
        entry matches Some((sid, clients)) ==> clients_in(*map)[esid@].dom().contains(sid@) && clients@
            == clients_in(*map)[esid@][sid@],
{
    map.get(esid)?.iter().next().map(|entry| (entry.key().clone(), Arc::clone(entry.value())))
}

}
