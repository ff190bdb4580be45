//! The rooms of a namespace, and the clients in them.
use std::sync::Arc;

use vstd::prelude::*;
use vstd::string::*;

use crate::engineio::packet::Sid;
use crate::socketio::sid;
use crate::socketio::sid::SidGenerator;
use crate::table::Table;
use crate::text;

verus! {

/// The texts of identifiers.
pub open spec fn sid_texts(sids: Seq<Sid>) -> Seq<Seq<char>> {
    sids.map_values(|s: Sid| s@)
}

/// The clients of a set that are not of a session.
pub open spec fn without_session(sids: Set<Seq<char>>, engine_sid: Seq<char>) -> Set<Seq<char>> {
    sids.filter(|s: Seq<char>| sid::session_of(s) != Some(engine_sid))
}

/// A set of clients.
#[derive(Debug)]
pub struct SidSet {
    sids: Vec<Sid>,
}

impl View for SidSet {
    type V = Set<Seq<char>>;

    closed spec fn view(&self) -> Set<Seq<char>> {
        sid_texts(self.sids@).to_set()
    }
}

impl SidSet {
    #[verifier::type_invariant]
    spec fn well_formed(self) -> bool {
        sid_texts(self.sids@).no_duplicates()
    }

    /// The empty set.
    pub fn new() -> (set: Self)
        ensures
            set@ == Set::<Seq<char>>::empty(),
    {
        let sids: Vec<Sid> = Vec::new();
        let set = SidSet { sids };
        assert(set@ =~= Set::<Seq<char>>::empty());
        set
    }

    /// Whether a client is in the set.
    pub fn contains(&self, sid: &Sid) -> (found: bool)
        ensures
            found == self@.contains(sid@),
    {
        let mut i: usize = 0;
        let ghost texts = sid_texts(self.sids@);
        while i < self.sids.len()
            invariant
                i <= self.sids@.len(),
                texts == sid_texts(self.sids@),
                forall|j: int| 0 <= j < i ==> #[trigger] texts[j] != sid@,
            decreases self.sids@.len() - i,
        {
            assert(texts[i as int] == self.sids@[i as int]@);
            if text::same_text(self.sids[i].as_str(), sid.as_str()) {
                assert(texts.contains(sid@));
                return true;
            }
            i = i + 1;
        }
        false
    }

    /// Puts a client into the set.
    pub fn insert(&mut self, sid: Sid)
        ensures
            final(self)@ == old(self)@.insert(sid@),
    {
        if self.contains(&sid) {
            assert(old(self)@.insert(sid@) =~= old(self)@);
            return;
        }
        proof {
            use_type_invariant(&*self);
        }
        let ghost before = sid_texts(self.sids@);
        let mut sids: Vec<Sid> = Vec::new();
        std::mem::swap(&mut sids, &mut self.sids);
        sids.push(sid);
        proof {
            assert(sid_texts(sids@) =~= before.push(sid@));
            assert(before.push(sid@).no_duplicates()) by {
                assert forall|i: int, j: int|
                    0 <= i < before.push(sid@).len() && 0 <= j < before.push(sid@).len() && i
                        != j implies before.push(sid@)[i] != before.push(sid@)[j] by {
                    if i == before.len() {
                        assert(before.contains(before[j]));
                    } else if j == before.len() {
                        assert(before.contains(before[i]));
                    }
                }
            }
            assert forall|x: Seq<char>| #[trigger]
                before.push(sid@).to_set().contains(x) <==> before.to_set().insert(sid@).contains(x) by {
                if before.push(sid@).contains(x) {
                    let i = choose|i: int| 0 <= i < before.len() + 1 && before.push(sid@)[i] == x;
                    if i < before.len() {
                        assert(before[i] == x);
                    }
                }
                if before.contains(x) {
                    let i = choose|i: int| 0 <= i < before.len() && before[i] == x;
                    assert(before.push(sid@)[i] == x);
                }
                assert(before.push(sid@)[before.len() as int] == sid@);
            }
            assert(before.push(sid@).to_set() =~= before.to_set().insert(sid@));
        }
        self.sids = sids;
    }

    /// Takes a client out of the set.
    pub fn remove(&mut self, sid: &Sid)
        ensures
            final(self)@ == old(self)@.remove(sid@),
    {
        let mut kept = SidSet::new();
        let mut i: usize = 0;
        let ghost texts = sid_texts(self.sids@);
        while i < self.sids.len()
            invariant
                i <= self.sids@.len(),
                texts == sid_texts(self.sids@),
                kept@ == texts.take(i as int).to_set().remove(sid@),
            decreases self.sids@.len() - i,
        {
            let one = &self.sids[i];
            proof {
                assert(texts[i as int] == one@);
                lemma_take_next(texts, i as int);
            }
            let ghost before = kept@;
            if !text::same_text(one.as_str(), sid.as_str()) {
                kept.insert(Arc::clone(one));
                assert(kept@ =~= texts.take(i + 1).to_set().remove(sid@));
            } else {
                assert(kept@ =~= texts.take(i + 1).to_set().remove(sid@));
            }
            i = i + 1;
        }
        assert(texts.take(i as int) =~= texts);
        assert(texts.take(0).to_set() =~= Set::<Seq<char>>::empty());
        *self = kept;
    }

    /// Takes the clients of a session out of the set.
    pub fn drop_session(&mut self, engine_sid: &Sid)
        ensures
            final(self)@ == without_session(old(self)@, engine_sid@),
    {
        let mut kept = SidSet::new();
        let mut i: usize = 0;
        let ghost texts = sid_texts(self.sids@);
        assert(texts.take(0).to_set() =~= Set::<Seq<char>>::empty());
        assert(kept@ =~= without_session(texts.take(0).to_set(), engine_sid@));
        while i < self.sids.len()
            invariant
                i <= self.sids@.len(),
                texts == sid_texts(self.sids@),
                kept@ == without_session(texts.take(i as int).to_set(), engine_sid@),
            decreases self.sids@.len() - i,
        {
            let one = &self.sids[i];
            proof {
                assert(texts[i as int] == one@);
                lemma_take_next(texts, i as int);
            }
            let is_theirs = match SidGenerator::decode(one) {
                Some(session) => text::same_text(session.as_str(), engine_sid.as_str()),
                None => false,
            };
            if !is_theirs {
                kept.insert(Arc::clone(one));
            }
            assert(kept@ =~= without_session(texts.take(i + 1).to_set(), engine_sid@));
            i = i + 1;
        }
        assert(texts.take(i as int) =~= texts);
        *self = kept;
    }

    /// The clients in the set, each once.
    pub fn to_vec(&self) -> (sids: Vec<Sid>)
        ensures
            sid_texts(sids@).to_set() == self@,
            sid_texts(sids@).no_duplicates(),
    {
        proof {
            use_type_invariant(self);
        }
        let mut sids: Vec<Sid> = Vec::new();
        let mut i: usize = 0;
        while i < self.sids.len()
            invariant
                i <= self.sids@.len(),
                sids@.len() == i,
                forall|j: int| 0 <= j < i ==> (#[trigger] sids@[j])@ == self.sids@[j]@,
            decreases self.sids@.len() - i,
        {
            sids.push(Arc::clone(&self.sids[i]));
            i = i + 1;
        }
        assert(sid_texts(sids@) =~= sid_texts(self.sids@));
        sids
    }
}

/// One more element makes the set of a prefix larger by it.
pub proof fn lemma_take_next(texts: Seq<Seq<char>>, i: int)
    requires
        0 <= i < texts.len(),
    ensures
        texts.take(i + 1).to_set() == texts.take(i).to_set().insert(texts[i]),
{
    let shorter = texts.take(i);
    let longer = texts.take(i + 1);
    assert forall|x: Seq<char>| #[trigger]
        longer.to_set().contains(x) <==> shorter.to_set().insert(texts[i]).contains(x) by {
        if longer.contains(x) {
            let j = choose|j: int| 0 <= j < longer.len() && longer[j] == x;
            if j < i {
                assert(shorter[j] == x);
            }
        }
        if shorter.contains(x) {
            let j = choose|j: int| 0 <= j < shorter.len() && shorter[j] == x;
            assert(longer[j] == x);
        }
        assert(longer[i] == texts[i]);
    }
    assert(longer.to_set() =~= shorter.to_set().insert(texts[i]));
}

impl Clone for SidSet {
    fn clone(&self) -> (set: Self)
        ensures
            set@ == self@,
    {
        SidSet { sids: self.to_vec() }
    }
}

/// The rooms of a namespace, by their names.
#[derive(Debug)]
pub struct NspRooms {
    rooms: Table<SidSet>,
}

/// The sets of clients by the names of their rooms.
pub open spec fn room_views(rooms: Map<Seq<char>, SidSet>) -> Map<Seq<char>, Set<Seq<char>>> {
    rooms.map_values(|s: SidSet| s@)
}

impl View for NspRooms {
    type V = Map<Seq<char>, Set<Seq<char>>>;

    closed spec fn view(&self) -> Map<Seq<char>, Set<Seq<char>>> {
        room_views(self.rooms@)
    }
}

/// The clients in a room; none where there is no such room.
pub open spec fn members(rooms: Map<Seq<char>, Set<Seq<char>>>, room: Seq<char>) -> Set<Seq<char>> {
    if rooms.dom().contains(room) {
        rooms[room]
    } else {
        Set::empty()
    }
}

/// The rooms after a client joined one, which is made where there is none.
pub open spec fn after_join(
    rooms: Map<Seq<char>, Set<Seq<char>>>,
    room: Seq<char>,
    sid: Seq<char>,
) -> Map<Seq<char>, Set<Seq<char>>> {
    rooms.insert(room, members(rooms, room).insert(sid))
}

/// The rooms after a client left one, which is kept even where it is empty then.
pub open spec fn after_leave(
    rooms: Map<Seq<char>, Set<Seq<char>>>,
    room: Seq<char>,
    sid: Seq<char>,
) -> Map<Seq<char>, Set<Seq<char>>> {
    if rooms.dom().contains(room) {
        rooms.insert(room, rooms[room].remove(sid))
    } else {
        rooms
    }
}

/// The clients that a name stands for: those in the room of that name, or else the client of that
/// name.
pub open spec fn addressed(rooms: Map<Seq<char>, Set<Seq<char>>>, name: Seq<char>) -> Set<Seq<char>> {
    if rooms.dom().contains(name) {
        rooms[name]
    } else {
        set![name]
    }
}

/// The rooms after the clients of a session left all of them.
pub open spec fn rooms_without_session(
    rooms: Map<Seq<char>, Set<Seq<char>>>,
    engine_sid: Seq<char>,
) -> Map<Seq<char>, Set<Seq<char>>> {
    rooms.map_values(|s: Set<Seq<char>>| without_session(s, engine_sid))
}

/// The rooms after the clients of a session left some of them.
spec fn partly_without(
    rooms: Map<Seq<char>, Set<Seq<char>>>,
    done: Set<Seq<char>>,
    engine_sid: Seq<char>,
) -> Map<Seq<char>, Set<Seq<char>>> {
    Map::new(
        |k: Seq<char>| rooms.dom().contains(k),
        |k: Seq<char>|
            if done.contains(k) {
                without_session(rooms[k], engine_sid)
            } else {
                rooms[k]
            },
    )
}

impl NspRooms {
    /// No rooms.
    pub fn new() -> (rooms: Self)
        ensures
            rooms@ == Map::<Seq<char>, Set<Seq<char>>>::empty(),
    {
        let rooms = NspRooms { rooms: Table::new() };
        assert(rooms@ =~= Map::<Seq<char>, Set<Seq<char>>>::empty());
        rooms
    }

    /// Lets a client into a room, which is made where there is none.
    pub fn join(&mut self, room: String, sid: Sid)
        ensures
            final(self)@ == after_join(old(self)@, room@, sid@),
    {
        let ghost before = self.rooms@;
        let mut set = match self.rooms.remove(room.as_str()) {
            Some(set) => set,
            None => SidSet::new(),
        };
        set.insert(sid);
        let _ = self.rooms.insert(room, set);
        assert(room_views(self.rooms@) =~= after_join(room_views(before), room@, sid@));
    }

    /// Lets a client out of a room.
    pub fn leave(&mut self, room: &str, sid: &Sid)
        ensures
            final(self)@ == after_leave(old(self)@, room@, sid@),
    {
        let ghost before = self.rooms@;
        match self.rooms.remove(room) {
            Some(set) => {
                let mut set = set;
                set.remove(sid);
                let _ = self.rooms.insert(room.to_owned(), set);
                assert(room_views(self.rooms@) =~= after_leave(room_views(before), room@, sid@));
            },
            None => {
                assert(self.rooms@ =~= before);
            },
        }
    }

    /// The clients that a name stands for.
    pub fn address(&self, name: &str) -> (sids: Vec<Sid>)
        ensures
            sid_texts(sids@).to_set() == addressed(self@, name@),
            sid_texts(sids@).no_duplicates(),
    {
        match self.rooms.get(name) {
            Some(set) => set.to_vec(),
            // room may be sid
            None => {
                let mut set = SidSet::new();
                set.insert(Arc::new(name.to_owned()));
                assert(set@ =~= set![name@]);
                set.to_vec()
            },
        }
    }

    /// Lets the clients of a session out of every room.
    pub fn drop_session(&mut self, engine_sid: &Sid)
        ensures
            final(self)@ == rooms_without_session(old(self)@, engine_sid@),
    {
        let names = self.names();
        let ghost before = self@;
        let ghost texts = text::texts(names@);
        proof {
            assert forall|k: Seq<char>| texts.to_set().contains(k) <==> before.dom().contains(k) by {
                if texts.contains(k) {
                    let i = choose|i: int| 0 <= i < texts.len() && texts[i] == k;
                    assert(names@[i]@ == k);
                }
                if before.dom().contains(k) {
                    let i = choose|i: int| 0 <= i < names@.len() && (#[trigger] names@[i])@ == k;
                    assert(texts[i] == k);
                }
            }
            assert(texts.take(0).to_set() =~= Set::<Seq<char>>::empty());
            assert(self@ =~= partly_without(before, texts.take(0).to_set(), engine_sid@));
        }
        let mut i: usize = 0;
        while i < names.len()
            invariant
                i <= names@.len(),
                texts == text::texts(names@),
                forall|k: Seq<char>| texts.to_set().contains(k) <==> before.dom().contains(k),
                forall|a: int, b: int|
                    0 <= a < b < names@.len() ==> (#[trigger] names@[a])@ != (#[trigger] names@[b])@,
                self@ == partly_without(before, texts.take(i as int).to_set(), engine_sid@),
            decreases names@.len() - i,
        {
            let ghost done = texts.take(i as int).to_set();
            proof {
                assert(texts[i as int] == names@[i as int]@);
                lemma_take_next(texts, i as int);
                assert(texts.to_set().contains(texts[i as int]));
                assert(!done.contains(texts[i as int])) by {
                    if texts.take(i as int).contains(texts[i as int]) {
                        let j = choose|j: int| 0 <= j < i && texts.take(i as int)[j] == texts[i as int];
                        assert(names@[j]@ == names@[i as int]@);
                    }
                }
            }
            let ghost now = self.rooms@;
            assert(before.dom().contains(texts[i as int]));
            assert(room_views(now).dom().contains(texts[i as int]));
            assert(room_views(now)[texts[i as int]] == before[texts[i as int]]);
            match self.rooms.remove(names[i].as_str()) {
                Some(set) => {
                    let mut set = set;
                    assert(set@ == before[texts[i as int]]);
                    set.drop_session(engine_sid);
                    assert(set@ == without_session(before[texts[i as int]], engine_sid@));
                    let _ = self.rooms.insert(names[i].clone(), set);
                    assert(room_views(self.rooms@) =~= room_views(now).insert(texts[i as int], set@));
                },
                None => {},
            }
            assert(self@ =~= partly_without(before, texts.take(i + 1).to_set(), engine_sid@));
            i = i + 1;
        }
        assert(texts.take(i as int) =~= texts);
        assert(self@ =~= rooms_without_session(before, engine_sid@));
    }

    /// The names of the rooms, each once.
    pub fn names(&self) -> (names: Vec<String>)
        ensures
            forall|k: Seq<char>|
                self@.dom().contains(k) <==> exists|i: int|
                    0 <= i < names@.len() && (#[trigger] names@[i])@ == k,
            forall|i: int, j: int|
                0 <= i < j < names@.len() ==> (#[trigger] names@[i])@ != (#[trigger] names@[j])@,
    {
        let names = self.rooms.keys();
        assert forall|k: Seq<char>|
            self@.dom().contains(k) <==> exists|i: int|
                0 <= i < names@.len() && (#[trigger] names@[i])@ == k by {
            assert(self@.dom().contains(k) <==> self.rooms@.dom().contains(k));
        }
        names
    }
}

impl Clone for NspRooms {
    fn clone(&self) -> (rooms: Self)
        ensures
            rooms@ == self@,
    {
        let rooms = self.rooms.clone();
        proof {
            assert forall|k: Seq<char>| #[trigger] rooms@.dom().contains(k) implies rooms@[k]@
                == self.rooms@[k]@ by {
                assert(cloned::<SidSet>(self.rooms@[k], rooms@[k]));
            }
            assert(room_views(rooms@) =~= room_views(self.rooms@));
        }
        NspRooms { rooms }
    }
}

/// Joining makes the room where there is none, puts the client in, and changes nothing else.
pub proof fn law_joined_room(
    rooms: Map<Seq<char>, Set<Seq<char>>>,
    room: Seq<char>,
    sid: Seq<char>,
    other_room: Seq<char>,
    other: Seq<char>,
)
    ensures
        after_join(rooms, room, sid).dom().contains(other_room) <==> (rooms.dom().contains(other_room)
            || other_room == room),
        after_join(rooms, room, sid)[room].contains(other) <==> (other == sid || (
        rooms.dom().contains(room) && rooms[room].contains(other))),
        other_room != room ==> after_join(rooms, room, sid)[other_room] == rooms[other_room],
{
}

/// Leaving takes the client out of the room, and changes nothing else; the room stays.
pub proof fn law_left_room(
    rooms: Map<Seq<char>, Set<Seq<char>>>,
    room: Seq<char>,
    sid: Seq<char>,
    other_room: Seq<char>,
    other: Seq<char>,
)
    ensures
        after_leave(rooms, room, sid).dom().contains(other_room) <==> rooms.dom().contains(other_room),
        rooms.dom().contains(room) ==> (after_leave(rooms, room, sid)[room].contains(other) <==> (
        other != sid && rooms[room].contains(other))),
        other_room != room ==> after_leave(rooms, room, sid)[other_room] == rooms[other_room],
{
}

/// A name stands for the clients in the room of that name, and only where there is no such room for
/// the client of that name.
pub proof fn law_name_stands_for(
    rooms: Map<Seq<char>, Set<Seq<char>>>,
    name: Seq<char>,
    sid: Seq<char>,
)
    ensures
        rooms.dom().contains(name) ==> (addressed(rooms, name).contains(sid)
            <==> rooms[name].contains(sid)),
        !rooms.dom().contains(name) ==> (addressed(rooms, name).contains(sid) <==> sid == name),
{
}

/// When the clients of a session leave all rooms, the rooms stay, and so do the clients of other
/// sessions.
pub proof fn law_session_leaves_rooms(
    rooms: Map<Seq<char>, Set<Seq<char>>>,
    engine_sid: Seq<char>,
    room: Seq<char>,
    sid: Seq<char>,
)
    ensures
        rooms_without_session(rooms, engine_sid).dom().contains(room) <==> rooms.dom().contains(room),
        rooms.dom().contains(room) ==> (rooms_without_session(rooms, engine_sid)[room].contains(sid)
            <==> rooms[room].contains(sid) && sid::session_of(sid) != Some(engine_sid)),
{
}

/// The texts of identifiers stand in their places, one for each.
pub proof fn law_sid_texts_in_place(row: Seq<Sid>, i: int)
    requires
        0 <= i < row.len(),
    ensures
        sid_texts(row).len() == row.len(),
        sid_texts(row)[i] == row[i]@,
{
}

/// The sets of clients stand under the names of their rooms.
pub proof fn law_room_values_by_name(map: Map<Seq<char>, SidSet>, key: Seq<char>)
    ensures
        room_views(map).dom().contains(key) <==> map.dom().contains(key),
        map.dom().contains(key) ==> room_views(map)[key] == map[key]@,
{
}

}
