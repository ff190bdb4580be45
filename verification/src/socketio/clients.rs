//! The clients of a server, by the sessions that they belong to.
use std::sync::Arc;

use vstd::prelude::*;
use vstd::string::*;

use crate::socketio::tables;
use crate::socketio::tables::{Clients, NspClients};
use crate::table::Table;

verus! {

/// The clients of a session.
pub open spec fn clients_of(
    clients: Map<Seq<char>, Map<Seq<char>, Map<Seq<char>, u64>>>,
    engine_sid: Seq<char>,
) -> Map<Seq<char>, Map<Seq<char>, u64>> {
    if clients.dom().contains(engine_sid) {
        clients[engine_sid]
    } else {
        Map::empty()
    }
}

/// The clients of an identifier.
pub open spec fn namespaces_of(
    clients: Map<Seq<char>, Map<Seq<char>, u64>>,
    sid: Seq<char>,
) -> Map<Seq<char>, u64> {
    if clients.dom().contains(sid) {
        clients[sid]
    } else {
        Map::empty()
    }
}

/// The clients with one more.
pub open spec fn with_client(
    clients: Map<Seq<char>, Map<Seq<char>, Map<Seq<char>, u64>>>,
    engine_sid: Seq<char>,
    sid: Seq<char>,
    nsp: Seq<char>,
    client: u64,
) -> Map<Seq<char>, Map<Seq<char>, Map<Seq<char>, u64>>> {
    let of_session = clients_of(clients, engine_sid);
    clients.insert(
        engine_sid,
        of_session.insert(sid, namespaces_of(of_session, sid).insert(nsp, client)),
    )
}

/// Whether every session that is known has an identifier, and every identifier a client.
pub open spec fn none_empty(clients: Map<Seq<char>, Map<Seq<char>, Map<Seq<char>, u64>>>) -> bool {
    &&& forall|engine_sid: Seq<char>| #[trigger]
        clients.dom().contains(engine_sid) ==> clients[engine_sid].dom() != Set::<Seq<char>>::empty()
    &&& forall|engine_sid: Seq<char>, sid: Seq<char>|
        clients.dom().contains(engine_sid) && #[trigger] clients[engine_sid].dom().contains(sid)
            ==> clients[engine_sid][sid].dom() != Set::<Seq<char>>::empty()
}

/// The clients of a server, each a number under which it is known elsewhere, by their sessions,
/// identifiers and namespaces. A session is there as long as it has a client.
#[derive(Debug)]
pub struct ClientTable {
    map: Clients,
}

impl View for ClientTable {
    type V = Map<Seq<char>, Map<Seq<char>, Map<Seq<char>, u64>>>;

    closed spec fn view(&self) -> Map<Seq<char>, Map<Seq<char>, Map<Seq<char>, u64>>> {
        tables::clients_in(self.map)
    }
}

impl ClientTable {
    #[verifier::type_invariant]
    spec fn well_formed(self) -> bool {
        none_empty(tables::clients_in(self.map))
    }

    /// No clients.
    pub fn new() -> (clients: Self)
        ensures
            clients@ == Map::<Seq<char>, Map<Seq<char>, Map<Seq<char>, u64>>>::empty(),
    {
        let map = tables::new_clients();
        assert(tables::clients_in(map) =~= Map::<
            Seq<char>,
            Map<Seq<char>, Map<Seq<char>, u64>>,
        >::empty());
        ClientTable { map }
    }

    /// The clients of an identifier in a session.
    pub fn get(&self, engine_sid: &str, sid: &str) -> (clients: Option<Arc<NspClients>>)
        ensures
            clients is Some <==> clients_of(self@, engine_sid@).dom().contains(sid@),
            clients matches Some(c) ==> c@ == clients_of(self@, engine_sid@)[sid@],
    {
        tables::get_client(&self.map, engine_sid, sid)
    }

    /// Some client of a session: its identifier and namespace.
    pub fn any(&self, engine_sid: &str) -> (info: Option<(String, String)>)
        ensures
            info is Some <==> self@.dom().contains(engine_sid@),
            info matches Some((sid, nsp)) ==> self@[engine_sid@].dom().contains(sid@)
                && self@[engine_sid@][sid@].dom().contains(nsp@),
    {
        proof {
            use_type_invariant(self);
        }
        match tables::any_client(&self.map, engine_sid) {
            None => None,
            Some((sid, clients)) => match clients.any() {
                None => None,
                Some((nsp, _)) => Some((sid, nsp.clone())),
            },
        }
    }

    /// Puts a client in, in place of another of the same identifier in the same namespace.
    pub fn insert(&mut self, engine_sid: &str, sid: &str, nsp: &str, client: u64)
        ensures
            final(self)@ == with_client(old(self)@, engine_sid@, sid@, nsp@, client),
    {
        proof {
            use_type_invariant(&*self);
        }
        let ghost before = self@;
        let mut map = tables::new_clients();
        assert(none_empty(tables::clients_in(map)));
        std::mem::swap(&mut map, &mut self.map);
        let mut sid_map = match tables::remove_session(&mut map, engine_sid) {
            Some(sid_map) => sid_map,
            None => {
                let sid_map = tables::new_sids();
                assert(tables::sids_in(sid_map) =~= Map::<Seq<char>, Map<Seq<char>, u64>>::empty());
                sid_map
            },
        };
        let ghost of_session = tables::sids_in(sid_map);
        assert(of_session == clients_of(before, engine_sid@));
        let mut nsp_map = match tables::remove_sid(&mut sid_map, sid) {
            Some(nsp_map) => {
                let copy = (*nsp_map).clone();
                assert(copy@ =~= nsp_map@) by {
                    assert forall|k: Seq<char>| #[trigger] copy@.dom().contains(k) implies copy@[k]
                        == nsp_map@[k] by {
                        assert(cloned::<u64>(nsp_map@[k], copy@[k]));
                    }
                }
                copy
            },
            None => Table::new(),
        };
        assert(nsp_map@ == namespaces_of(of_session, sid@));
        let _ = nsp_map.insert(nsp.to_owned(), client);
        tables::insert_sid(&mut sid_map, sid.to_owned(), Arc::new(nsp_map));
        assert(tables::sids_in(sid_map) =~= of_session.insert(sid@, nsp_map@));
        tables::insert_session(&mut map, engine_sid.to_owned(), sid_map);
        proof {
            assert(tables::clients_in(map) =~= with_client(before, engine_sid@, sid@, nsp@, client));
            assert(nsp_map@.dom().contains(nsp@));
            assert(tables::sids_in(sid_map).dom().contains(sid@));
        }
        self.map = map;
    }

    /// Takes the clients of a session out.
    pub fn remove(&mut self, engine_sid: &str)
        ensures
            final(self)@ == old(self)@.remove(engine_sid@),
    {
        proof {
            use_type_invariant(&*self);
        }
        let mut map = tables::new_clients();
        assert(none_empty(tables::clients_in(map)));
        std::mem::swap(&mut map, &mut self.map);
        let _ = tables::remove_session(&mut map, engine_sid);
        self.map = map;
    }
}

/// One more client is found under its session, identifier and namespace, and all others are found
/// as before.
pub proof fn law_one_more_client(
    clients: Map<Seq<char>, Map<Seq<char>, Map<Seq<char>, u64>>>,
    engine_sid: Seq<char>,
    sid: Seq<char>,
    nsp: Seq<char>,
    client: u64,
    other_session: Seq<char>,
    other_sid: Seq<char>,
    other_nsp: Seq<char>,
)
    ensures
        ({
            let after = with_client(clients, engine_sid, sid, nsp, client);
            &&& after.dom().contains(other_session) <==> (clients.dom().contains(other_session)
                || other_session == engine_sid)
            &&& other_session != engine_sid ==> after[other_session] == clients[other_session]
            &&& after[engine_sid].dom().contains(other_sid) <==> (other_sid == sid || (
            clients.dom().contains(engine_sid) && clients[engine_sid].dom().contains(other_sid)))
            &&& other_sid != sid && clients.dom().contains(engine_sid)
                && clients[engine_sid].dom().contains(other_sid) ==> after[engine_sid][other_sid]
                == clients[engine_sid][other_sid]
            &&& after[engine_sid][sid].dom().contains(other_nsp) <==> (other_nsp == nsp || (
            clients.dom().contains(engine_sid) && clients[engine_sid].dom().contains(sid)
                && clients[engine_sid][sid].dom().contains(other_nsp)))
            &&& after[engine_sid][sid][nsp] == client
            &&& other_nsp != nsp && clients.dom().contains(engine_sid)
                && clients[engine_sid].dom().contains(sid) && clients[engine_sid][sid].dom().contains(
                other_nsp,
            ) ==> after[engine_sid][sid][other_nsp] == clients[engine_sid][sid][other_nsp]
        }),
{
}

}
