//! Headers that a client sends along with its requests.
use vstd::prelude::*;

use crate::table::Table;

verus! {

/// Headers by their names.
#[derive(Debug)]
pub struct HeaderMap {
    map: Table<String>,
}

/// The headers that a table holds.
pub open spec fn headers_of(map: Map<Seq<char>, String>) -> Map<Seq<char>, Seq<char>> {
    map.map_values(|v: String| v@)
}

impl View for HeaderMap {
    type V = Map<Seq<char>, Seq<char>>;

    closed spec fn view(&self) -> Map<Seq<char>, Seq<char>> {
        headers_of(self.map@)
    }
}

impl HeaderMap {
    /// No headers.
    pub fn new() -> (headers: Self)
        ensures
            headers@ == Map::<Seq<char>, Seq<char>>::empty(),
    {
        let headers = HeaderMap { map: Table::new() };
        assert(headers@ =~= Map::<Seq<char>, Seq<char>>::empty());
        headers
    }

    /// Sets a header, in place of one of the same name.
    pub fn insert(&mut self, name: String, value: String)
        ensures
            final(self)@ == old(self)@.insert(name@, value@),
    {
        let ghost before = self.map@;
        let _ = self.map.insert(name, value);
        assert(headers_of(self.map@) =~= headers_of(before).insert(name@, value@));
    }

    /// The value of a header.
    pub fn get(&self, name: &str) -> (value: Option<&String>)
        ensures
            value is Some <==> self@.dom().contains(name@),
            value matches Some(v) ==> v@ == self@[name@],
    {
        self.map.get(name)
    }

    /// The names of the headers, each once.
    pub fn names(&self) -> (names: Vec<String>)
        ensures
            forall|k: Seq<char>|
                self@.dom().contains(k) <==> exists|i: int|
                    0 <= i < names@.len() && (#[trigger] names@[i])@ == k,
            forall|i: int, j: int|
                0 <= i < j < names@.len() ==> (#[trigger] names@[i])@ != (#[trigger] names@[j])@,
    {
        let names = self.map.keys();
        assert forall|k: Seq<char>|
            self@.dom().contains(k) <==> exists|i: int|
                0 <= i < names@.len() && (#[trigger] names@[i])@ == k by {
            assert(self@.dom().contains(k) <==> self.map@.dom().contains(k));
        }
        names
    }
}

/// The values of headers stand under their names.
pub proof fn law_header_values_by_name(map: Map<Seq<char>, String>, key: Seq<char>)
    ensures
        headers_of(map).dom().contains(key) <==> map.dom().contains(key),
        map.dom().contains(key) ==> headers_of(map)[key] == map[key]@,
{
}

}
