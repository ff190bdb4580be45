//! A table from texts to values.
use vstd::prelude::*;
use vstd::string::*;

use crate::text;

verus! {

/// A table from texts to values. No text stands in it twice.
#[derive(Debug)]
pub struct Table<V> {
    entries: Vec<(String, V)>,
}

/// Whether no text stands in a row of entries twice.
pub closed spec fn distinct<V>(entries: Seq<(String, V)>) -> bool {
    forall|i: int, j: int|
        0 <= i < j < entries.len() ==> (#[trigger] entries[i]).0@ != (#[trigger] entries[j]).0@
}

/// Whether an entry is that of a text.
pub closed spec fn is_entry<V>(entries: Seq<(String, V)>, i: int, key: Seq<char>) -> bool {
    0 <= i < entries.len() && entries[i].0@ == key
}

/// The table that entries make.
pub closed spec fn table_of<V>(entries: Seq<(String, V)>) -> Map<Seq<char>, V> {
    Map::new(
        |key: Seq<char>| exists|i: int| is_entry(entries, i, key),
        |key: Seq<char>| entries[choose|i: int| is_entry(entries, i, key)].1,
    )
}

impl<V> View for Table<V> {
    type V = Map<Seq<char>, V>;

    closed spec fn view(&self) -> Map<Seq<char>, V> {
        table_of(self.entries@)
    }
}

/// An entry is what the table holds for its text.
proof fn lemma_entry<V>(entries: Seq<(String, V)>, i: int)
    requires
        distinct(entries),
        0 <= i < entries.len(),
    ensures
        table_of(entries).dom().contains(entries[i].0@),
        table_of(entries)[entries[i].0@] == entries[i].1,
{
    let key = entries[i].0@;
    assert(is_entry(entries, i, key));
    let j = choose|j: int| is_entry(entries, j, key);
    assert(is_entry(entries, j, key));
    assert(i == j);
}

/// What the table holds comes from an entry.
proof fn lemma_held<V>(entries: Seq<(String, V)>, key: Seq<char>) -> (i: int)
    requires
        distinct(entries),
        table_of(entries).dom().contains(key),
    ensures
        is_entry(entries, i, key),
        table_of(entries)[key] == entries[i].1,
{
    let i = choose|i: int| is_entry(entries, i, key);
    lemma_entry(entries, i);
    i
}

impl<V> Table<V> {
    #[verifier::type_invariant]
    spec fn well_formed(self) -> bool {
        distinct(self.entries@)
    }

    /// An empty table.
    pub fn new() -> (table: Self)
        ensures
            table@ == Map::<Seq<char>, V>::empty(),
    {
        let table = Table { entries: Vec::new() };
        assert(table@ =~= Map::<Seq<char>, V>::empty()) by {
            assert forall|key: Seq<char>| !table@.dom().contains(key) by {}
        }
        table
    }

    /// The index of a text's entry.
    fn find(&self, key: &str) -> (index: Option<usize>)
        ensures
            index matches Some(i) ==> is_entry(self.entries@, i as int, key@),
            index is None ==> !self@.dom().contains(key@),
    {
        let mut i: usize = 0;
        while i < self.entries.len()
            invariant
                i <= self.entries@.len(),
                forall|j: int| 0 <= j < i ==> (#[trigger] self.entries@[j]).0@ != key@,
            decreases self.entries@.len() - i,
        {
            if text::same_text(self.entries[i].0.as_str(), key) {
                return Some(i);
            }
            i = i + 1;
        }
        None
    }

    /// Whether a text stands in the table.
    pub fn contains(&self, key: &str) -> (found: bool)
        ensures
            found == self@.dom().contains(key@),
    {
        proof {
            use_type_invariant(self);
        }
        match self.find(key) {
            Some(i) => {
                proof {
                    lemma_entry(self.entries@, i as int);
                }
                true
            },
            None => false,
        }
    }

    /// The value that stands for a text.
    pub fn get(&self, key: &str) -> (value: Option<&V>)
        ensures
            value is Some <==> self@.dom().contains(key@),
            value matches Some(v) ==> *v == self@[key@],
    {
        proof {
            use_type_invariant(self);
        }
        match self.find(key) {
            Some(i) => {
                proof {
                    lemma_entry(self.entries@, i as int);
                }
                Some(&self.entries[i].1)
            },
            None => None,
        }
    }

    /// Takes the value that stands for a text out of the table.
    pub fn remove(&mut self, key: &str) -> (value: Option<V>)
        ensures
            final(self)@ == old(self)@.remove(key@),
            value is Some <==> old(self)@.dom().contains(key@),
            value matches Some(v) ==> v == old(self)@[key@],
    {
        proof {
            use_type_invariant(&*self);
        }
        match self.find(key) {
            None => {
                assert(old(self)@.remove(key@) =~= old(self)@);
                None
            },
            Some(i) => {
                let ghost before = self.entries@;
                let mut entries: Vec<(String, V)> = Vec::new();
                std::mem::swap(&mut entries, &mut self.entries);
                proof {
                    lemma_entry(before, i as int);
                }
                let (_, value) = entries.remove(i);
                proof {
                    let after = entries@;
                    assert(distinct(after)) by {
                        assert forall|a: int, b: int| 0 <= a < b < after.len() implies (
                        #[trigger] after[a]).0@ != (#[trigger] after[b]).0@ by {
                            let a0 = if a < i { a } else { a + 1 };
                            let b0 = if b < i { b } else { b + 1 };
                            assert(after[a] == before[a0] && after[b] == before[b0]);
                        }
                    }
                    assert forall|k: Seq<char>| #[trigger]
                        table_of(after).dom().contains(k) <==> table_of(before).remove(key@).dom().contains(
                            k,
                        ) by {
                        if table_of(after).dom().contains(k) {
                            let a = lemma_held(after, k);
                            let a0 = if a < i { a } else { a + 1 };
                            assert(after[a] == before[a0]);
                            lemma_entry(before, a0);
                        }
                        if table_of(before).remove(key@).dom().contains(k) {
                            let b = lemma_held(before, k);
                            let b1 = if b < i { b } else { b - 1 };
                            assert(after[b1] == before[b]);
                            lemma_entry(after, b1);
                        }
                    }
                    assert forall|k: Seq<char>| #[trigger]
                        table_of(after).dom().contains(k) implies table_of(after)[k] == table_of(
                        before,
                    ).remove(key@)[k] by {
                        let a = lemma_held(after, k);
                        let a0 = if a < i { a } else { a + 1 };
                        assert(after[a] == before[a0]);
                        lemma_entry(before, a0);
                    }
                    assert(table_of(after) =~= table_of(before).remove(key@));
                }
                self.entries = entries;
                Some(value)
            },
        }
    }

    /// Lets a value stand for a text, in place of what stood for it.
    pub fn insert(&mut self, key: String, value: V) -> (replaced: Option<V>)
        ensures
            final(self)@ == old(self)@.insert(key@, value),
            replaced is Some <==> old(self)@.dom().contains(key@),
            replaced matches Some(v) ==> v == old(self)@[key@],
    {
        let replaced = self.remove(key.as_str());
        proof {
            use_type_invariant(&*self);
        }
        let ghost before = self.entries@;
        let mut entries: Vec<(String, V)> = Vec::new();
        std::mem::swap(&mut entries, &mut self.entries);
        entries.push((key, value));
        proof {
            let after = entries@;
            let n = before.len() as int;
            assert forall|i: int| 0 <= i < n implies (#[trigger] before[i]).0@ != key@ by {
                lemma_entry(before, i);
            }
            assert(distinct(after)) by {
                assert forall|a: int, b: int| 0 <= a < b < after.len() implies (#[trigger] after[a]).0@
                    != (#[trigger] after[b]).0@ by {
                    assert(after[a] == before[a]);
                    if b < n {
                        assert(after[b] == before[b]);
                    }
                }
            }
            assert forall|k: Seq<char>| #[trigger]
                table_of(after).dom().contains(k) <==> table_of(before).insert(key@, value).dom().contains(
                    k,
                ) by {
                if table_of(after).dom().contains(k) {
                    let a = lemma_held(after, k);
                    if a < n {
                        assert(after[a] == before[a]);
                        lemma_entry(before, a);
                    }
                }
                if k == key@ {
                    lemma_entry(after, n);
                } else if table_of(before).dom().contains(k) {
                    let b = lemma_held(before, k);
                    assert(after[b] == before[b]);
                    lemma_entry(after, b);
                }
            }
            assert forall|k: Seq<char>| #[trigger]
                table_of(after).dom().contains(k) implies table_of(after)[k] == table_of(before).insert(
                key@,
                value,
            )[k] by {
                let a = lemma_held(after, k);
                if a < n {
                    assert(after[a] == before[a]);
                    lemma_entry(before, a);
                }
            }
            assert(table_of(after) =~= table_of(before).insert(key@, value));
            assert(old(self)@.remove(key@).insert(key@, value) =~= old(self)@.insert(key@, value));
        }
        self.entries = entries;
        replaced
    }

    /// A text that stands in the table, and its value; none where the table is empty.
    pub fn any(&self) -> (entry: Option<(&String, &V)>)
        ensures
            entry is None <==> self@ == Map::<Seq<char>, V>::empty(),
            entry matches Some((key, value)) ==> self@.dom().contains(key@) && *value == self@[key@],
    {
        proof {
            use_type_invariant(self);
        }
        if self.entries.len() == 0 {
            assert(self@ =~= Map::<Seq<char>, V>::empty());
            None
        } else {
            proof {
                lemma_entry(self.entries@, 0);
            }
            Some((&self.entries[0].0, &self.entries[0].1))
        }
    }

    /// The texts that stand in the table, each once.
    pub fn keys(&self) -> (keys: Vec<String>)
        ensures
            forall|k: Seq<char>|
                self@.dom().contains(k) <==> exists|i: int|
                    0 <= i < keys@.len() && (#[trigger] keys@[i])@ == k,
            forall|i: int, j: int|
                0 <= i < j < keys@.len() ==> (#[trigger] keys@[i])@ != (#[trigger] keys@[j])@,
    {
        proof {
            use_type_invariant(self);
        }
        let mut keys: Vec<String> = Vec::new();
        let mut i: usize = 0;
        while i < self.entries.len()
            invariant
                i <= self.entries@.len(),
                keys@.len() == i,
                forall|j: int| 0 <= j < i ==> (#[trigger] keys@[j])@ == self.entries@[j].0@,
            decreases self.entries@.len() - i,
        {
            keys.push(self.entries[i].0.clone());
            i = i + 1;
        }
        proof {
            let entries = self.entries@;
            assert forall|k: Seq<char>|
                self@.dom().contains(k) <==> exists|i: int|
                    0 <= i < keys@.len() && (#[trigger] keys@[i])@ == k by {
                if self@.dom().contains(k) {
                    let a = lemma_held(entries, k);
                    assert(keys@[a]@ == k);
                }
                if exists|i: int| 0 <= i < keys@.len() && (#[trigger] keys@[i])@ == k {
                    let a = choose|i: int| 0 <= i < keys@.len() && (#[trigger] keys@[i])@ == k;
                    lemma_entry(entries, a);
                }
            }
            assert forall|i: int, j: int| 0 <= i < j < keys@.len() implies (#[trigger] keys@[i])@ != (
            #[trigger] keys@[j])@ by {
                assert(entries[i].0@ != entries[j].0@);
            }
        }
        keys
    }
}

impl<V: Clone> Clone for Table<V> {
    fn clone(&self) -> (table: Self)
        ensures
            table@.dom() == self@.dom(),
            forall|k: Seq<char>| #[trigger]
                table@.dom().contains(k) ==> cloned::<V>(self@[k], table@[k]),
    {
        proof {
            use_type_invariant(self);
        }
        let mut entries: Vec<(String, V)> = Vec::new();
        let mut i: usize = 0;
        while i < self.entries.len()
            invariant
                i <= self.entries@.len(),
                entries@.len() == i,
                forall|j: int|
                    0 <= j < i ==> (#[trigger] entries@[j]).0@ == self.entries@[j].0@ && cloned::<V>(
                        self.entries@[j].1,
                        entries@[j].1,
                    ),
            decreases self.entries@.len() - i,
        {
            let entry = &self.entries[i];
            entries.push((entry.0.clone(), entry.1.clone()));
            i = i + 1;
        }
        proof {
            let mine = self.entries@;
            let copy = entries@;
            assert forall|a: int, b: int| 0 <= a < b < copy.len() implies (#[trigger] copy[a]).0@ != (
            #[trigger] copy[b]).0@ by {
                assert(mine[a].0@ != mine[b].0@);
            }
            assert(distinct(copy));
            assert forall|k: Seq<char>| #[trigger]
                table_of(copy).dom().contains(k) <==> table_of(mine).dom().contains(k) by {
                if table_of(copy).dom().contains(k) {
                    let a = lemma_held(copy, k);
                    lemma_entry(mine, a);
                }
                if table_of(mine).dom().contains(k) {
                    let a = lemma_held(mine, k);
                    lemma_entry(copy, a);
                }
            }
            assert forall|k: Seq<char>| #[trigger]
                table_of(copy).dom().contains(k) implies cloned::<V>(
                table_of(mine)[k],
                table_of(copy)[k],
            ) by {
                let a = lemma_held(copy, k);
                lemma_entry(mine, a);
            }
            assert(table_of(copy).dom() =~= table_of(mine).dom());
        }
        Table { entries }
    }
}

}
