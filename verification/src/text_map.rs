//! A map from texts to values.

use crate::text::text_eq;
use vstd::prelude::*;

verus! {

/// A map keyed by text. Inserting under a name that is there replaces the
/// value.
#[derive(Debug, PartialEq, Eq)]
pub struct TextMap<V> {
    entries: Vec<(String, V)>,
}

spec fn entries_map<V: View>(entries: Seq<(String, V)>) -> Map<Seq<char>, V::V>
    decreases entries.len(),
{
    if entries.len() == 0 {
        Map::empty()
    } else {
        entries_map(entries.drop_last()).insert(entries.last().0@, entries.last().1@)
    }
}

impl<V: View> View for TextMap<V> {
    type V = Map<Seq<char>, V::V>;

    closed spec fn view(&self) -> Map<Seq<char>, V::V> {
        entries_map(self.entries@)
    }
}

/// Replacing the last entry of a name inserts under that name.
proof fn lemma_replace<V: View>(entries: Seq<(String, V)>, i: int, entry: (String, V))
    requires
        0 <= i < entries.len(),
        entries[i].0@ == entry.0@,
        forall|j: int| i < j < entries.len() ==> (#[trigger] entries[j]).0@ != entry.0@,
    ensures
        entries_map(entries.update(i, entry)) == entries_map(entries).insert(entry.0@, entry.1@),
    decreases entries.len(),
{
    let last = entries.len() - 1;
    let updated = entries.update(i, entry);
    if i == last {
        assert(updated.drop_last() =~= entries.drop_last());
        assert(entries_map(updated) =~= entries_map(entries).insert(entry.0@, entry.1@));
    } else {
        assert(updated.drop_last() =~= entries.drop_last().update(i, entry));
        lemma_replace(entries.drop_last(), i, entry);
        assert(entries[last].0@ != entry.0@);
        assert(entries_map(updated) =~= entries_map(entries).insert(entry.0@, entry.1@));
    }
}

impl<V> TextMap<V> {
    #[verifier::type_invariant]
    spec fn names_distinct(self) -> bool {
        forall|i: int, j: int|
            #![trigger self.entries@[i], self.entries@[j]]
            0 <= i < j < self.entries@.len() ==> self.entries@[i].0@ != self.entries@[j].0@
    }
}

impl<V: View> TextMap<V> {
    pub fn new() -> (r: Self)
        ensures
            r@ == Map::<Seq<char>, V::V>::empty(),
    {
        TextMap { entries: Vec::new() }
    }

    /// The position of the last entry under `name`.
    fn position(&self, name: &str) -> (r: Option<usize>)
        ensures
            match r {
                Some(i) => {
                    &&& i < self.entries@.len()
                    &&& self.entries@[i as int].0@ == name@
                    &&& self@.dom().contains(name@)
                    &&& self@[name@] == self.entries@[i as int].1@
                    &&& forall|j: int|
                        i < j < self.entries@.len() ==> (#[trigger] self.entries@[j]).0@ != name@
                },
                None => !self@.dom().contains(name@),
            },
    {
        let mut i: usize = self.entries.len();
        assert(self.entries@.take(i as int) =~= self.entries@);
        while i > 0
            invariant
                i <= self.entries@.len(),
                forall|j: int|
                    i <= j < self.entries@.len() ==> (#[trigger] self.entries@[j]).0@ != name@,
                self@.dom().contains(name@) == entries_map(
                    self.entries@.take(i as int),
                ).dom().contains(name@),
                self@[name@] == entries_map(self.entries@.take(i as int))[name@],
            decreases i,
        {
            i = i - 1;
            assert(self.entries@.take(i + 1).drop_last() =~= self.entries@.take(i as int));
            if text_eq(self.entries[i].0.as_str(), name) {
                return Some(i);
            }
        }
        assert(self.entries@.take(0) =~= Seq::<(String, V)>::empty());
        None
    }

    /// Sets the value under `name`.
    pub fn insert(&mut self, name: String, value: V)
        ensures
            final(self)@ == old(self)@.insert(name@, value@),
    {
        proof {
            use_type_invariant(&*self);
        }
        let found = self.position(name.as_str());
        let ghost before = self.entries@;
        let mut entries: Vec<(String, V)> = Vec::new();
        std::mem::swap(&mut entries, &mut self.entries);
        match found {
            Some(i) => {
                proof {
                    lemma_replace(before, i as int, (name, value));
                }
                entries.set(i, (name, value));
            },
            None => {
                proof {
                    assert forall|i: int| 0 <= i < before.len() implies (#[trigger] before[i]).0@
                        != name@ by {
                        lemma_names(before, name@);
                    }
                    assert(before.push((name, value)).drop_last() =~= before);
                }
                entries.push((name, value));
            },
        }
        self.entries = entries;
    }

    /// The value under `name`.
    pub fn get(&self, name: &str) -> (r: Option<&V>)
        ensures
            match r {
                Some(value) => self@.dom().contains(name@) && self@[name@] == value@,
                None => !self@.dom().contains(name@),
            },
    {
        match self.position(name) {
            Some(i) => Some(&self.entries[i].1),
            None => None,
        }
    }

    /// The names and values; no name occurs twice.
    pub fn into_entries(self) -> (r: Vec<(String, V)>)
        ensures
            forall|name: Seq<char>| #[trigger]
                self@.dom().contains(name) <==> exists|i: int|
                    0 <= i < r@.len() && (#[trigger] r@[i]).0@ == name,
            forall|i: int|
                0 <= i < r@.len() ==> self@[(#[trigger] r@[i]).0@] == r@[i].1@,
            forall|i: int, j: int|
                #![trigger r@[i], r@[j]]
                0 <= i < j < r@.len() ==> r@[i].0@ != r@[j].0@,
    {
        proof {
            use_type_invariant(&self);
            let entries = self.entries@;
            assert forall|name: Seq<char>| #[trigger]
                self@.dom().contains(name) <==> exists|i: int|
                    0 <= i < entries.len() && (#[trigger] entries[i]).0@ == name by {
                lemma_names(entries, name);
            }
            assert forall|i: int| 0 <= i < entries.len() implies self@[(
            #[trigger] entries[i]).0@] == entries[i].1@ by {
                lemma_value_at(entries, i);
            }
        }
        self.entries
    }
}

proof fn lemma_value_at<V: View>(entries: Seq<(String, V)>, i: int)
    requires
        0 <= i < entries.len(),
        forall|j: int| i < j < entries.len() ==> (#[trigger] entries[j]).0@ != entries[i].0@,
    ensures
        entries_map(entries)[entries[i].0@] == entries[i].1@,
    decreases entries.len(),
{
    let last = entries.len() - 1;
    if i < last {
        assert(entries[last].0@ != entries[i].0@);
        assert forall|j: int| i < j < last implies (#[trigger] entries.drop_last()[j]).0@
            != entries.drop_last()[i].0@ by {
            assert(entries[j].0@ != entries[i].0@);
        }
        lemma_value_at(entries.drop_last(), i);
    }
}

proof fn lemma_names<V: View>(entries: Seq<(String, V)>, name: Seq<char>)
    ensures
        entries_map(entries).dom().contains(name) <==> exists|i: int|
            0 <= i < entries.len() && (#[trigger] entries[i]).0@ == name,
    decreases entries.len(),
{
    if entries.len() > 0 {
        lemma_names(entries.drop_last(), name);
        let last = entries.len() - 1;
        if entries_map(entries.drop_last()).dom().contains(name) {
            let i = choose|i: int|
                0 <= i < entries.drop_last().len() && (#[trigger] entries.drop_last()[i]).0@
                    == name;
            assert(entries[i].0@ == name);
        }
        if exists|i: int| 0 <= i < entries.len() && (#[trigger] entries[i]).0@ == name {
            let i = choose|i: int| 0 <= i < entries.len() && (#[trigger] entries[i]).0@ == name;
            if i < last {
                assert(entries.drop_last()[i].0@ == name);
            }
        }
    }
}

} // verus!
