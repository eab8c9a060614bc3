//! A small dictionary from names to values, in insertion order.

use vstd::prelude::*;

verus! {

/// No two entries have the same name.
pub open spec fn names_distinct<V>(entries: Seq<(String, V)>) -> bool {
    forall|i: int, j: int|
        0 <= i < j < entries.len() ==> (#[trigger] entries[i]).0@ != (#[trigger] entries[j]).0@
}

/// The entries as a map from the names to the views of the values; of two
/// entries with one name the later counts.
pub open spec fn to_map<V: View>(entries: Seq<(String, V)>) -> Map<Seq<char>, V::V>
    decreases entries.len(),
{
    if entries.len() == 0 {
        Map::empty()
    } else {
        to_map(entries.drop_last()).insert(entries.last().0@, entries.last().1@)
    }
}

/// Each entry is found under its name.
pub proof fn lemma_to_map_entry<V: View>(entries: Seq<(String, V)>, i: int)
    requires
        names_distinct(entries),
        0 <= i < entries.len(),
    ensures
        to_map(entries).contains_key(entries[i].0@),
        to_map(entries)[entries[i].0@] == entries[i].1@,
    decreases entries.len(),
{
    if i < entries.len() - 1 {
        lemma_to_map_entry(entries.drop_last(), i);
        assert(entries.drop_last()[i] == entries[i]);
        assert(entries.last() == entries[entries.len() - 1]);
    }
}

/// A name that no entry has is no key.
pub proof fn lemma_to_map_absent<V: View>(entries: Seq<(String, V)>, name: Seq<char>)
    requires
        forall|i: int| 0 <= i < entries.len() ==> (#[trigger] entries[i]).0@ != name,
    ensures
        !to_map(entries).contains_key(name),
    decreases entries.len(),
{
    if entries.len() > 0 {
        assert forall|i: int| 0 <= i < entries.drop_last().len() implies (
        #[trigger] entries.drop_last()[i]).0@ != name by {
            assert(entries.drop_last()[i] == entries[i]);
        }
        lemma_to_map_absent(entries.drop_last(), name);
        assert(entries.last() == entries[entries.len() - 1]);
    }
}

/// Replacing the value of an entry replaces the value under its name.
pub proof fn lemma_to_map_update<V: View>(entries: Seq<(String, V)>, i: int, name: String, value: V)
    requires
        names_distinct(entries),
        0 <= i < entries.len(),
        entries[i].0@ == name@,
    ensures
        names_distinct(entries.update(i, (name, value))),
        to_map(entries.update(i, (name, value))) == to_map(entries).insert(name@, value@),
    decreases entries.len(),
{
    let updated = entries.update(i, (name, value));
    assert(names_distinct(updated)) by {
        assert forall|a: int, b: int| 0 <= a < b < updated.len() implies (#[trigger] updated[a]).0@
            != (#[trigger] updated[b]).0@ by {
            assert(entries[a].0@ != entries[b].0@);
        }
    }
    if i == entries.len() - 1 {
        assert(updated.drop_last() =~= entries.drop_last());
        assert(to_map(updated) =~= to_map(entries).insert(name@, value@));
    } else {
        assert(updated.drop_last() =~= entries.drop_last().update(i, (name, value)));
        assert(names_distinct(entries.drop_last())) by {
            assert forall|a: int, b: int| 0 <= a < b < entries.drop_last().len() implies (
            #[trigger] entries.drop_last()[a]).0@ != (#[trigger] entries.drop_last()[b]).0@ by {
                assert(entries[a].0@ != entries[b].0@);
            }
        }
        lemma_to_map_update(entries.drop_last(), i, name, value);
        assert(updated.last() == entries.last());
        assert(entries.last() == entries[entries.len() - 1]);
        assert(entries[i].0@ != entries[entries.len() - 1].0@);
        assert(to_map(updated) =~= to_map(entries).insert(name@, value@));
    }
}

/// A dictionary from names to values.
#[derive(Debug)]
pub struct Dict<V: View> {
    entries: Vec<(String, V)>,
}

impl<V: View> View for Dict<V> {
    type V = Map<Seq<char>, V::V>;

    closed spec fn view(&self) -> Map<Seq<char>, V::V> {
        to_map(self.entries@)
    }
}

impl<V: View> Dict<V> {
    /// No two entries have the same name.
    pub closed spec fn wf(&self) -> bool {
        names_distinct(self.entries@)
    }

    /// The dictionary without names.
    pub fn new() -> (d: Self)
        ensures
            d.wf(),
            d@ == Map::<Seq<char>, V::V>::empty(),
    {
        Dict { entries: Vec::new() }
    }

    /// The names, in the order of their first insertion.
    pub closed spec fn names(&self) -> Seq<Seq<char>> {
        self.entries@.map_values(|e: (String, V)| e.0@)
    }

    /// The names are the keys, each once.
    pub proof fn lemma_names(&self)
        requires
            self.wf(),
        ensures
            self.names().no_duplicates(),
            forall|k: Seq<char>| self@.contains_key(k) <==> self.names().contains(k),
    {
        let names = self.names();
        assert forall|i: int, j: int| 0 <= i < names.len() && 0 <= j < names.len() && i
            != j implies names[i] != names[j] by {
            if i < j {
                assert(self.entries@[i].0@ != self.entries@[j].0@);
            } else {
                assert(self.entries@[j].0@ != self.entries@[i].0@);
            }
        }
        assert forall|k: Seq<char>| self@.contains_key(k) <==> names.contains(k) by {
            if names.contains(k) {
                let i = choose|i: int| 0 <= i < names.len() && names[i] == k;
                lemma_to_map_entry(self.entries@, i);
            } else {
                assert forall|i: int| 0 <= i < self.entries@.len() implies (
                #[trigger] self.entries@[i]).0@ != k by {
                    assert(names[i] == self.entries@[i].0@);
                }
                lemma_to_map_absent(self.entries@, k);
            }
        }
    }

    /// The number of names.
    pub fn len(&self) -> (n: usize)
        ensures
            n == self.names().len(),
    {
        self.entries.len()
    }

    /// The name at `index`.
    pub fn name_at(&self, index: usize) -> (name: &String)
        requires
            index < self.names().len(),
        ensures
            name@ == self.names()[index as int],
    {
        &self.entries[index].0
    }

    /// The value under the name at `index`.
    pub fn value_at(&self, index: usize) -> (value: &V)
        requires
            self.wf(),
            index < self.names().len(),
        ensures
            self@.contains_key(self.names()[index as int]),
            value@ == self@[self.names()[index as int]],
    {
        proof {
            lemma_to_map_entry(self.entries@, index as int);
        }
        &self.entries[index].1
    }

    /// The index of the entry with this name.
    fn position(&self, name: &String) -> (r: Option<usize>)
        ensures
            match r {
                Some(i) => i < self.entries@.len() && self.entries@[i as int].0@ == name@,
                None => forall|i: int|
                    0 <= i < self.entries@.len() ==> (#[trigger] self.entries@[i]).0@ != name@,
            },
    {
        let mut i: usize = 0;
        while i < self.entries.len()
            invariant
                i <= self.entries@.len(),
                forall|j: int| 0 <= j < i ==> (#[trigger] self.entries@[j]).0@ != name@,
            decreases self.entries@.len() - i,
        {
            if self.entries[i].0 == *name {
                return Some(i);
            }
            i = i + 1;
        }
        None
    }

    /// The value under `name`.
    pub fn get(&self, name: &String) -> (r: Option<&V>)
        requires
            self.wf(),
        ensures
            match r {
                Some(v) => self@.contains_key(name@) && self@[name@] == v@,
                None => !self@.contains_key(name@),
            },
    {
        match self.position(name) {
            Some(i) => {
                proof {
                    lemma_to_map_entry(self.entries@, i as int);
                }
                Some(&self.entries[i].1)
            },
            None => {
                proof {
                    lemma_to_map_absent(self.entries@, name@);
                }
                None
            },
        }
    }

    /// Puts `value` under `name`, in place of what was there.
    pub fn insert(&mut self, name: String, value: V)
        requires
            old(self).wf(),
        ensures
            final(self).wf(),
            final(self)@ == old(self)@.insert(name@, value@),
    {
        match self.position(&name) {
            Some(i) => {
                proof {
                    lemma_to_map_update(self.entries@, i as int, name, value);
                }
                self.entries.set(i, (name, value));
            },
            None => {
                let ghost before = self.entries@;
                self.entries.push((name, value));
                proof {
                    assert(self.entries@.drop_last() =~= before);
                    assert forall|a: int, b: int| 0 <= a < b < self.entries@.len() implies (
                    #[trigger] self.entries@[a]).0@ != (#[trigger] self.entries@[b]).0@ by {
                        if b < before.len() {
                            assert(before[a].0@ != before[b].0@);
                        } else {
                            assert(before[a].0@ != name@);
                        }
                    }
                }
            },
        }
    }
}

} // verus!
