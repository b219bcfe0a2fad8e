//! A table from names to values, filled while the source is read.

use vstd::prelude::*;

verus! {

/// A finite map from names to values.
///
/// The view is the map itself. Inserting under a name that is mapped
/// already replaces its value.
#[derive(Debug, Clone)]
pub struct SymbolTable<V> {
    entries: Vec<(String, V)>,
}

/// The map that a sequence of entries stands for: each entry in turn maps
/// its name to its value, so that the latest entry under a name counts.
spec fn map_of<V>(entries: Seq<(String, V)>) -> Map<Seq<char>, V>
    decreases entries.len(),
{
    if entries.len() == 0 {
        Map::empty()
    } else {
        map_of(entries.drop_last()).insert(entries.last().0@, entries.last().1)
    }
}

/// Entries under other names, made after the first `k`, change nothing
/// about `name`.
proof fn lemma_later_entries<V>(entries: Seq<(String, V)>, k: int, name: Seq<char>)
    requires
        0 <= k <= entries.len(),
        forall|j: int| k <= j < entries.len() ==> (#[trigger] entries[j]).0@ != name,
    ensures
        map_of(entries).contains_key(name) == map_of(entries.take(k)).contains_key(name),
        map_of(entries).contains_key(name) ==> map_of(entries)[name] == map_of(
            entries.take(k),
        )[name],
    decreases entries.len() - k,
{
    if k == entries.len() {
        assert(entries.take(k) =~= entries);
    } else {
        let shorter = entries.drop_last();
        assert(shorter.take(k) =~= entries.take(k));
        assert(entries.last() == entries[entries.len() - 1]);
        assert forall|j: int| k <= j < shorter.len() implies (#[trigger] shorter[j]).0@
            != name by {
            assert(shorter[j] == entries[j]);
        }
        lemma_later_entries(shorter, k, name);
    }
}

impl<V> View for SymbolTable<V> {
    type V = Map<Seq<char>, V>;

    closed spec fn view(&self) -> Map<Seq<char>, V> {
        map_of(self.entries@)
    }
}

/// Replacing the latest entry under a name amounts to one insertion under
/// that name.
proof fn lemma_replace_latest<V>(entries: Seq<(String, V)>, i: int, entry: (String, V))
    requires
        0 <= i < entries.len(),
        entries[i].0@ == entry.0@,
        forall|j: int| i < j < entries.len() ==> (#[trigger] entries[j]).0@ != entry.0@,
    ensures
        map_of(entries.update(i, entry)) == map_of(entries).insert(entry.0@, entry.1),
    decreases entries.len() - i,
{
    let updated = entries.update(i, entry);
    if i == entries.len() - 1 {
        assert(updated.drop_last() =~= entries.drop_last());
        assert(map_of(updated) =~= map_of(entries).insert(entry.0@, entry.1));
    } else {
        let last = entries.last();
        assert(last == entries[entries.len() - 1]);
        assert(updated.drop_last() =~= entries.drop_last().update(i, entry));
        assert forall|j: int| i < j < entries.drop_last().len() implies (
        #[trigger] entries.drop_last()[j]).0@ != entry.0@ by {
            assert(entries.drop_last()[j] == entries[j]);
        }
        lemma_replace_latest(entries.drop_last(), i, entry);
        assert(map_of(updated) =~= map_of(entries).insert(entry.0@, entry.1));
    }
}

impl<V: Copy> SymbolTable<V> {
    /// A table without entries.
    pub fn new() -> (t: SymbolTable<V>)
        ensures
            t@ == Map::<Seq<char>, V>::empty(),
    {
        SymbolTable { entries: Vec::new() }
    }

    /// Where the latest entry under `name` stands, if there is one.
    fn latest(&self, name: &String) -> (r: Option<usize>)
        ensures
            match r {
                Some(i) => {
                    &&& i < self.entries@.len()
                    &&& self.entries@[i as int].0@ == name@
                    &&& forall|j: int|
                        i < j < self.entries@.len() ==> (#[trigger] self.entries@[j]).0@ != name@
                },
                None => forall|j: int|
                    0 <= j < self.entries@.len() ==> (#[trigger] self.entries@[j]).0@ != name@,
            },
    {
        let mut i: usize = self.entries.len();
        while i > 0
            invariant
                i <= self.entries@.len(),
                forall|j: int|
                    i <= j < self.entries@.len() ==> (#[trigger] self.entries@[j]).0@ != name@,
            decreases i,
        {
            i -= 1;
            if self.entries[i].0 == *name {
                return Some(i);
            }
        }
        None
    }

    /// Maps `name` to `value`, whatever it was mapped to before.
    pub fn insert(&mut self, name: String, value: V)
        ensures
            final(self)@ == old(self)@.insert(name@, value),
    {
        let ghost before = self.entries@;
        match self.latest(&name) {
            Some(i) => {
                proof {
                    lemma_replace_latest(before, i as int, (name, value));
                }
                self.entries.set(i, (name, value));
            },
            None => {
                self.entries.push((name, value));
                assert(self.entries@.drop_last() =~= before);
            },
        }
    }

    /// The value that `name` is mapped to, if it is mapped.
    pub fn get(&self, name: &str) -> (r: Option<V>)
        ensures
            r == if self@.contains_key(name@) {
                Some(self@[name@])
            } else {
                None
            },
    {
        let key: String = name.to_owned();
        match self.latest(&key) {
            Some(i) => {
                proof {
                    lemma_later_entries(self.entries@, i + 1, name@);
                    assert(self.entries@.take(i + 1).drop_last() =~= self.entries@.take(i as int));
                }
                Some(self.entries[i].1)
            },
            None => {
                proof {
                    lemma_later_entries(self.entries@, 0, name@);
                }
                None
            },
        }
    }
}

} // verus!
