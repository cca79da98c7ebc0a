//! A small association table.

use vstd::prelude::*;

verus! {

/// A key of a `Table`: two keys with the same view are the same key.
pub trait Key: View + Sized {
    fn same(&self, other: &Self) -> (r: bool)
        ensures
            r == (self@ == other@),
    ;
}

impl Key for String {
    fn same(&self, other: &Self) -> (r: bool) {
        *self == *other
    }
}

impl Key for usize {
    fn same(&self, other: &Self) -> (r: bool) {
        *self == *other
    }
}

/// Maps each key to at most one value.
pub struct Table<K, V> {
    entries: Vec<(K, V)>,
}

/// The map that a list of entries stands for: of several entries for a key, the first counts.
pub closed spec fn entries_map<K: View, V: View>(entries: Seq<(K, V)>) -> Map<K::V, V::V>
    decreases entries.len(),
{
    if entries.len() == 0 {
        Map::empty()
    } else {
        entries_map(entries.skip(1)).insert(entries[0].0@, entries[0].1@)
    }
}

impl<K: View, V: View> View for Table<K, V> {
    type V = Map<K::V, V::V>;

    closed spec fn view(&self) -> Map<K::V, V::V> {
        entries_map(self.entries@)
    }
}

proof fn lemma_entries_step<K: View, V: View>(entries: Seq<(K, V)>, i: int)
    requires
        0 <= i < entries.len(),
    ensures
        entries_map(entries.skip(i)) == entries_map(entries.skip(i + 1)).insert(
            entries[i].0@,
            entries[i].1@,
        ),
{
    assert(entries.skip(i).skip(1) =~= entries.skip(i + 1));
}

proof fn lemma_entries_update<K: View, V: View>(entries: Seq<(K, V)>, i: int, entry: (K, V))
    requires
        0 <= i < entries.len(),
        entries[i].0@ == entry.0@,
        forall|j: int| 0 <= j < i ==> (#[trigger] entries[j]).0@ != entry.0@,
    ensures
        entries_map(entries.update(i, entry)) == entries_map(entries).insert(entry.0@, entry.1@),
    decreases entries.len(),
{
    let updated = entries.update(i, entry);
    if i == 0 {
        assert(updated.skip(1) =~= entries.skip(1));
        assert(entries_map(updated) =~= entries_map(entries).insert(entry.0@, entry.1@));
    } else {
        let rest = entries.skip(1);
        assert(updated.skip(1) =~= rest.update(i - 1, entry));
        assert forall|j: int| 0 <= j < i - 1 implies (#[trigger] rest[j]).0@ != entry.0@ by {
            assert(rest[j] == entries[j + 1]);
        }
        lemma_entries_update(rest, i - 1, entry);
        assert(entries[0].0@ != entry.0@);
        assert(entries_map(updated) =~= entries_map(entries).insert(entry.0@, entry.1@));
    }
}

proof fn lemma_entries_push<K: View, V: View>(entries: Seq<(K, V)>, entry: (K, V))
    requires
        forall|j: int| 0 <= j < entries.len() ==> (#[trigger] entries[j]).0@ != entry.0@,
    ensures
        entries_map(entries.push(entry)) == entries_map(entries).insert(entry.0@, entry.1@),
    decreases entries.len(),
{
    let pushed = entries.push(entry);
    if entries.len() == 0 {
        assert(entries_map(pushed.skip(1)) == Map::<K::V, V::V>::empty());
        assert(entries_map(pushed) =~= entries_map(entries).insert(entry.0@, entry.1@));
    } else {
        let rest = entries.skip(1);
        assert(pushed.skip(1) =~= rest.push(entry));
        assert forall|j: int| 0 <= j < rest.len() implies (#[trigger] rest[j]).0@ != entry.0@ by {
            assert(rest[j] == entries[j + 1]);
        }
        lemma_entries_push(rest, entry);
        assert(entries[0].0@ != entry.0@);
        assert(entries_map(pushed) =~= entries_map(entries).insert(entry.0@, entry.1@));
    }
}

proof fn lemma_entries_finite<K: View, V: View>(entries: Seq<(K, V)>)
    ensures
        entries_map(entries).dom().finite(),
    decreases entries.len(),
{
    if entries.len() > 0 {
        lemma_entries_finite(entries.skip(1));
        let rest = entries_map(entries.skip(1));
        assert(entries_map(entries).dom() =~= rest.dom().insert(entries[0].0@));
    }
}

/// A table holds finitely many keys.
pub proof fn lemma_table_finite<K: View, V: View>(table: Table<K, V>)
    ensures
        table@.dom().finite(),
{
    lemma_entries_finite(table.entries@);
}

impl<K: Key, V: View> Table<K, V> {
    pub fn new() -> (r: Table<K, V>)
        ensures
            r@ == Map::<<K as View>::V, V::V>::empty(),
    {
        Table { entries: Vec::new() }
    }

    /// The position of the first entry for `key`, or the number of entries if there is none.
    fn position(&self, key: &K) -> (r: usize)
        ensures
            r <= self.entries.len(),
            forall|j: int| 0 <= j < r ==> (#[trigger] self.entries@[j]).0@ != key@,
            r < self.entries.len() ==> self.entries@[r as int].0@ == key@ && self@.contains_key(
                key@,
            ) && self@[key@] == self.entries@[r as int].1@,
            r == self.entries.len() ==> !self@.contains_key(key@),
    {
        let mut i: usize = 0;
        assert(self.entries@.skip(0) =~= self.entries@);
        while i < self.entries.len()
            invariant
                i <= self.entries.len(),
                forall|j: int| 0 <= j < i ==> (#[trigger] self.entries@[j]).0@ != key@,
                self@.contains_key(key@) == entries_map(
                    self.entries@.skip(i as int),
                ).contains_key(key@),
                self@[key@] == entries_map(self.entries@.skip(i as int))[key@],
            decreases self.entries.len() - i,
        {
            proof {
                lemma_entries_step(self.entries@, i as int);
            }
            if self.entries[i].0.same(key) {
                return i;
            }
            i += 1;
        }
        i
    }

    /// The value for `key`, if there is one.
    pub fn get(&self, key: &K) -> (r: Option<&V>)
        ensures
            r is Some <==> self@.contains_key(key@),
            r matches Some(v) ==> v@ == self@[key@],
    {
        let i = self.position(key);
        if i < self.entries.len() {
            Some(&self.entries[i].1)
        } else {
            None
        }
    }

    /// Sets the value for `key`, and returns the value that it had before, if there was one.
    pub fn insert(&mut self, key: K, value: V) -> (r: Option<V>)
        ensures
            final(self)@ == old(self)@.insert(key@, value@),
            r is Some <==> old(self)@.contains_key(key@),
            r matches Some(v) ==> v@ == old(self)@[key@],
    {
        let i = self.position(&key);
        let ghost before = self.entries@;
        if i < self.entries.len() {
            proof {
                lemma_entries_update(before, i as int, (key, value));
            }
            let mut entry = (key, value);
            std::mem::swap(&mut self.entries[i], &mut entry);
            assert(self.entries@ =~= before.update(i as int, (key, value)));
            Some(entry.1)
        } else {
            proof {
                lemma_entries_push(before, (key, value));
            }
            self.entries.push((key, value));
            None
        }
    }
}

} // verus!
