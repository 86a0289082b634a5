//! A small map keyed by node id, kept as a list of entries in which no key
//! occurs twice.

use vstd::prelude::*;

verus! {

/// A finite map from node ids to values. It stands for a `Map` from the ids'
/// characters to the values.
#[derive(Debug)]
pub struct NodeMap<V> {
    entries: Vec<(String, V)>,
}

/// The keys of a list of entries, in order.
pub open spec fn entry_keys<V>(entries: Seq<(String, V)>) -> Seq<Seq<char>> {
    Seq::new(entries.len(), |i: int| entries[i].0@)
}

/// The map that a list of entries with distinct keys stands for.
pub open spec fn entry_map<V>(entries: Seq<(String, V)>) -> Map<Seq<char>, V> {
    Map::new(
        |k: Seq<char>| entry_keys(entries).contains(k),
        |k: Seq<char>| entries[entry_keys(entries).index_of(k)].1,
    )
}

/// In a list with distinct keys, the entry at `i` is what the map holds
/// under that entry's key.
pub proof fn lemma_entry_map_at<V>(entries: Seq<(String, V)>, i: int)
    requires
        entry_keys(entries).no_duplicates(),
        0 <= i < entries.len(),
    ensures
        entry_map(entries).contains_key(entries[i].0@),
        entry_map(entries)[entries[i].0@] == entries[i].1,
{
    let keys = entry_keys(entries);
    assert(keys[i] == entries[i].0@);
    let j = keys.index_of(entries[i].0@);
    assert(keys[j] == keys[i]);
}

impl<V> View for NodeMap<V> {
    type V = Map<Seq<char>, V>;

    closed spec fn view(&self) -> Map<Seq<char>, V> {
        entry_map(self.entries@)
    }
}

impl<V: Clone> Clone for NodeMap<V> {
    /// A map with the same keys in the same order, each bound to a clone of
    /// its value.
    fn clone(&self) -> (copy: Self)
        ensures
            copy.keys() == self.keys(),
            copy@.dom() == self@.dom(),
            forall|key: Seq<char>| #[trigger]
                self@.contains_key(key) ==> cloned(self@[key], copy@[key]),
    {
        proof {
            use_type_invariant(self);
        }
        let mut entries: Vec<(String, V)> = Vec::new();
        let mut i: usize = 0;
        while i < self.entries.len()
            invariant
                i <= self.entries@.len(),
                entries@.len() == i,
                forall|j: int| 0 <= j < i ==> entries@[j].0@ == self.entries@[j].0@,
                forall|j: int| 0 <= j < i ==> cloned(self.entries@[j].1, #[trigger] entries@[j].1),
            decreases self.entries@.len() - i,
        {
            let key = self.entries[i].0.clone();
            let value = self.entries[i].1.clone();
            entries.push((key, value));
            i += 1;
        }
        proof {
            assert(entry_keys(entries@) =~= entry_keys(self.entries@));
            assert(entry_map(entries@).dom() =~= entry_map(self.entries@).dom());
            assert forall|key: Seq<char>| #[trigger]
                entry_map(self.entries@).contains_key(key) implies cloned(
                entry_map(self.entries@)[key],
                entry_map(entries@)[key],
            ) by {
                let j = entry_keys(self.entries@).index_of(key);
                lemma_entry_map_at(self.entries@, j);
                lemma_entry_map_at(entries@, j);
            }
        }
        NodeMap { entries }
    }
}

impl<V> NodeMap<V> {
    #[verifier::type_invariant]
    spec fn distinct_keys(self) -> bool {
        entry_keys(self.entries@).no_duplicates()
    }

    /// The keys in the order in which the entries are stored.
    pub closed spec fn keys(self) -> Seq<Seq<char>> {
        entry_keys(self.entries@)
    }

    /// The empty map.
    pub fn new() -> (m: Self)
        ensures
            m@ == Map::<Seq<char>, V>::empty(),
            m.keys() == Seq::<Seq<char>>::empty(),
    {
        let m = NodeMap { entries: Vec::new() };
        assert(m@ =~= Map::<Seq<char>, V>::empty());
        assert(m.keys() =~= Seq::<Seq<char>>::empty());
        m
    }

    /// The number of entries. The stored keys are distinct and are exactly
    /// the map's domain.
    pub fn len(&self) -> (n: usize)
        ensures
            n == self.keys().len(),
            n == self@.dom().len(),
            self.keys().no_duplicates(),
            self.keys().to_set() == self@.dom(),
            self@.dom().finite(),
    {
        proof {
            use_type_invariant(self);
            let keys = self.keys();
            assert(keys.to_set() =~= self@.dom());
            keys.unique_seq_to_set();
            vstd::seq_lib::seq_to_set_is_finite(keys);
        }
        self.entries.len()
    }

    /// The key of the entry at position `i`.
    pub fn key_at(&self, i: usize) -> (key: &String)
        requires
            i < self.keys().len(),
        ensures
            key@ == self.keys()[i as int],
    {
        &self.entries[i].0
    }

    /// The value of the entry at position `i`: what the map holds under the
    /// key at that position.
    pub fn value_at(&self, i: usize) -> (value: &V)
        requires
            i < self.keys().len(),
        ensures
            self@.contains_key(self.keys()[i as int]),
            *value == self@[self.keys()[i as int]],
    {
        proof {
            use_type_invariant(self);
            lemma_entry_map_at(self.entries@, i as int);
        }
        &self.entries[i].1
    }

    /// Where the entry with this key stands, if there is one.
    pub fn position(&self, key: &String) -> (at: Option<usize>)
        ensures
            match at {
                Some(i) => i < self.keys().len() && self.keys()[i as int] == key@,
                None => !self@.contains_key(key@),
            },
    {
        let mut i: usize = 0;
        while i < self.entries.len()
            invariant
                i <= self.entries@.len(),
                forall|j: int| 0 <= j < i ==> self.entries@[j].0@ != key@,
            decreases self.entries@.len() - i,
        {
            if self.entries[i].0 == *key {
                return Some(i);
            }
            i += 1;
        }
        proof {
            let keys = entry_keys(self.entries@);
            assert(!keys.contains(key@)) by {
                if keys.contains(key@) {
                    let j = keys.index_of(key@);
                    assert(self.entries@[j].0@ == key@);
                }
            }
        }
        None
    }

    /// Whether the map has an entry under `key`.
    pub fn contains_key(&self, key: &String) -> (found: bool)
        ensures
            found == self@.contains_key(key@),
    {
        proof {
            use_type_invariant(self);
        }
        match self.position(key) {
            Some(i) => {
                proof {
                    lemma_entry_map_at(self.entries@, i as int);
                }
                true
            },
            None => false,
        }
    }

    /// The value under `key`, if there is one.
    pub fn get(&self, key: &String) -> (value: Option<&V>)
        ensures
            match value {
                Some(v) => self@.contains_key(key@) && *v == self@[key@],
                None => !self@.contains_key(key@),
            },
    {
        proof {
            use_type_invariant(self);
        }
        match self.position(key) {
            Some(i) => {
                proof {
                    lemma_entry_map_at(self.entries@, i as int);
                }
                Some(&self.entries[i].1)
            },
            None => None,
        }
    }

    /// Binds `key` to `value`, in place of what it was bound to before.
    pub fn insert(&mut self, key: String, value: V)
        ensures
            final(self)@ == old(self)@.insert(key@, value),
    {
        proof {
            use_type_invariant(&*self);
        }
        let at = self.position(&key);
        let mut entries: Vec<(String, V)> = Vec::new();
        std::mem::swap(&mut entries, &mut self.entries);
        let ghost before = entries@;
        match at {
            Some(i) => {
                let _ = entries.swap_remove(i);
                let ghost rest = entries@;
                entries.push((key, value));
                proof {
                    assert(entries@.drop_last() =~= rest);
                    lemma_insert_replaces(before, i as int, rest, entries@, key@, value);
                }
            },
            None => {
                entries.push((key, value));
                proof {
                    assert(entries@.drop_last() =~= before);
                    lemma_insert_appends(before, entries@, key@, value);
                }
            },
        }
        self.entries = entries;
    }

    /// Takes the entry under `key` out of the map and hands its value back.
    pub fn remove(&mut self, key: &String) -> (value: Option<V>)
        ensures
            final(self)@ == old(self)@.remove(key@),
            match value {
                Some(v) => old(self)@.contains_key(key@) && v == old(self)@[key@],
                None => !old(self)@.contains_key(key@) && *final(self) == *old(self),
            },
    {
        proof {
            use_type_invariant(&*self);
        }
        let at = self.position(key);
        match at {
            Some(i) => {
                let mut entries: Vec<(String, V)> = Vec::new();
                std::mem::swap(&mut entries, &mut self.entries);
                let ghost before = entries@;
                let entry = entries.swap_remove(i);
                proof {
                    lemma_entry_map_at(before, i as int);
                    lemma_swap_remove(before, i as int, entries@);
                }
                self.entries = entries;
                Some(entry.1)
            },
            None => {
                assert(self@ =~= old(self)@.remove(key@));
                None
            },
        }
    }
}

/// Taking the entry at `i` out by moving the last entry into its place keeps
/// the keys distinct and removes exactly that key from the map.
proof fn lemma_swap_remove<V>(before: Seq<(String, V)>, i: int, after: Seq<(String, V)>)
    requires
        entry_keys(before).no_duplicates(),
        0 <= i < before.len(),
        after == before.update(i, before.last()).drop_last(),
    ensures
        entry_keys(after).no_duplicates(),
        entry_map(after) == entry_map(before).remove(before[i].0@),
{
    let kb = entry_keys(before);
    let ka = entry_keys(after);
    let last = before.len() - 1;
    assert forall|a: int| 0 <= a < after.len() implies #[trigger] ka[a] == kb[if a == i {
        last
    } else {
        a
    }] by {}
    assert forall|a: int, b: int| 0 <= a < ka.len() && 0 <= b < ka.len() && a != b implies ka[a]
        != ka[b] by {
        let a2 = if a == i { last } else { a };
        let b2 = if b == i { last } else { b };
        assert(kb[a2] != kb[b2]);
    }
    let removed = before[i].0@;
    assert(kb[i] == removed);
    assert forall|k: Seq<char>| #[trigger] entry_map(after).contains_key(k) <==> (entry_map(
        before,
    ).contains_key(k) && k != removed) by {
        if ka.contains(k) {
            let a = ka.index_of(k);
            let a2 = if a == i { last } else { a };
            assert(kb[a2] == k);
        }
        if kb.contains(k) && k != removed {
            let b = kb.index_of(k);
            let a = if b == last { i } else { b };
            assert(ka[a] == k);
        }
    }
    assert forall|k: Seq<char>| #[trigger] entry_map(after).contains_key(k) implies entry_map(
        after,
    )[k] == entry_map(before)[k] by {
        let a = ka.index_of(k);
        let a2 = if a == i { last } else { a };
        assert(kb[a2] == k);
        lemma_entry_map_at(after, a);
        lemma_entry_map_at(before, a2);
    }
    assert(entry_map(after) =~= entry_map(before).remove(removed));
}

/// Appending an entry under a key that the list does not hold keeps the keys
/// distinct and adds exactly that binding to the map.
proof fn lemma_insert_appends<V>(
    before: Seq<(String, V)>,
    after: Seq<(String, V)>,
    key: Seq<char>,
    value: V,
)
    requires
        entry_keys(before).no_duplicates(),
        !entry_map(before).contains_key(key),
        after.len() == before.len() + 1,
        after.drop_last() == before,
        after.last().0@ == key,
        after.last().1 == value,
    ensures
        entry_keys(after).no_duplicates(),
        entry_map(after) == entry_map(before).insert(key, value),
{
    let kb = entry_keys(before);
    let ka = entry_keys(after);
    let last = after.len() - 1;
    assert forall|a: int| 0 <= a < before.len() implies #[trigger] ka[a] == kb[a] by {
        assert(after.drop_last()[a] == after[a]);
    }
    assert forall|a: int| 0 <= a < before.len() implies #[trigger] after[a] == before[a] by {
        assert(after.drop_last()[a] == after[a]);
    }
    assert(ka[last] == key);
    assert forall|a: int, b: int| 0 <= a < ka.len() && 0 <= b < ka.len() && a != b implies ka[a]
        != ka[b] by {
        if a == last {
            assert(kb[b] == ka[b]);
            assert(kb.contains(ka[b]));
        } else if b == last {
            assert(kb[a] == ka[a]);
            assert(kb.contains(ka[a]));
        } else {
            assert(kb[a] != kb[b]);
        }
    }
    assert forall|k: Seq<char>| #[trigger] entry_map(after).contains_key(k) <==> (entry_map(
        before,
    ).contains_key(k) || k == key) by {
        if ka.contains(k) {
            let a = ka.index_of(k);
            if a != last {
                assert(kb[a] == k);
            }
        }
        if kb.contains(k) {
            let b = kb.index_of(k);
            assert(ka[b] == k);
        }
    }
    assert forall|k: Seq<char>| #[trigger] entry_map(after).contains_key(k) implies entry_map(
        after,
    )[k] == entry_map(before).insert(key, value)[k] by {
        let a = ka.index_of(k);
        lemma_entry_map_at(after, a);
        if a != last {
            assert(kb[a] == k);
            lemma_entry_map_at(before, a);
        }
    }
    assert(entry_map(after) =~= entry_map(before).insert(key, value));
}

/// Taking the entry under `key` out and appending a new one under the same
/// key keeps the keys distinct and rebinds exactly that key.
proof fn lemma_insert_replaces<V>(
    before: Seq<(String, V)>,
    i: int,
    rest: Seq<(String, V)>,
    after: Seq<(String, V)>,
    key: Seq<char>,
    value: V,
)
    requires
        entry_keys(before).no_duplicates(),
        0 <= i < before.len(),
        before[i].0@ == key,
        rest == before.update(i, before.last()).drop_last(),
        after.len() == rest.len() + 1,
        after.drop_last() == rest,
        after.last().0@ == key,
        after.last().1 == value,
    ensures
        entry_keys(after).no_duplicates(),
        entry_map(after) == entry_map(before).insert(key, value),
{
    lemma_swap_remove(before, i, rest);
    lemma_insert_appends(rest, after, key, value);
    assert(entry_map(before).remove(key).insert(key, value) =~= entry_map(before).insert(
        key,
        value,
    ));
}

} // verus!
