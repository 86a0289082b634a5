//! The grow-only counter: every node owns one slot, the counter's value is
//! the sum of all slots, and two counters merge by taking each slot's larger
//! value.

use vstd::prelude::*;
use vstd::set::fold::{lemma_fold_empty, lemma_fold_insert};
use crate::node_map::NodeMap;

verus! {

/// A grow-only counter: one count per node id.
#[derive(Debug)]
pub struct Counter {
    counter: NodeMap<usize>,
}

/// What `key`'s slot counts: nothing where there is no such slot.
pub open spec fn slot(slots: Map<Seq<char>, usize>, key: Seq<char>) -> nat {
    if slots.contains_key(key) {
        slots[key] as nat
    } else {
        0
    }
}

/// Adds one slot's count to a running sum.
pub open spec fn add_slot(slots: Map<Seq<char>, usize>) -> spec_fn(nat, Seq<char>) -> nat {
    |sum: nat, key: Seq<char>| (sum + slots[key]) as nat
}

/// The sum of the counts of the slots under `keys`.
pub open spec fn total_over(slots: Map<Seq<char>, usize>, keys: Set<Seq<char>>) -> nat {
    keys.fold(0nat, add_slot(slots))
}

/// The counter's value: the sum of all slots.
pub open spec fn total(slots: Map<Seq<char>, usize>) -> nat {
    total_over(slots, slots.dom())
}

/// The merge of two counters: every slot of either, with the larger count
/// where both have it.
pub open spec fn merged(a: Map<Seq<char>, usize>, b: Map<Seq<char>, usize>) -> Map<
    Seq<char>,
    usize,
> {
    Map::new(
        |key: Seq<char>| a.contains_key(key) || b.contains_key(key),
        |key: Seq<char>|
            if !b.contains_key(key) {
                a[key]
            } else if !a.contains_key(key) {
                b[key]
            } else if a[key] >= b[key] {
                a[key]
            } else {
                b[key]
            },
    )
}

/// In a merge, every slot counts the larger of the two counts it is merged
/// from, a missing slot counting as nothing.
pub proof fn lemma_merge_takes_max(
    a: Map<Seq<char>, usize>,
    b: Map<Seq<char>, usize>,
    key: Seq<char>,
)
    ensures
        slot(merged(a, b), key) == if slot(a, key) >= slot(b, key) {
            slot(a, key)
        } else {
            slot(b, key)
        },
        slot(merged(a, b), key) >= slot(a, key),
        slot(merged(a, b), key) >= slot(b, key),
{
}

/// Merging is commutative.
pub proof fn lemma_merge_commutative(a: Map<Seq<char>, usize>, b: Map<Seq<char>, usize>)
    ensures
        merged(a, b) == merged(b, a),
{
    assert(merged(a, b) =~= merged(b, a));
}

/// Merging is idempotent.
pub proof fn lemma_merge_idempotent(a: Map<Seq<char>, usize>)
    ensures
        merged(a, a) == a,
{
    assert(merged(a, a) =~= a);
}

/// Merging is associative.
pub proof fn lemma_merge_associative(
    a: Map<Seq<char>, usize>,
    b: Map<Seq<char>, usize>,
    c: Map<Seq<char>, usize>,
)
    ensures
        merged(merged(a, b), c) == merged(a, merged(b, c)),
{
    assert(merged(merged(a, b), c) =~= merged(a, merged(b, c)));
}

/// The sum over the keys grows by a slot's count when its key joins them.
proof fn lemma_total_one_more(slots: Map<Seq<char>, usize>, keys: Seq<Seq<char>>, i: int)
    requires
        keys.no_duplicates(),
        0 <= i < keys.len(),
    ensures
        total_over(slots, keys.take(i + 1).to_set()) == total_over(slots, keys.take(i).to_set())
            + slots[keys[i]],
{
    let shorter = keys.take(i);
    let longer = keys.take(i + 1);
    assert(!shorter.to_set().contains(keys[i])) by {
        if shorter.contains(keys[i]) {
            let j = shorter.index_of(keys[i]);
            assert(keys[j] == keys[i]);
        }
    }
    lemma_keys_one_more(keys, i);
    vstd::seq_lib::seq_to_set_is_finite(shorter);
    let f = add_slot(slots);
    assert(vstd::set::fold::is_fun_commutative(f));
    lemma_fold_insert(shorter.to_set(), 0nat, f, keys[i]);
}

impl View for Counter {
    type V = Map<Seq<char>, usize>;

    closed spec fn view(&self) -> Map<Seq<char>, usize> {
        self.counter@
    }
}

impl Clone for Counter {
    /// A counter with the same slots.
    fn clone(&self) -> (copy: Self)
        ensures
            copy@ == self@,
    {
        let count = self.counter.len();
        let mut slots: NodeMap<usize> = NodeMap::new();
        let mut i: usize = 0;
        while i < count
            invariant
                i <= count,
                count == self.counter.keys().len(),
                self.counter.keys().no_duplicates(),
                self.counter.keys().to_set() == self.counter@.dom(),
                slots@ == self.counter@.restrict(self.counter.keys().take(i as int).to_set()),
            decreases count - i,
        {
            let key = self.counter.key_at(i).clone();
            let value = *self.counter.value_at(i);
            slots.insert(key, value);
            proof {
                let keys = self.counter.keys();
                lemma_keys_one_more(keys, i as int);
                assert(slots@ =~= self.counter@.restrict(keys.take(i + 1).to_set()));
            }
            i += 1;
        }
        proof {
            let keys = self.counter.keys();
            assert(keys.take(i as int) =~= keys);
            assert(slots@ =~= self.counter@);
        }
        Counter { counter: slots }
    }
}

/// The keys among the first `i + 1` are those among the first `i` and the
/// key at `i`.
proof fn lemma_keys_one_more(keys: Seq<Seq<char>>, i: int)
    requires
        0 <= i < keys.len(),
    ensures
        keys.take(i + 1).to_set() == keys.take(i).to_set().insert(keys[i]),
{
    let shorter = keys.take(i);
    let longer = keys.take(i + 1);
    assert forall|k: Seq<char>| longer.to_set().contains(k) <==> shorter.to_set().insert(
        keys[i],
    ).contains(k) by {
        if longer.contains(k) {
            let j = longer.index_of(k);
            if j < i {
                assert(shorter[j] == k);
            }
        }
        if shorter.contains(k) {
            let j = shorter.index_of(k);
            assert(longer[j] == k);
        }
        assert(longer[i] == keys[i]);
    }
    assert(longer.to_set() =~= shorter.to_set().insert(keys[i]));
}

impl Counter {
    /// A counter without slots.
    pub fn new() -> (counter: Self)
        ensures
            counter@ == Map::<Seq<char>, usize>::empty(),
    {
        Counter { counter: NodeMap::new() }
    }

    /// What `key`'s slot counts, if there is such a slot.
    pub fn get(&self, key: &String) -> (count: Option<usize>)
        ensures
            match count {
                Some(c) => self@.contains_key(key@) && c == self@[key@],
                None => !self@.contains_key(key@),
            },
    {
        match self.counter.get(key) {
            Some(count) => Some(*count),
            None => None,
        }
    }

    /// The slots, each once, in no particular order.
    pub fn slots(&self) -> (list: Vec<(String, usize)>)
        ensures
            list@.len() == self@.dom().len(),
            forall|i: int|
                0 <= i < list@.len() ==> self@.contains_key(#[trigger] list@[i].0@) && self@[list@[i].0@]
                    == list@[i].1,
            forall|i: int, j: int|
                0 <= i < j < list@.len() ==> #[trigger] list@[i].0@ != #[trigger] list@[j].0@,
    {
        let count = self.counter.len();
        let mut list: Vec<(String, usize)> = Vec::new();
        let mut i: usize = 0;
        while i < count
            invariant
                i <= count,
                count == self.counter.keys().len(),
                self.counter.keys().no_duplicates(),
                list@.len() == i,
                forall|k: int| 0 <= k < i ==> (#[trigger] list@[k]).0@ == self.counter.keys()[k],
                forall|k: int|
                    0 <= k < i ==> self@.contains_key(#[trigger] list@[k].0@) && self@[list@[k].0@]
                        == list@[k].1,
            decreases count - i,
        {
            let key = self.counter.key_at(i).clone();
            let value = *self.counter.value_at(i);
            list.push((key, value));
            i += 1;
        }
        list
    }

    /// Adds `delta` to `key`'s slot, which starts at nothing.
    pub fn add(&mut self, key: String, delta: usize)
        requires
            slot(old(self)@, key@) + delta <= usize::MAX,
        ensures
            final(self)@ == old(self)@.insert(key@, (slot(old(self)@, key@) + delta) as usize),
    {
        let count = match self.counter.get(&key) {
            Some(count) => *count + delta,
            None => delta,
        };
        self.counter.insert(key, count);
    }

    /// Adds `delta` to `key`'s slot if the slot can count that far, and
    /// says whether it did.
    pub fn checked_add(&mut self, key: String, delta: usize) -> (done: bool)
        ensures
            done == (slot(old(self)@, key@) + delta <= usize::MAX),
            done ==> final(self)@ == old(self)@.insert(
                key@,
                (slot(old(self)@, key@) + delta) as usize,
            ),
            !done ==> *final(self) == *old(self),
    {
        let count = match self.counter.get(&key) {
            Some(count) => *count,
            None => 0,
        };
        if count > usize::MAX - delta {
            return false;
        }
        self.add(key, delta);
        true
    }

    /// The counter's value, where a `usize` can hold it.
    pub fn checked_sum(&self) -> (sum: Option<usize>)
        ensures
            match sum {
                Some(s) => s == total(self@),
                None => total(self@) > usize::MAX,
            },
    {
        let count = self.counter.len();
        let mut sum: u128 = 0;
        let mut i: usize = 0;
        proof {
            assert(self.counter.keys().take(0).to_set() =~= Set::<Seq<char>>::empty());
            lemma_fold_empty(0nat, add_slot(self@));
        }
        while i < count
            invariant
                i <= count,
                count == self.counter.keys().len(),
                self.counter.keys().no_duplicates(),
                sum == total_over(self@, self.counter.keys().take(i as int).to_set()),
                sum <= i * usize::MAX,
            decreases count - i,
        {
            let value = *self.counter.value_at(i);
            proof {
                lemma_total_one_more(self@, self.counter.keys(), i as int);
                assert(i * usize::MAX + usize::MAX == (i + 1) * usize::MAX) by (nonlinear_arith);
                assert((i + 1) * usize::MAX <= usize::MAX * usize::MAX) by (nonlinear_arith)
                    requires
                        i + 1 <= usize::MAX,
                ;
                assert(usize::MAX * usize::MAX <= 0xffff_ffff_ffff_ffff * 0xffff_ffff_ffff_ffff)
                    by (nonlinear_arith)
                    requires
                        usize::MAX <= 0xffff_ffff_ffff_ffff,
                ;
            }
            sum = sum + value as u128;
            i += 1;
        }
        proof {
            let keys = self.counter.keys();
            assert(keys.take(i as int) =~= keys);
        }
        if sum > usize::MAX as u128 {
            None
        } else {
            Some(sum as usize)
        }
    }

    /// The counter's value: the sum of all slots.
    pub fn sum(&self) -> (sum: usize)
        requires
            total(self@) <= usize::MAX,
        ensures
            sum == total(self@),
    {
        match self.checked_sum() {
            Some(sum) => sum,
            None => 0,
        }
    }

    /// Merges another counter into this one: every slot ends at the larger
    /// of its two counts.
    pub fn merge(&mut self, counter: Counter)
        ensures
            final(self)@ == merged(old(self)@, counter@),
    {
        let count = counter.counter.len();
        let mut i: usize = 0;
        while i < count
            invariant
                i <= count,
                count == counter.counter.keys().len(),
                counter.counter.keys().no_duplicates(),
                counter.counter.keys().to_set() == counter@.dom(),
                self@ == merged(
                    old(self)@,
                    counter@.restrict(counter.counter.keys().take(i as int).to_set()),
                ),
            decreases count - i,
        {
            let key = counter.counter.key_at(i);
            let theirs = *counter.counter.value_at(i);
            let ghost before = self@;
            let count = match self.counter.get(key) {
                Some(ours) => if *ours >= theirs {
                    *ours
                } else {
                    theirs
                },
                None => theirs,
            };
            self.counter.insert(key.clone(), count);
            proof {
                let keys = counter.counter.keys();
                lemma_keys_one_more(keys, i as int);
                assert(!keys.take(i as int).to_set().contains(keys[i as int])) by {
                    if keys.take(i as int).contains(keys[i as int]) {
                        let j = keys.take(i as int).index_of(keys[i as int]);
                        assert(keys[j] == keys[i as int]);
                    }
                }
                assert(self@ =~= merged(
                    old(self)@,
                    counter@.restrict(keys.take(i + 1).to_set()),
                ));
            }
            i += 1;
        }
        proof {
            let keys = counter.counter.keys();
            assert(keys.take(i as int) =~= keys);
            assert(counter@.restrict(keys.to_set()) =~= counter@);
        }
    }
}

} // verus!
