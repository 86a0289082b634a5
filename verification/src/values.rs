//! Sets of application values: listing, copying and merging them.

use vstd::prelude::*;
use std::collections::HashSet;
use vstd::std_specs::hash::group_hash_axioms;
use vstd::std_specs::hash::spec_hash_keys_iter;
use vstd::std_specs::iter::IteratorSpec;

verus! {

broadcast use group_hash_axioms;

/// A hash set holds finitely many values.
pub proof fn lemma_values_finite(set: &HashSet<usize>)
    ensures
        set@.finite(),
{
    let all = spec_hash_keys_iter(set).remaining().unref();
    vstd::seq_lib::seq_to_set_is_finite(all);
}

/// The values of a set, each once, in no particular order.
pub fn elements(set: &HashSet<usize>) -> (list: Vec<usize>)
    ensures
        list@.to_set() == set@,
        list@.no_duplicates(),
        list@.len() == set@.len(),
        set@.finite(),
{
    let mut list: Vec<usize> = Vec::new();
    for value in it: set.iter()
        invariant
            list@ == it.seq().take(it.index()).unref(),
            it.seq().unref().to_set() == set@,
            it.seq().no_duplicates(),
            it.index() == it.seq().len() ==> list@ == it.seq().unref(),
    {
        list.push(*value);
    }
    proof {
        list@.unique_seq_to_set();
        lemma_values_finite(set);
    }
    list
}

/// A new set with the same values.
pub fn copy_values(set: &HashSet<usize>) -> (copy: HashSet<usize>)
    ensures
        copy@ == set@,
{
    let list = elements(set);
    let mut copy: HashSet<usize> = HashSet::new();
    let mut i: usize = 0;
    while i < list.len()
        invariant
            i <= list@.len(),
            copy@ == list@.take(i as int).to_set(),
        decreases list@.len() - i,
    {
        copy.insert(list[i]);
        proof {
            lemma_take_one_more(list@, i as int);
        }
        i += 1;
    }
    assert(list@.take(i as int) =~= list@);
    copy
}

/// Adds every value of `more` to `target`.
pub fn absorb(target: &mut HashSet<usize>, more: &HashSet<usize>)
    ensures
        final(target)@ == old(target)@.union(more@),
{
    let list = elements(more);
    let mut i: usize = 0;
    while i < list.len()
        invariant
            i <= list@.len(),
            target@ == old(target)@.union(list@.take(i as int).to_set()),
        decreases list@.len() - i,
    {
        target.insert(list[i]);
        proof {
            lemma_take_one_more(list@, i as int);
        }
        i += 1;
    }
    assert(list@.take(i as int) =~= list@);
}

/// The values of the first `i + 1` items are those of the first `i` items
/// and the item at `i`.
pub proof fn lemma_take_one_more(list: Seq<usize>, i: int)
    requires
        0 <= i < list.len(),
    ensures
        list.take(i + 1).to_set() == list.take(i).to_set().insert(list[i]),
{
    let shorter = list.take(i);
    let longer = list.take(i + 1);
    assert forall|x: usize| longer.to_set().contains(x) <==> shorter.to_set().insert(
        list[i],
    ).contains(x) by {
        if longer.contains(x) {
            let j = longer.index_of(x);
            if j < i {
                assert(shorter[j] == x);
            }
        }
        if shorter.contains(x) {
            let j = shorter.index_of(x);
            assert(longer[j] == x);
        }
        assert(longer[i] == list[i]);
    }
    assert(longer.to_set() =~= shorter.to_set().insert(list[i]));
}

} // verus!
