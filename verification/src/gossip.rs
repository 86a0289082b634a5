//! What one gossip message carries: the values that the neighbor is not
//! known to have, and a bounded random sample of those it is known to have.

use vstd::prelude::*;
use std::collections::HashSet;
use rand::rngs::ThreadRng;
use vstd::std_specs::hash::group_hash_axioms;
use crate::random::gen_ratio;
use crate::values::{elements, lemma_take_one_more};

verus! {

broadcast use group_hash_axioms;

/// The scale of a redundancy ratio: a ratio is given in parts of this.
pub const REDUNDANCY_SCALE: u32 = 10000;

/// The redundancy ratio that a node starts with, in parts of
/// `REDUNDANCY_SCALE`.
pub const DEFAULT_REDUNDANCY: u32 = 3236;

/// The values that the neighbor is not known to have.
pub open spec fn delta(messages: Set<usize>, known: Set<usize>) -> Set<usize> {
    messages.difference(known)
}

/// The values that the neighbor is known to have already.
pub open spec fn overlap(messages: Set<usize>, known: Set<usize>) -> Set<usize> {
    messages.intersect(known)
}

/// The ratio that is applied: a ratio above the scale counts as the scale.
pub open spec fn effective_redundancy(redundancy: nat) -> nat {
    if redundancy <= REDUNDANCY_SCALE {
        redundancy
    } else {
        REDUNDANCY_SCALE as nat
    }
}

/// How many already known values a gossip message aims to repeat: the
/// redundancy ratio's share of the overlap, rounded down, but no more than
/// there are unknown values.
pub open spec fn redundancy_cap(unknown: nat, overlap: nat, redundancy: nat) -> nat {
    let share = (overlap * effective_redundancy(redundancy)) / (REDUNDANCY_SCALE as nat);
    if unknown <= share {
        unknown
    } else {
        share
    }
}

/// The cap is never above the number of unknown values, never above the
/// ratio's share of the overlap, and never above the overlap itself.
pub proof fn lemma_redundancy_cap_bounds(unknown: nat, overlap: nat, redundancy: nat)
    ensures
        redundancy_cap(unknown, overlap, redundancy) <= unknown,
        redundancy_cap(unknown, overlap, redundancy) * REDUNDANCY_SCALE <= overlap
            * effective_redundancy(redundancy),
        redundancy_cap(unknown, overlap, redundancy) <= overlap,
{
    let r = effective_redundancy(redundancy);
    let scale = REDUNDANCY_SCALE as nat;
    let share = (overlap * r) / scale;
    assert(share * scale <= overlap * r) by (nonlinear_arith)
        requires
            share == (overlap * r) / scale,
            scale > 0,
    ;
    assert(share <= overlap) by (nonlinear_arith)
        requires
            share * scale <= overlap * r,
            r <= scale,
            scale > 0,
    ;
    let cap = redundancy_cap(unknown, overlap, redundancy);
    assert(cap <= share);
    assert(cap * scale <= share * scale) by (nonlinear_arith)
        requires
            cap <= share,
    ;
}

/// Computes `redundancy_cap` for an overlap that a `u32` can count.
pub fn sample_target(unknown: usize, overlap: u32, redundancy: u32) -> (cap: u32)
    ensures
        cap == redundancy_cap(unknown as nat, overlap as nat, redundancy as nat),
        cap <= overlap,
{
    let ratio: u64 = if redundancy <= REDUNDANCY_SCALE {
        redundancy as u64
    } else {
        REDUNDANCY_SCALE as u64
    };
    assert(overlap as u64 * ratio <= 0xffff_ffff * 10000) by (nonlinear_arith)
        requires
            overlap <= 0xffff_ffff,
            ratio <= 10000,
    ;
    let share: u64 = (overlap as u64) * ratio / (REDUNDANCY_SCALE as u64);
    proof {
        lemma_redundancy_cap_bounds(unknown as nat, overlap as nat, redundancy as nat);
    }
    if (unknown as u64) <= share {
        unknown as u32
    } else {
        share as u32
    }
}

/// The values of `overlap` that were picked: those at a position at which
/// `picks` holds `true`.
pub open spec fn picked(overlap: Seq<usize>, picks: Seq<bool>) -> Set<usize> {
    Set::new(|x: usize| exists|i: int| picked_at(overlap, picks, i, x))
}

/// Position `i` holds the value `x` and was picked.
pub open spec fn picked_at(overlap: Seq<usize>, picks: Seq<bool>, i: int, x: usize) -> bool {
    0 <= i < overlap.len() && i < picks.len() && picks[i] && overlap[i] == x
}

/// Splits the node's values by what the neighbor is known to have: first
/// the unknown ones, then the known ones, each value once.
pub fn split_known(messages: &HashSet<usize>, known: &HashSet<usize>) -> (parts: (
    Vec<usize>,
    Vec<usize>,
))
    ensures
        parts.0@.no_duplicates(),
        parts.0@.to_set() == delta(messages@, known@),
        parts.0@.len() == delta(messages@, known@).len(),
        parts.1@.no_duplicates(),
        parts.1@.to_set() == overlap(messages@, known@),
        parts.1@.len() == overlap(messages@, known@).len(),
{
    let all = elements(messages);
    let mut unknown: Vec<usize> = Vec::new();
    let mut shared: Vec<usize> = Vec::new();
    let mut i: usize = 0;
    while i < all.len()
        invariant
            i <= all@.len(),
            all@.no_duplicates(),
            unknown@.no_duplicates(),
            shared@.no_duplicates(),
            unknown@.to_set() == all@.take(i as int).to_set().difference(known@),
            shared@.to_set() == all@.take(i as int).to_set().intersect(known@),
        decreases all@.len() - i,
    {
        let value = all[i];
        proof {
            lemma_take_one_more(all@, i as int);
            assert(!all@.take(i as int).contains(value)) by {
                if all@.take(i as int).contains(value) {
                    let j = all@.take(i as int).index_of(value);
                    assert(all@[j] == all@[i as int]);
                }
            }
        }
        if known.contains(&value) {
            proof {
                lemma_push_fresh(shared@, value);
            }
            shared.push(value);
        } else {
            proof {
                lemma_push_fresh(unknown@, value);
            }
            unknown.push(value);
        }
        i += 1;
    }
    proof {
        assert(all@.take(i as int) =~= all@);
        unknown@.unique_seq_to_set();
        shared@.unique_seq_to_set();
    }
    (unknown, shared)
}

/// Appending a value that a duplicate-free list does not hold keeps it free
/// of duplicates and adds that value to its set.
proof fn lemma_push_fresh(list: Seq<usize>, value: usize)
    requires
        list.no_duplicates(),
        !list.to_set().contains(value),
    ensures
        list.push(value).no_duplicates(),
        list.push(value).to_set() == list.to_set().insert(value),
{
    let longer = list.push(value);
    assert(!list.contains(value));
    assert(longer.take(list.len() as int) =~= list);
    lemma_take_one_more(longer, list.len() as int);
    assert(longer.take(list.len() as int + 1) =~= longer);
}

/// Puts a gossip payload together: all unknown values, and of the known
/// ones those that were picked.
pub fn assemble_payload(unknown: &Vec<usize>, shared: &Vec<usize>, picks: &Vec<bool>) -> (payload:
    HashSet<usize>)
    ensures
        payload@ == unknown@.to_set().union(picked(shared@, picks@)),
{
    let mut payload: HashSet<usize> = HashSet::new();
    let mut i: usize = 0;
    while i < unknown.len()
        invariant
            i <= unknown@.len(),
            payload@ == unknown@.take(i as int).to_set(),
        decreases unknown@.len() - i,
    {
        payload.insert(unknown[i]);
        proof {
            lemma_take_one_more(unknown@, i as int);
        }
        i += 1;
    }
    assert(unknown@.take(i as int) =~= unknown@);
    let mut j: usize = 0;
    while j < shared.len() && j < picks.len()
        invariant
            j <= shared@.len(),
            j <= picks@.len(),
            payload@ == unknown@.to_set().union(
                picked(shared@.take(j as int), picks@.take(j as int)),
            ),
        decreases shared@.len() - j,
    {
        let ghost before = picked(shared@.take(j as int), picks@.take(j as int));
        let ghost after = picked(shared@.take(j + 1), picks@.take(j + 1));
        if picks[j] {
            payload.insert(shared[j]);
        }
        proof {
            let seen = shared@.take(j as int);
            let drawn = picks@.take(j as int);
            let seen_next = shared@.take(j + 1);
            let drawn_next = picks@.take(j + 1);
            assert forall|x: usize| after.contains(x) <==> (before.contains(x) || (picks@[j as int]
                && shared@[j as int] == x)) by {
                if before.contains(x) {
                    let k = choose|k: int| picked_at(seen, drawn, k, x);
                    assert(picked_at(seen_next, drawn_next, k, x));
                }
                if picks@[j as int] && shared@[j as int] == x {
                    assert(picked_at(seen_next, drawn_next, j as int, x));
                }
                if after.contains(x) {
                    let k = choose|k: int| picked_at(seen_next, drawn_next, k, x);
                    if k < j {
                        assert(picked_at(seen, drawn, k, x));
                    }
                }
            }
            assert(after =~= if picks@[j as int] {
                before.insert(shared@[j as int])
            } else {
                before
            });
        }
        j += 1;
    }
    proof {
        let seen = shared@.take(j as int);
        let drawn = picks@.take(j as int);
        let some = picked(seen, drawn);
        let all = picked(shared@, picks@);
        assert forall|x: usize| some.contains(x) <==> all.contains(x) by {
            if some.contains(x) {
                let k = choose|k: int| picked_at(seen, drawn, k, x);
                assert(picked_at(shared@, picks@, k, x));
            }
            if all.contains(x) {
                let k = choose|k: int| picked_at(shared@, picks@, k, x);
                assert(picked_at(seen, drawn, k, x));
            }
        }
        assert(some =~= all);
    }
    payload
}

/// What holds of every payload that a node may gossip to a neighbor: it
/// holds every unknown value and nothing but the node's values; with a cap
/// of zero it holds the unknown values alone, and with a cap as large as the
/// overlap it holds all of the node's values.
pub open spec fn valid_payload(
    messages: Set<usize>,
    known: Set<usize>,
    redundancy: nat,
    payload: Set<usize>,
) -> bool {
    let unknown = delta(messages, known);
    let shared = overlap(messages, known);
    let cap = redundancy_cap(unknown.len(), shared.len(), redundancy);
    &&& unknown.subset_of(payload)
    &&& payload.subset_of(messages)
    &&& cap == 0 ==> payload == unknown
    &&& cap == shared.len() ==> payload == messages
}

/// Whatever was drawn, a payload repeats known values only from the
/// overlap, and apart from those it is exactly the delta. The cap on the
/// number of repeats aimed at is at most the ratio's share of the overlap
/// and at most the size of the delta; with a cap of zero nothing is
/// repeated.
pub proof fn lemma_delta_minimal(
    messages: Set<usize>,
    known: Set<usize>,
    redundancy: nat,
    payload: Set<usize>,
)
    requires
        valid_payload(messages, known, redundancy, payload),
    ensures
        payload.difference(known) == delta(messages, known),
        payload.intersect(known).subset_of(overlap(messages, known)),
        payload == delta(messages, known).union(payload.intersect(known)),
        redundancy_cap(
            delta(messages, known).len(),
            overlap(messages, known).len(),
            redundancy,
        ) * REDUNDANCY_SCALE <= overlap(messages, known).len() * effective_redundancy(redundancy),
        redundancy_cap(
            delta(messages, known).len(),
            overlap(messages, known).len(),
            redundancy,
        ) <= delta(messages, known).len(),
        redundancy_cap(delta(messages, known).len(), overlap(messages, known).len(), redundancy)
            == 0 ==> payload.intersect(known) == Set::<usize>::empty(),
{
    let unknown = delta(messages, known);
    let shared = overlap(messages, known);
    lemma_redundancy_cap_bounds(unknown.len(), shared.len(), redundancy);
    assert(payload.difference(known) =~= unknown);
    assert(payload =~= unknown.union(payload.intersect(known)));
    if redundancy_cap(unknown.len(), shared.len(), redundancy) == 0 {
        assert(payload.intersect(known) =~= Set::<usize>::empty());
    }
}

/// Asks the generator once for each of `count` known values whether it is
/// to be repeated, each with a chance of `cap` in `count`.
fn draw_picks(rng: &mut ThreadRng, cap: u32, count: u32) -> (picks: Vec<bool>)
    requires
        cap <= count,
    ensures
        picks@.len() == count,
        cap == 0 ==> forall|i: int| 0 <= i < picks@.len() ==> !picks@[i],
        cap == count ==> forall|i: int| 0 <= i < picks@.len() ==> picks@[i],
{
    let mut picks: Vec<bool> = Vec::new();
    let mut i: u32 = 0;
    while i < count
        invariant
            i <= count,
            cap <= count,
            picks@.len() == i,
            cap == 0 ==> forall|k: int| 0 <= k < picks@.len() ==> !picks@[k],
            cap == count ==> forall|k: int| 0 <= k < picks@.len() ==> picks@[k],
        decreases count - i,
    {
        let hit = gen_ratio(rng, cap, count);
        picks.push(hit);
        i += 1;
    }
    picks
}

/// The payload of one gossip message to a neighbor that is known to have
/// `known`: the unknown values and a random sample of the known ones, each
/// known value taken with a chance of the cap in the size of the overlap.
/// There is no payload when the overlap is beyond what a `u32` can count.
pub(crate) fn gossip_payload(
    messages: &HashSet<usize>,
    known: &HashSet<usize>,
    redundancy: u32,
    rng: &mut ThreadRng,
) -> (payload: Option<HashSet<usize>>)
    ensures
        match payload {
            Some(p) => overlap(messages@, known@).len() <= u32::MAX && valid_payload(
                messages@,
                known@,
                redundancy as nat,
                p@,
            ),
            None => overlap(messages@, known@).len() > u32::MAX,
        },
{
    let (unknown, shared) = split_known(messages, known);
    if shared.len() > u32::MAX as usize {
        return None;
    }
    let count = shared.len() as u32;
    let cap = sample_target(unknown.len(), count, redundancy);
    let picks = draw_picks(rng, cap, count);
    let payload = assemble_payload(&unknown, &shared, &picks);
    proof {
        let chosen = picked(shared@, picks@);
        assert(chosen.subset_of(shared@.to_set())) by {
            assert forall|x: usize| chosen.contains(x) implies shared@.to_set().contains(x) by {
                let k = choose|k: int| picked_at(shared@, picks@, k, x);
                assert(shared@[k] == x);
            }
        }
        if cap == 0 {
            assert(chosen =~= Set::<usize>::empty());
            assert(payload@ =~= unknown@.to_set());
        }
        if cap == count {
            assert forall|x: usize| shared@.to_set().contains(x) implies chosen.contains(x) by {
                let k = shared@.index_of(x);
                assert(picked_at(shared@, picks@, k, x));
            }
            assert(chosen =~= shared@.to_set());
            assert(payload@ =~= messages@);
        }
    }
    Some(payload)
}

} // verus!
