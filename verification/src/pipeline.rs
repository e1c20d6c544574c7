//! One simulation step of the broad phase, from the changes in the population
//! to the candidate pairs.

use crate::aabb::Aabb;
use crate::id_set::{members, IdSet};
use crate::intervals::{
    add_new_aabb_intervals, refreshed, remove_old_aabb_intervals, resolvable,
    update_aabb_intervals, without, AabbIntervals, Entry,
};
use crate::sort::is_stable_sort_of;
use crate::sweep::{candidate_pairs, collect_collision_pairs, BroadCollisionPairs};
use std::collections::HashMap;
use vstd::prelude::*;

verus! {

/// The state that the broad phase keeps from one step to the next.
#[derive(Debug)]
pub struct BroadPhase {
    /// The entries of the bodies that the broad phase knows.
    pub intervals: AabbIntervals,
    /// The candidate pairs of the last step.
    pub pairs: BroadCollisionPairs,
}

/// The list that a step sorts: the entries of `before` that are not removed,
/// each with its current box, and then the added entries.
pub open spec fn step_input(
    before: Seq<Entry>,
    removed: Seq<u64>,
    aabbs: Map<u64, Aabb>,
    added: Seq<Entry>,
) -> Seq<Entry> {
    refreshed(without(before, removed.to_set()), aabbs) + added
}

/// What a step asks of its inputs: `aabbs` holds a box for every body of
/// `before` that is not removed.
pub open spec fn step_accepts(
    before: Seq<Entry>,
    removed: Seq<u64>,
    aabbs: Map<u64, Aabb>,
) -> bool {
    forall|i: int|
        0 <= i < before.len() && !removed.contains((#[trigger] before[i]).0)
            ==> aabbs.contains_key(before[i].0)
}

/// With inputs that a step accepts, every entry that stays can be refreshed.
proof fn lemma_accepted_input_resolves(
    before: Seq<Entry>,
    removed: Seq<u64>,
    aabbs: Map<u64, Aabb>,
)
    requires
        step_accepts(before, removed, aabbs),
    ensures
        resolvable(without(before, removed.to_set()), aabbs),
{
    let kept = without(before, removed.to_set());
    let pred = |e: Entry| !removed.to_set().contains(e.0);
    assert forall|i: int| 0 <= i < kept.len() implies aabbs.contains_key(
        (#[trigger] kept[i]).0,
    ) by {
        before.lemma_filter_pred(pred, i);
        assert(kept.contains(kept[i]));
        before.lemma_filter_contains_rev(pred, kept[i]);
        let k = choose|k: int| 0 <= k < before.len() && before[k] == kept[i];
        assert(!removed.contains(before[k].0));
    }
}

impl BroadPhase {
    /// A broad phase that knows no body yet.
    pub fn new() -> (phase: BroadPhase)
        ensures
            phase.intervals.0@ == Seq::<Entry>::empty(),
            phase.pairs.0@ == Seq::<(u64, u64)>::empty(),
    {
        BroadPhase { intervals: AabbIntervals::default(), pairs: BroadCollisionPairs::default() }
    }

    /// Tests whether `step` may be called with these inputs.
    pub fn accepts(&self, removals: &Vec<u64>, aabbs: &HashMap<u64, Aabb>) -> (ok: bool)
        ensures
            ok == step_accepts(self.intervals.0@, removals@, aabbs@),
    {
        broadcast use vstd::std_specs::hash::group_hash_axioms;

        let removed = IdSet::collect(removals);
        let mut i: usize = 0;
        while i < self.intervals.0.len()
            invariant
                i <= self.intervals.0@.len(),
                members(removed) == removals@.to_set(),
                forall|k: int|
                    0 <= k < i && !removals@.contains((#[trigger] self.intervals.0@[k]).0)
                        ==> aabbs@.contains_key(self.intervals.0@[k].0),
            decreases self.intervals.0@.len() - i,
        {
            let id = self.intervals.0[i].0;
            if !removed.contains(id) && !aabbs.contains_key(&id) {
                return false;
            }
            i += 1;
        }
        true
    }

    /// Runs one step: drops the entries of the removed bodies, gives every
    /// entry that stays its current box, puts the added entries at the end,
    /// sorts the list, and sweeps it for the candidate pairs. The pairs of the
    /// step before are discarded.
    pub fn step(&mut self, removals: &Vec<u64>, aabbs: &HashMap<u64, Aabb>, added: &Vec<Entry>)
        requires
            step_accepts(old(self).intervals.0@, removals@, aabbs@),
        ensures
            is_stable_sort_of(
                final(self).intervals.0@,
                step_input(old(self).intervals.0@, removals@, aabbs@, added@),
            ),
            final(self).intervals.0@.to_multiset() == step_input(
                old(self).intervals.0@,
                removals@,
                aabbs@,
                added@,
            ).to_multiset(),
            final(self).pairs.0@ == candidate_pairs(final(self).intervals.0@),
    {
        proof {
            lemma_accepted_input_resolves(old(self).intervals.0@, removals@, aabbs@);
        }
        remove_old_aabb_intervals(removals, &mut self.intervals);
        update_aabb_intervals(aabbs, &mut self.intervals);
        add_new_aabb_intervals(added, &mut self.intervals);
        collect_collision_pairs(&mut self.intervals, &mut self.pairs);
    }
}

} // verus!
