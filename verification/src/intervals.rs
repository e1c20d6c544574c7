//! The interval list: one entry per body, kept from step to step.

use crate::aabb::Aabb;
use crate::id_set::{members, IdSet};
use std::collections::HashMap;
use vstd::pervasive::VecAdditionalExecFns;
use vstd::prelude::*;

verus! {

/// A body's identity and the bounding box that was last seen of it.
pub type Entry = (u64, Aabb);

/// The entries of all bodies, in the order in which the sweep walks them.
/// The list is sorted by `min_x` after every sort, and may be out of order
/// between a refresh or an insertion and the next sort.
#[derive(Debug)]
pub struct AabbIntervals(pub Vec<Entry>);

/// The entries of `s` whose identity is not in `removed`, in the order of `s`.
pub open spec fn without(s: Seq<Entry>, removed: Set<u64>) -> Seq<Entry> {
    s.filter(|e: Entry| !removed.contains(e.0))
}

/// Every identity in `s` has a box in `aabbs`.
pub open spec fn resolvable(s: Seq<Entry>, aabbs: Map<u64, Aabb>) -> bool {
    forall|i: int| 0 <= i < s.len() ==> aabbs.contains_key(#[trigger] s[i].0)
}

/// The entries of `s`, each with the box that `aabbs` holds for its identity.
pub open spec fn refreshed(s: Seq<Entry>, aabbs: Map<u64, Aabb>) -> Seq<Entry> {
    Seq::new(s.len(), |i: int| (s[i].0, aabbs[s[i].0]))
}

/// The identities of `s`, in order.
pub open spec fn ids(s: Seq<Entry>) -> Seq<u64> {
    Seq::new(s.len(), |i: int| s[i].0)
}

impl Default for AabbIntervals {
    fn default() -> (intervals: AabbIntervals)
        ensures
            intervals.0@ == Seq::<Entry>::empty(),
    {
        AabbIntervals(Vec::new())
    }
}

/// Drops from `items` every entry whose identity `removed` holds. The entries
/// that stay keep their order, and nothing is allocated.
pub fn retain_absent(items: &mut Vec<Entry>, removed: &IdSet)
    ensures
        final(items)@ == without(old(items)@, members(*removed)),
{
    let ghost before = items@;
    let ghost gone = members(*removed);
    let n = items.len();
    let mut kept: usize = 0;
    let mut next: usize = 0;
    while next < n
        invariant
            items.len() == n,
            n == before.len(),
            kept <= next <= n,
            gone == members(*removed),
            items@.take(kept as int) == without(before.take(next as int), gone),
            forall|k: int| next <= k < n ==> items@[k] == before[k],
        decreases n - next,
    {
        let entry = items[next];
        proof {
            reveal(Seq::filter);
            assert(before.take(next + 1).drop_last() == before.take(next as int));
        }
        if !removed.contains(entry.0) {
            let ghost prefix = items@.take(kept as int);
            items.set(kept, entry);
            assert(items@.take(kept + 1) == prefix.push(entry));
            kept += 1;
        } else {
            assert(items@.take(kept as int) == without(before.take(next + 1), gone));
        }
        next += 1;
    }
    assert(before.take(n as int) == before);
    items.truncate(kept);
}

/// Removes from the list the entries of the bodies named in `removals`.
/// An identity that the list does not hold removes nothing.
pub fn remove_old_aabb_intervals(removals: &Vec<u64>, intervals: &mut AabbIntervals)
    ensures
        final(intervals).0@ == without(old(intervals).0@, removals@.to_set()),
{
    let removed = IdSet::collect(removals);
    retain_absent(&mut intervals.0, &removed);
}

/// Replaces the box of every entry by the one that `aabbs` holds for its identity.
pub fn update_aabb_intervals(aabbs: &HashMap<u64, Aabb>, intervals: &mut AabbIntervals)
    requires
        resolvable(old(intervals).0@, aabbs@),
    ensures
        final(intervals).0@ == refreshed(old(intervals).0@, aabbs@),
{
    broadcast use vstd::std_specs::hash::group_hash_axioms;

    let ghost before = intervals.0@;
    let n = intervals.0.len();
    let mut i: usize = 0;
    while i < n
        invariant
            i <= n,
            n == before.len(),
            intervals.0@.len() == n,
            resolvable(before, aabbs@),
            forall|k: int| 0 <= k < i ==> intervals.0@[k] == (before[k].0, aabbs@[before[k].0]),
            forall|k: int| i <= k < n ==> intervals.0@[k] == before[k],
        decreases n - i,
    {
        let id = intervals.0[i].0;
        assert(aabbs@.contains_key(before[i as int].0));
        let aabb = *aabbs.get(&id).unwrap();
        intervals.0.set(i, (id, aabb));
        i += 1;
    }
    assert(intervals.0@ =~= refreshed(before, aabbs@));
}

/// Puts the entries of `added` at the end of the list, in their order.
/// They stand where they are until the next sort.
pub fn add_new_aabb_intervals(added: &Vec<Entry>, intervals: &mut AabbIntervals)
    ensures
        final(intervals).0@ == old(intervals).0@ + added@,
{
    let ghost before = intervals.0@;
    let mut i: usize = 0;
    while i < added.len()
        invariant
            i <= added.len(),
            intervals.0@ == before + added@.take(i as int),
        decreases added.len() - i,
    {
        intervals.0.push(added[i]);
        assert(added@.take(i + 1) == added@.take(i as int).push(added@[i as int]));
        i += 1;
    }
    assert(added@.take(added.len() as int) == added@);
}

} // verus!
