//! The sweep: one pass over the sorted interval list that collects every pair
//! of bodies whose boxes overlap.

use crate::intervals::{AabbIntervals, Entry};
use crate::sort::{insertion_sort, is_stable_sort_of, sorted_by_min_x};
use vstd::prelude::*;

verus! {

/// The pairs of bodies that may collide, as the last sweep found them.
#[derive(Debug)]
pub struct BroadCollisionPairs(pub Vec<(u64, u64)>);

impl Default for BroadCollisionPairs {
    fn default() -> (pairs: BroadCollisionPairs)
        ensures
            pairs.0@ == Seq::<(u64, u64)>::empty(),
    {
        BroadCollisionPairs(Vec::new())
    }
}

/// The pairs that the entry at `i` makes with the entries at `i + 1 .. end`
/// whose boxes overlap its own, in the order of those entries.
pub open spec fn row_pairs(s: Seq<Entry>, i: int, end: int) -> Seq<(u64, u64)>
    decreases end - i,
{
    if end <= i + 1 {
        Seq::empty()
    } else {
        let rest = row_pairs(s, i, end - 1);
        if s[i].1@.overlaps(s[end - 1].1@) {
            rest.push((s[i].0, s[end - 1].0))
        } else {
            rest
        }
    }
}

/// The rows of the entries at `0 .. end`, one after the other.
pub open spec fn rows_before(s: Seq<Entry>, end: int) -> Seq<(u64, u64)>
    decreases end,
{
    if end <= 0 {
        Seq::empty()
    } else {
        rows_before(s, end - 1) + row_pairs(s, end - 1, s.len() as int)
    }
}

/// Every pair `(s[i].0, s[j].0)` with `i < j` whose boxes overlap on all axes,
/// ordered by `i` and then by `j`.
pub open spec fn candidate_pairs(s: Seq<Entry>) -> Seq<(u64, u64)> {
    rows_before(s, s.len() as int)
}

/// A row ends where no later box overlaps the row's own.
proof fn lemma_row_ends(s: Seq<Entry>, i: int, from: int, end: int)
    requires
        0 <= i < from <= end <= s.len(),
        forall|c: int| from <= c < end ==> !s[i].1@.overlaps((#[trigger] s[c]).1@),
    ensures
        row_pairs(s, i, end) == row_pairs(s, i, from),
    decreases end - from,
{
    if from < end {
        lemma_row_ends(s, i, from, end - 1);
    }
}

/// Sorts the list by `min_x`, then replaces `broad_collision_pairs` by the
/// pairs of bodies whose boxes overlap on every axis.
///
/// For each entry the scan of the later ones stops at the first whose `min_x`
/// lies beyond the entry's `max_x`: in a sorted list none after it can overlap.
pub fn sweep_and_prune(intervals: &mut AabbIntervals, broad_collision_pairs: &mut Vec<(u64, u64)>)
    ensures
        is_stable_sort_of(final(intervals).0@, old(intervals).0@),
        final(intervals).0@.to_multiset() == old(intervals).0@.to_multiset(),
        final(broad_collision_pairs)@ == candidate_pairs(final(intervals).0@),
{
    insertion_sort(&mut intervals.0);
    broad_collision_pairs.clear();

    let ghost s = intervals.0@;
    let n = intervals.0.len();
    let mut i: usize = 0;
    while i < n
        invariant
            i <= n,
            n == s.len(),
            s == intervals.0@,
            sorted_by_min_x(s),
            broad_collision_pairs@ == rows_before(s, i as int),
        decreases n - i,
    {
        let (ent1, aabb1) = intervals.0[i];
        let mut j: usize = i + 1;
        while j < n
            invariant_except_break
                broad_collision_pairs@ == rows_before(s, i as int) + row_pairs(
                    s,
                    i as int,
                    j as int,
                ),
            invariant
                i < j <= n,
                n == s.len(),
                s == intervals.0@,
                sorted_by_min_x(s),
                (ent1, aabb1) == s[i as int],
            ensures
                broad_collision_pairs@ == rows_before(s, i as int) + row_pairs(
                    s,
                    i as int,
                    n as int,
                ),
            decreases n - j,
        {
            let (ent2, aabb2) = intervals.0[j];
            if aabb2.min_x() > aabb1.max_x() {
                proof {
                    assert forall|c: int| j <= c < n implies !s[i as int].1@.overlaps(
                        (#[trigger] s[c]).1@,
                    ) by {
                        assert(s[j as int].1@.min_x <= s[c].1@.min_x);
                    }
                    lemma_row_ends(s, i as int, j as int, n as int);
                }
                break ;
            }
            proof {
                use_type_invariant(&aabb2);
                assert(s[i as int].1@.min_x <= s[j as int].1@.min_x);
                assert(aabb1@.overlaps_x(aabb2@));
            }
            let apart_y = aabb1.min_y() > aabb2.max_y() || aabb1.max_y() < aabb2.min_y();
            let apart_z = aabb1.min_z() > aabb2.max_z() || aabb1.max_z() < aabb2.min_z();
            if !apart_y && !apart_z {
                let ghost found = broad_collision_pairs@;
                broad_collision_pairs.push((ent1, ent2));
                assert(broad_collision_pairs@ == rows_before(s, i as int) + row_pairs(
                    s,
                    i as int,
                    j + 1,
                )) by {
                    assert(found.push((ent1, ent2)) =~= rows_before(s, i as int) + row_pairs(
                        s,
                        i as int,
                        j as int,
                    ).push((ent1, ent2)));
                }
            }
            j += 1;
        }
        i += 1;
    }
}

/// Runs `sweep_and_prune` on the list and stores what it finds in `broad_collision_pairs`.
pub fn collect_collision_pairs(
    intervals: &mut AabbIntervals,
    broad_collision_pairs: &mut BroadCollisionPairs,
)
    ensures
        is_stable_sort_of(final(intervals).0@, old(intervals).0@),
        final(intervals).0@.to_multiset() == old(intervals).0@.to_multiset(),
        final(broad_collision_pairs).0@ == candidate_pairs(final(intervals).0@),
{
    sweep_and_prune(intervals, &mut broad_collision_pairs.0);
}

} // verus!
