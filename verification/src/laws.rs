//! What holds of the broad phase whatever the population is.

use crate::aabb::Aabb;
use crate::intervals::{ids, refreshed, without, Entry};
use crate::pipeline::step_input;
use crate::sort::{has_min_x, is_stable_sort_of, same_groups, sorted_by_min_x, with_min_x};
use crate::sweep::{candidate_pairs, row_pairs, rows_before};
use vstd::prelude::*;

verus! {

/// The two pairs name the same two bodies, in either order.
pub open spec fn same_bodies(p: (u64, u64), q: (u64, u64)) -> bool {
    p == q || (p.0 == q.1 && p.1 == q.0)
}

/// `p` names the bodies at `i` and `j`, where `i < j` and their boxes overlap.
pub open spec fn is_pair_of(s: Seq<Entry>, p: (u64, u64), i: int, j: int) -> bool {
    &&& 0 <= i < j < s.len()
    &&& s[i].1@.overlaps(s[j].1@)
    &&& p == (s[i].0, s[j].0)
}

proof fn lemma_row_member(s: Seq<Entry>, i: int, end: int, k: int)
    requires
        0 <= i < s.len(),
        end <= s.len(),
        0 <= k < row_pairs(s, i, end).len(),
    ensures
        exists|c: int| c < end && #[trigger] is_pair_of(s, row_pairs(s, i, end)[k], i, c),
    decreases end - i,
{
    let rest = row_pairs(s, i, end - 1);
    if k < rest.len() {
        lemma_row_member(s, i, end - 1, k);
        let c = choose|c: int| c < end - 1 && #[trigger] is_pair_of(s, rest[k], i, c);
        assert(c < end && is_pair_of(s, row_pairs(s, i, end)[k], i, c));
    } else {
        assert(is_pair_of(s, row_pairs(s, i, end)[k], i, end - 1));
    }
}

proof fn lemma_row_holds(s: Seq<Entry>, i: int, end: int, c: int)
    requires
        0 <= i < c < end <= s.len(),
        s[i].1@.overlaps(s[c].1@),
    ensures
        row_pairs(s, i, end).contains((s[i].0, s[c].0)),
    decreases end - i,
{
    let rest = row_pairs(s, i, end - 1);
    let row = row_pairs(s, i, end);
    if c == end - 1 {
        assert(row[rest.len() as int] == (s[i].0, s[c].0));
    } else {
        lemma_row_holds(s, i, end - 1, c);
        let k = choose|k: int| 0 <= k < rest.len() && rest[k] == (s[i].0, s[c].0);
        assert(row[k] == (s[i].0, s[c].0));
    }
}

proof fn lemma_row_unique(s: Seq<Entry>, i: int, end: int, k1: int, k2: int)
    requires
        ids(s).no_duplicates(),
        0 <= i < s.len(),
        end <= s.len(),
        0 <= k1 < k2 < row_pairs(s, i, end).len(),
    ensures
        !same_bodies(row_pairs(s, i, end)[k1], row_pairs(s, i, end)[k2]),
    decreases end - i,
{
    let rest = row_pairs(s, i, end - 1);
    if k2 < rest.len() {
        lemma_row_unique(s, i, end - 1, k1, k2);
    } else {
        lemma_row_member(s, i, end - 1, k1);
        let c = choose|c: int| c < end - 1 && #[trigger] is_pair_of(s, rest[k1], i, c);
        assert(ids(s)[c] == s[c].0 && ids(s)[end - 1] == s[end - 1].0 && ids(s)[i] == s[i].0);
    }
}

proof fn lemma_rows_member(s: Seq<Entry>, end: int, k: int)
    requires
        end <= s.len(),
        0 <= k < rows_before(s, end).len(),
    ensures
        exists|r: int, c: int| r < end && #[trigger] is_pair_of(s, rows_before(s, end)[k], r, c),
    decreases end,
{
    let above = rows_before(s, end - 1);
    let p = rows_before(s, end)[k];
    if k < above.len() {
        lemma_rows_member(s, end - 1, k);
        let (r, c) = choose|r: int, c: int| r < end - 1 && #[trigger] is_pair_of(s, above[k], r, c);
        assert(r < end && is_pair_of(s, p, r, c));
    } else {
        lemma_row_member(s, end - 1, s.len() as int, k - above.len());
        let r = end - 1;
        let c = choose|c: int| c < s.len() && #[trigger] is_pair_of(s, p, r, c);
        assert(r < end && is_pair_of(s, p, r, c));
    }
}

proof fn lemma_rows_hold(s: Seq<Entry>, end: int, r: int, c: int)
    requires
        0 <= r < end <= s.len(),
        r < c < s.len(),
        s[r].1@.overlaps(s[c].1@),
    ensures
        rows_before(s, end).contains((s[r].0, s[c].0)),
    decreases end,
{
    let above = rows_before(s, end - 1);
    let row = row_pairs(s, end - 1, s.len() as int);
    let all = rows_before(s, end);
    let p = (s[r].0, s[c].0);
    if r == end - 1 {
        lemma_row_holds(s, r, s.len() as int, c);
        let k = choose|k: int| 0 <= k < row.len() && row[k] == p;
        assert(all[above.len() + k] == p);
    } else {
        lemma_rows_hold(s, end - 1, r, c);
        let k = choose|k: int| 0 <= k < above.len() && above[k] == p;
        assert(all[k] == p);
    }
}

proof fn lemma_rows_unique(s: Seq<Entry>, end: int, k1: int, k2: int)
    requires
        ids(s).no_duplicates(),
        end <= s.len(),
        0 <= k1 < k2 < rows_before(s, end).len(),
    ensures
        !same_bodies(rows_before(s, end)[k1], rows_before(s, end)[k2]),
    decreases end,
{
    let above = rows_before(s, end - 1);
    let row = row_pairs(s, end - 1, s.len() as int);
    if k2 < above.len() {
        lemma_rows_unique(s, end - 1, k1, k2);
    } else if k1 >= above.len() {
        lemma_row_unique(s, end - 1, s.len() as int, k1 - above.len(), k2 - above.len());
    } else {
        lemma_rows_member(s, end - 1, k1);
        let (r, c) = choose|r: int, c: int| r < end - 1 && #[trigger] is_pair_of(s, above[k1], r, c);
        lemma_row_member(s, end - 1, s.len() as int, k2 - above.len());
        let q = row[k2 - above.len()];
        let last = end - 1;
        let d = choose|d: int| d < s.len() && #[trigger] is_pair_of(s, q, last, d);
        assert(ids(s)[r] == s[r].0 && ids(s)[c] == s[c].0);
        assert(ids(s)[end - 1] == s[end - 1].0 && ids(s)[d] == s[d].0);
    }
}

/// Every candidate pair names two entries of the list, the first before the
/// second, whose boxes overlap on every axis.
pub proof fn law_candidate_pair_overlaps(s: Seq<Entry>, k: int)
    requires
        0 <= k < candidate_pairs(s).len(),
    ensures
        exists|i: int, j: int| is_pair_of(s, candidate_pairs(s)[k], i, j),
{
    lemma_rows_member(s, s.len() as int, k);
    let (i, j) = choose|i: int, j: int|
        i < s.len() && #[trigger] is_pair_of(s, candidate_pairs(s)[k], i, j);
    assert(is_pair_of(s, candidate_pairs(s)[k], i, j));
}

/// No overlap is missed: where the boxes of two entries of the list overlap on
/// every axis, the candidate pairs hold the two bodies, the one that stands
/// first in the list first.
pub proof fn law_overlapping_bodies_are_paired(s: Seq<Entry>, i: int, j: int)
    requires
        0 <= i < j < s.len(),
        s[i].1@.overlaps(s[j].1@),
    ensures
        candidate_pairs(s).contains((s[i].0, s[j].0)),
{
    lemma_rows_hold(s, s.len() as int, i, j);
}

/// Where no two entries share an identity, no candidate pair names one body twice.
pub proof fn law_no_self_pair(s: Seq<Entry>, k: int)
    requires
        ids(s).no_duplicates(),
        0 <= k < candidate_pairs(s).len(),
    ensures
        candidate_pairs(s)[k].0 != candidate_pairs(s)[k].1,
{
    law_candidate_pair_overlaps(s, k);
    let (i, j) = choose|i: int, j: int| is_pair_of(s, candidate_pairs(s)[k], i, j);
    assert(ids(s)[i] == s[i].0 && ids(s)[j] == s[j].0);
}

/// Where no two entries share an identity, no two candidate pairs name the
/// same two bodies, in whatever order.
pub proof fn law_pairs_are_unique(s: Seq<Entry>, k1: int, k2: int)
    requires
        ids(s).no_duplicates(),
        0 <= k1 < candidate_pairs(s).len(),
        0 <= k2 < candidate_pairs(s).len(),
        k1 != k2,
    ensures
        !same_bodies(candidate_pairs(s)[k1], candidate_pairs(s)[k2]),
{
    if k1 < k2 {
        lemma_rows_unique(s, s.len() as int, k1, k2);
    } else {
        lemma_rows_unique(s, s.len() as int, k2, k1);
    }
}

/// A group that is not empty has an entry in the sequence.
proof fn lemma_group_has_entry(s: Seq<Entry>, v: int)
    requires
        with_min_x(s, v).len() > 0,
    ensures
        exists|k: int| 0 <= k < s.len() && (#[trigger] s[k]).1@.min_x == v,
{
    let group = with_min_x(s, v);
    s.lemma_filter_pred(has_min_x(v), 0);
    assert(group.contains(group[0]));
    s.lemma_filter_contains_rev(has_min_x(v), group[0]);
    let k = choose|k: int| 0 <= k < s.len() && s[k] == group[0];
    assert(s[k].1@.min_x == v);
}

/// The last entry of a sequence is the last of its group, and the groups of
/// the sequence without it are the groups of the sequence, but for that one.
proof fn lemma_groups_of_last(s: Seq<Entry>)
    requires
        s.len() > 0,
    ensures
        with_min_x(s, s.last().1@.min_x) == with_min_x(s.drop_last(), s.last().1@.min_x).push(
            s.last(),
        ),
        forall|v: int|
            v != s.last().1@.min_x ==> #[trigger] with_min_x(s.drop_last(), v) == with_min_x(s, v),
{
    reveal(Seq::filter);
}

/// A sorted sequence is fixed by its groups: two sorted sequences with the
/// same groups are the same sequence. So a list has one stable sort only.
pub proof fn law_stable_sort_is_unique(a: Seq<Entry>, b: Seq<Entry>)
    requires
        sorted_by_min_x(a),
        sorted_by_min_x(b),
        same_groups(a, b),
    ensures
        a == b,
    decreases a.len(),
{
    if a.len() == 0 || b.len() == 0 {
        if a.len() > 0 {
            lemma_groups_of_last(a);
            assert(with_min_x(a, a.last().1@.min_x) == with_min_x(b, a.last().1@.min_x));
            b.lemma_filter_len(has_min_x(a.last().1@.min_x));
        }
        if b.len() > 0 {
            lemma_groups_of_last(b);
            assert(with_min_x(a, b.last().1@.min_x) == with_min_x(b, b.last().1@.min_x));
            a.lemma_filter_len(has_min_x(b.last().1@.min_x));
        }
        assert(a =~= b);
    } else {
        let x = a.last();
        let y = b.last();
        lemma_groups_of_last(a);
        lemma_groups_of_last(b);
        assert(with_min_x(a, x.1@.min_x) == with_min_x(b, x.1@.min_x));
        assert(with_min_x(a, y.1@.min_x) == with_min_x(b, y.1@.min_x));
        lemma_group_has_entry(b, x.1@.min_x);
        lemma_group_has_entry(a, y.1@.min_x);
        assert(x.1@.min_x == y.1@.min_x);
        assert(x == y) by {
            let ga = with_min_x(a.drop_last(), x.1@.min_x);
            let gb = with_min_x(b.drop_last(), x.1@.min_x);
            assert(ga.push(x) == gb.push(y));
            assert(ga.push(x).last() == x);
            assert(gb.push(y).last() == y);
        }
        assert forall|v: int| #[trigger]
            with_min_x(a.drop_last(), v) == with_min_x(b.drop_last(), v) by {
            assert(with_min_x(a, v) == with_min_x(b, v));
            if v == x.1@.min_x {
                let ga = with_min_x(a.drop_last(), v);
                let gb = with_min_x(b.drop_last(), v);
                assert(ga.push(x) == gb.push(y));
                assert(ga.push(x).drop_last() =~= ga);
                assert(gb.push(y).drop_last() =~= gb);
            }
        }
        law_stable_sort_is_unique(a.drop_last(), b.drop_last());
        assert(a =~= a.drop_last().push(x));
        assert(b =~= b.drop_last().push(y));
    }
}

/// A list that is sorted is its own stable sort: sorting it changes nothing.
pub proof fn law_sorting_a_sorted_list_keeps_it(s: Seq<Entry>, out: Seq<Entry>)
    requires
        sorted_by_min_x(s),
        is_stable_sort_of(out, s),
    ensures
        out == s,
{
    law_stable_sort_is_unique(out, s);
}

/// Removing no identity of the list leaves the list as it is.
proof fn lemma_without_strangers(s: Seq<Entry>, removed: Set<u64>)
    requires
        forall|i: int| 0 <= i < s.len() ==> !removed.contains((#[trigger] s[i]).0),
    ensures
        without(s, removed) == s,
    decreases s.len(),
{
    reveal(Seq::filter);
    if s.len() > 0 {
        lemma_without_strangers(s.drop_last(), removed);
        assert(s.drop_last().push(s.last()) =~= s);
    }
}

/// After a removal the list holds an entry just when the list before held it
/// and its identity was not removed.
pub proof fn law_removal_keeps_the_others(s: Seq<Entry>, removed: Set<u64>, e: Entry)
    ensures
        without(s, removed).contains(e) <==> s.contains(e) && !removed.contains(e.0),
{
    let pred = |e: Entry| !removed.contains(e.0);
    let kept = without(s, removed);
    if kept.contains(e) {
        let k = choose|k: int| 0 <= k < kept.len() && kept[k] == e;
        s.lemma_filter_pred(pred, k);
        s.lemma_filter_contains_rev(pred, e);
    }
    if s.contains(e) && !removed.contains(e.0) {
        let k = choose|k: int| 0 <= k < s.len() && s[k] == e;
        s.lemma_filter_contains(pred, k);
    }
}

/// A step on an unchanged population repeats the step before it: where the
/// list is sorted, no body of it is removed, none is added and `aabbs` holds
/// for every body the box that the list has, the step leaves the list as it
/// is, and so finds the same candidate pairs again.
pub proof fn law_unchanged_step_repeats(
    list: Seq<Entry>,
    removed: Seq<u64>,
    aabbs: Map<u64, Aabb>,
    next: Seq<Entry>,
)
    requires
        sorted_by_min_x(list),
        forall|i: int| 0 <= i < list.len() ==> !removed.contains((#[trigger] list[i]).0),
        forall|i: int|
            0 <= i < list.len() ==> aabbs.contains_key((#[trigger] list[i]).0)
                && aabbs[list[i].0] == list[i].1,
        is_stable_sort_of(next, step_input(list, removed, aabbs, Seq::empty())),
    ensures
        next == list,
        candidate_pairs(next) == candidate_pairs(list),
{
    lemma_without_strangers(list, removed.to_set());
    assert(refreshed(list, aabbs) =~= list);
    assert(step_input(list, removed, aabbs, Seq::empty()) =~= list);
    law_stable_sort_is_unique(next, list);
}

/// An entry of one sequence stands somewhere in every permutation of it.
proof fn lemma_permutation_holds(a: Seq<Entry>, b: Seq<Entry>, i: int) -> (k: int)
    requires
        a.to_multiset() == b.to_multiset(),
        0 <= i < a.len(),
    ensures
        0 <= k < b.len(),
        b[k] == a[i],
{
    vstd::seq_lib::to_multiset_contains(a, a[i]);
    vstd::seq_lib::to_multiset_contains(b, a[i]);
    assert(a.contains(a[i]));
    choose|k: int| 0 <= k < b.len() && b[k] == a[i]
}

/// A permutation of entries with distinct identities has distinct identities.
proof fn lemma_permutation_keeps_ids_distinct(a: Seq<Entry>, b: Seq<Entry>)
    requires
        ids(a).no_duplicates(),
        a.to_multiset() == b.to_multiset(),
    ensures
        ids(b).no_duplicates(),
{
    assert(a.no_duplicates()) by {
        assert forall|i: int, j: int| 0 <= i < a.len() && 0 <= j < a.len() && i != j implies a[i]
            != a[j] by {
            assert(ids(a)[i] == a[i].0 && ids(a)[j] == a[j].0);
        }
    }
    a.lemma_multiset_has_no_duplicates();
    b.lemma_multiset_has_no_duplicates_conv();
    assert forall|i: int, j: int|
        0 <= i < ids(b).len() && 0 <= j < ids(b).len() && i != j implies ids(b)[i] != ids(
        b,
    )[j] by {
        let p = lemma_permutation_holds(b, a, i);
        let q = lemma_permutation_holds(b, a, j);
        assert(b[i] != b[j]);
        assert(ids(a)[p] == a[p].0 && ids(a)[q] == a[q].0);
    }
}

/// The entries that a removal keeps have distinct identities where all had.
proof fn lemma_removal_keeps_ids_distinct(s: Seq<Entry>, removed: Set<u64>)
    requires
        ids(s).no_duplicates(),
    ensures
        ids(without(s, removed)).no_duplicates(),
    decreases s.len(),
{
    reveal(Seq::filter);
    if s.len() > 0 {
        let front = s.drop_last();
        assert(ids(front).no_duplicates()) by {
            assert forall|i: int, j: int|
                0 <= i < front.len() && 0 <= j < front.len() && i != j implies ids(front)[i]
                != ids(front)[j] by {
                assert(ids(s)[i] == s[i].0 && ids(s)[j] == s[j].0);
            }
        }
        lemma_removal_keeps_ids_distinct(front, removed);
        let kept = without(front, removed);
        let all = without(s, removed);
        assert forall|i: int, j: int|
            0 <= i < all.len() && 0 <= j < all.len() && i != j implies ids(all)[i] != ids(
            all,
        )[j] by {
            if i < kept.len() && j < kept.len() {
                assert(ids(kept)[i] == kept[i].0 && ids(kept)[j] == kept[j].0);
            } else {
                let inner = if i < kept.len() {
                    i
                } else {
                    j
                };
                law_removal_keeps_the_others(front, removed, kept[inner]);
                assert(kept.contains(kept[inner]));
                let k = choose|k: int| 0 <= k < front.len() && front[k] == kept[inner];
                assert(ids(s)[k] == s[k].0 && ids(s)[s.len() - 1] == s.last().0);
            }
        }
    }
}

/// A step keeps the identities of the list distinct: where no two entries of
/// the list share an identity, no two added entries do, and no added identity
/// is that of a body that stays, no two entries share one after the step.
pub proof fn law_step_keeps_identities_distinct(
    before: Seq<Entry>,
    removed: Seq<u64>,
    aabbs: Map<u64, Aabb>,
    added: Seq<Entry>,
    after: Seq<Entry>,
)
    requires
        ids(before).no_duplicates(),
        ids(added).no_duplicates(),
        forall|i: int, j: int|
            0 <= i < before.len() && 0 <= j < added.len() && (#[trigger] before[i]).0 == (
            #[trigger] added[j]).0 ==> removed.contains(before[i].0),
        after.to_multiset() == step_input(before, removed, aabbs, added).to_multiset(),
    ensures
        ids(after).no_duplicates(),
{
    let kept = without(before, removed.to_set());
    let fresh = refreshed(kept, aabbs);
    let input = step_input(before, removed, aabbs, added);
    lemma_removal_keeps_ids_distinct(before, removed.to_set());
    assert forall|i: int, j: int|
        0 <= i < input.len() && 0 <= j < input.len() && i < j implies ids(input)[i] != ids(
        input,
    )[j] by {
        if j < kept.len() {
            assert(ids(kept)[i] == kept[i].0 && ids(kept)[j] == kept[j].0);
        } else if i >= kept.len() {
            assert(ids(added)[i - kept.len()] == added[i - kept.len()].0);
            assert(ids(added)[j - kept.len()] == added[j - kept.len()].0);
        } else {
            law_removal_keeps_the_others(before, removed.to_set(), kept[i]);
            assert(kept.contains(kept[i]));
            let k = choose|k: int| 0 <= k < before.len() && before[k] == kept[i];
            assert(input[j] == added[j - kept.len()]);
            assert(!removed.contains(before[k].0));
        }
    }
    lemma_permutation_keeps_ids_distinct(input, after);
}

/// No overlap between two bodies of a step is missed: where the boxes of two
/// entries of the list that a step sorts overlap on every axis, the candidate
/// pairs of the sorted list hold the two bodies, in one order or the other.
pub proof fn law_step_pairs_every_overlap(input: Seq<Entry>, after: Seq<Entry>, i: int, j: int)
    requires
        after.to_multiset() == input.to_multiset(),
        0 <= i < input.len(),
        0 <= j < input.len(),
        input[i].0 != input[j].0,
        input[i].1@.overlaps(input[j].1@),
    ensures
        candidate_pairs(after).contains((input[i].0, input[j].0)) || candidate_pairs(
            after,
        ).contains((input[j].0, input[i].0)),
{
    let p = lemma_permutation_holds(input, after, i);
    let q = lemma_permutation_holds(input, after, j);
    if p < q {
        law_overlapping_bodies_are_paired(after, p, q);
    } else {
        law_overlapping_bodies_are_paired(after, q, p);
    }
}

/// A body that a step removes and does not add again is gone after the step:
/// the list holds no entry of it, and no candidate pair names it.
pub proof fn law_removed_body_is_gone(
    before: Seq<Entry>,
    removed: Seq<u64>,
    aabbs: Map<u64, Aabb>,
    added: Seq<Entry>,
    after: Seq<Entry>,
    id: u64,
)
    requires
        removed.contains(id),
        forall|j: int| 0 <= j < added.len() ==> (#[trigger] added[j]).0 != id,
        after.to_multiset() == step_input(before, removed, aabbs, added).to_multiset(),
    ensures
        forall|i: int| 0 <= i < after.len() ==> (#[trigger] after[i]).0 != id,
        forall|k: int|
            0 <= k < candidate_pairs(after).len() ==> (#[trigger] candidate_pairs(after)[k]).0
                != id && candidate_pairs(after)[k].1 != id,
{
    let kept = without(before, removed.to_set());
    let input = step_input(before, removed, aabbs, added);
    assert forall|i: int| 0 <= i < after.len() implies (#[trigger] after[i]).0 != id by {
        let p = lemma_permutation_holds(after, input, i);
        if p < kept.len() {
            before.lemma_filter_pred(|e: Entry| !removed.to_set().contains(e.0), p);
            assert(input[p].0 == kept[p].0);
        } else {
            assert(input[p] == added[p - kept.len()]);
        }
    }
    assert forall|k: int| 0 <= k < candidate_pairs(after).len() implies (#[trigger] candidate_pairs(
        after,
    )[k]).0 != id && candidate_pairs(after)[k].1 != id by {
        law_candidate_pair_overlaps(after, k);
        let (i, j) = choose|i: int, j: int| is_pair_of(after, candidate_pairs(after)[k], i, j);
        assert(after[i].0 != id && after[j].0 != id);
    }
}

} // verus!
