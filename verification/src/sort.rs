//! The incremental sorter: a stable insertion sort of the interval list by `min_x`.

use crate::intervals::Entry;
use vstd::pervasive::VecAdditionalExecFns;
use vstd::prelude::*;

verus! {

/// The entries stand in non-decreasing order of `min_x`.
pub open spec fn sorted_by_min_x(s: Seq<Entry>) -> bool {
    forall|i: int, j: int| 0 <= i <= j < s.len() ==> s[i].1@.min_x <= s[j].1@.min_x
}

/// The test that an entry's `min_x` is `v`.
pub open spec fn has_min_x(v: int) -> spec_fn(Entry) -> bool {
    |e: Entry| e.1@.min_x == v
}

/// The entries of `s` whose `min_x` is `v`, in the order of `s`.
pub open spec fn with_min_x(s: Seq<Entry>, v: int) -> Seq<Entry> {
    s.filter(has_min_x(v))
}

/// For every `v`, the two sequences hold the same entries with `min_x == v`,
/// in the same order.
pub open spec fn same_groups(a: Seq<Entry>, b: Seq<Entry>) -> bool {
    forall|v: int| #[trigger] with_min_x(a, v) == with_min_x(b, v)
}

/// `out` is `input` sorted by `min_x`, with entries of equal `min_x` in the
/// order that they had in `input`.
pub open spec fn is_stable_sort_of(out: Seq<Entry>, input: Seq<Entry>) -> bool {
    sorted_by_min_x(out) && same_groups(out, input)
}

proof fn lemma_filter_one(x: Entry, pred: spec_fn(Entry) -> bool)
    ensures
        seq![x].filter(pred) == if pred(x) {
            seq![x]
        } else {
            Seq::<Entry>::empty()
        },
{
    reveal_with_fuel(Seq::filter, 2);
    assert(seq![x].drop_last() =~= Seq::<Entry>::empty());
    assert(Seq::<Entry>::empty().push(x) =~= seq![x]);
}

/// Exchanging two neighbours of different `min_x` changes no group.
proof fn lemma_exchange_keeps_groups(s: Seq<Entry>, k: int)
    requires
        0 < k < s.len(),
        s[k - 1].1@.min_x != s[k].1@.min_x,
    ensures
        same_groups(s.update(k - 1, s[k]).update(k, s[k - 1]), s),
{
    let t = s.update(k - 1, s[k]).update(k, s[k - 1]);
    let head = s.take(k - 1);
    let tail = s.skip(k + 1);
    let x = s[k - 1];
    let y = s[k];
    assert(s =~= head + seq![x] + seq![y] + tail);
    assert(t =~= head + seq![y] + seq![x] + tail);
    assert forall|v: int| #[trigger] with_min_x(t, v) == with_min_x(s, v) by {
        let p = has_min_x(v);
        Seq::filter_distributes_over_add(head + seq![x] + seq![y], tail, p);
        Seq::filter_distributes_over_add(head + seq![x], seq![y], p);
        Seq::filter_distributes_over_add(head, seq![x], p);
        Seq::filter_distributes_over_add(head + seq![y] + seq![x], tail, p);
        Seq::filter_distributes_over_add(head + seq![y], seq![x], p);
        Seq::filter_distributes_over_add(head, seq![y], p);
        lemma_filter_one(x, p);
        lemma_filter_one(y, p);
        assert(!(p(x) && p(y)));
        assert(head.filter(p) + seq![x].filter(p) + seq![y].filter(p) =~= head.filter(p)
            + seq![y].filter(p) + seq![x].filter(p));
    }
}

/// Exchanging two neighbours leaves the multiset of the entries as it was.
proof fn lemma_exchange_keeps_multiset(s: Seq<Entry>, k: int)
    requires
        0 < k < s.len(),
    ensures
        s.update(k - 1, s[k]).update(k, s[k - 1]).to_multiset() == s.to_multiset(),
{
    broadcast use vstd::multiset::group_multiset_axioms;

    let x = s[k - 1];
    let y = s[k];
    let mid = s.update(k - 1, y);
    vstd::seq_lib::to_multiset_update(s, k - 1, y);
    vstd::seq_lib::to_multiset_update(mid, k, x);
    vstd::seq_lib::to_multiset_contains(s, x);
    assert(s.contains(x));
    let m = s.to_multiset();
    assert(m.count(x) > 0);
    assert(m.insert(y).remove(x).insert(x).remove(y) =~= m);
}

/// Sorts the entries by `min_x`. An entry moves down past its left neighbour
/// only while that neighbour's `min_x` is strictly greater, so entries of equal
/// `min_x` keep their order. The sort runs in place.
pub fn insertion_sort(items: &mut Vec<Entry>)
    ensures
        is_stable_sort_of(final(items)@, old(items)@),
        final(items)@.to_multiset() == old(items)@.to_multiset(),
{
    let ghost before = items@;
    let n = items.len();
    let mut i: usize = 1;
    while i < n
        invariant
            items.len() == n,
            1 <= i,
            forall|a: int, b: int|
                0 <= a <= b < i && b < n ==> items@[a].1@.min_x <= items@[b].1@.min_x,
            same_groups(items@, before),
            items@.to_multiset() == before.to_multiset(),
        decreases n - i,
    {
        let mut j: usize = i;
        while j > 0 && items[j - 1].1.min_x() > items[j].1.min_x()
            invariant
                items.len() == n,
                j <= i < n,
                same_groups(items@, before),
                items@.to_multiset() == before.to_multiset(),
                forall|a: int, b: int|
                    0 <= a <= b <= i && a != j && b != j ==> items@[a].1@.min_x
                        <= items@[b].1@.min_x,
                forall|b: int| j < b <= i ==> items@[j as int].1@.min_x < items@[b].1@.min_x,
            decreases j,
        {
            let ghost s = items@;
            let lower = items[j - 1];
            let upper = items[j];
            items.set(j - 1, upper);
            items.set(j, lower);
            proof {
                lemma_exchange_keeps_groups(s, j as int);
                lemma_exchange_keeps_multiset(s, j as int);
                assert forall|v: int| #[trigger] with_min_x(items@, v) == with_min_x(before, v) by {
                    assert(with_min_x(items@, v) == with_min_x(s, v));
                    assert(with_min_x(s, v) == with_min_x(before, v));
                }
            }
            j -= 1;
        }
        proof {
            assert forall|a: int, b: int| 0 <= a <= b < i + 1 && b < n implies items@[a].1@.min_x
                <= items@[b].1@.min_x by {
                if a < j && b == j {
                    assert(items@[a].1@.min_x <= items@[j - 1].1@.min_x);
                }
            }
        }
        i += 1;
    }
}

} // verus!
