use broad_phase::aabb::Aabb;
use broad_phase::id_set::IdSet;
use broad_phase::intervals::{
    add_new_aabb_intervals, remove_old_aabb_intervals, retain_absent, update_aabb_intervals,
    AabbIntervals,
};
use broad_phase::sort::insertion_sort;
use std::collections::HashMap;

fn at(x: i64) -> Aabb {
    Aabb::planar(x, 0, x + 1, 1).unwrap()
}

fn five() -> AabbIntervals {
    AabbIntervals(vec![(10, at(0)), (11, at(1)), (12, at(2)), (13, at(3)), (14, at(4))])
}

#[test]
fn removal_keeps_the_others_in_order() {
    let mut intervals = five();
    remove_old_aabb_intervals(&vec![13, 10], &mut intervals);
    assert_eq!(intervals.0, vec![(11, at(1)), (12, at(2)), (14, at(4))]);
}

#[test]
fn removal_of_an_unknown_identity_changes_nothing() {
    let mut intervals = five();
    remove_old_aabb_intervals(&vec![99, 0, u64::MAX], &mut intervals);
    assert_eq!(intervals.0, five().0);
}

#[test]
fn removal_of_nothing_changes_nothing() {
    let mut intervals = five();
    remove_old_aabb_intervals(&Vec::new(), &mut intervals);
    assert_eq!(intervals.0, five().0);
}

#[test]
fn removal_of_everything_empties_the_list() {
    let mut intervals = five();
    remove_old_aabb_intervals(&vec![14, 13, 12, 11, 10, 10, 12], &mut intervals);
    assert!(intervals.0.is_empty());
}

#[test]
fn removal_from_an_empty_list() {
    let mut intervals = AabbIntervals(Vec::new());
    remove_old_aabb_intervals(&vec![1, 2], &mut intervals);
    assert!(intervals.0.is_empty());
}

#[test]
fn removal_takes_every_entry_of_an_identity() {
    let mut intervals = AabbIntervals(vec![(1, at(0)), (2, at(1)), (1, at(2)), (3, at(3))]);
    remove_old_aabb_intervals(&vec![1], &mut intervals);
    assert_eq!(intervals.0, vec![(2, at(1)), (3, at(3))]);
}

#[test]
fn a_repeated_removal_counts_once() {
    let mut intervals = five();
    remove_old_aabb_intervals(&vec![11, 11, 11], &mut intervals);
    assert_eq!(intervals.0, vec![(10, at(0)), (12, at(2)), (13, at(3)), (14, at(4))]);
}

#[test]
fn retain_absent_goes_by_the_set() {
    let removed = IdSet::collect(&vec![12, 14, 7]);
    let mut items = five().0;
    retain_absent(&mut items, &removed);
    assert_eq!(items, vec![(10, at(0)), (11, at(1)), (13, at(3))]);
    let none = IdSet::collect(&Vec::new());
    retain_absent(&mut items, &none);
    assert_eq!(items, vec![(10, at(0)), (11, at(1)), (13, at(3))]);
}

#[test]
fn update_gives_every_entry_its_current_box() {
    let mut intervals = AabbIntervals(vec![(1, at(0)), (2, at(10)), (3, at(20))]);
    let mut aabbs = HashMap::new();
    aabbs.insert(1, at(7));
    aabbs.insert(2, at(10));
    aabbs.insert(3, at(-4));
    aabbs.insert(4, at(100));
    update_aabb_intervals(&aabbs, &mut intervals);
    assert_eq!(intervals.0, vec![(1, at(7)), (2, at(10)), (3, at(-4))]);
}

#[test]
fn update_of_an_empty_list() {
    let mut intervals = AabbIntervals(Vec::new());
    let aabbs = HashMap::new();
    update_aabb_intervals(&aabbs, &mut intervals);
    assert!(intervals.0.is_empty());
}

#[test]
fn new_entries_go_to_the_end_unsorted() {
    let mut intervals = AabbIntervals(vec![(1, at(5)), (2, at(9))]);
    add_new_aabb_intervals(&vec![(3, at(7)), (4, at(0))], &mut intervals);
    assert_eq!(intervals.0, vec![(1, at(5)), (2, at(9)), (3, at(7)), (4, at(0))]);
    add_new_aabb_intervals(&Vec::new(), &mut intervals);
    assert_eq!(intervals.0.len(), 4);
}

#[test]
fn sort_orders_by_min_x() {
    let mut items = vec![(1, at(5)), (2, at(-3)), (3, at(9)), (4, at(0)), (5, at(-8))];
    insertion_sort(&mut items);
    assert_eq!(items, vec![(5, at(-8)), (2, at(-3)), (4, at(0)), (1, at(5)), (3, at(9))]);
}

#[test]
fn sort_of_any_permutation_gives_the_same_order() {
    let sorted = vec![(1, at(0)), (2, at(1)), (3, at(2)), (4, at(3))];
    let orders = [
        [0, 1, 2, 3], [0, 1, 3, 2], [0, 2, 1, 3], [0, 2, 3, 1], [0, 3, 1, 2], [0, 3, 2, 1],
        [1, 0, 2, 3], [1, 0, 3, 2], [1, 2, 0, 3], [1, 2, 3, 0], [1, 3, 0, 2], [1, 3, 2, 0],
        [2, 0, 1, 3], [2, 0, 3, 1], [2, 1, 0, 3], [2, 1, 3, 0], [2, 3, 0, 1], [2, 3, 1, 0],
        [3, 0, 1, 2], [3, 0, 2, 1], [3, 1, 0, 2], [3, 1, 2, 0], [3, 2, 0, 1], [3, 2, 1, 0],
    ];
    for order in orders {
        let mut items: Vec<(u64, Aabb)> = order.iter().map(|&k| sorted[k]).collect();
        insertion_sort(&mut items);
        assert_eq!(items, sorted);
    }
}

#[test]
fn sort_keeps_ties_in_their_order() {
    let wide = |x: i64, y: i64| Aabb::planar(x, y, x + 100, y).unwrap();
    let mut items = vec![
        (1, wide(5, 1)),
        (2, wide(3, 2)),
        (3, wide(5, 3)),
        (4, wide(3, 4)),
        (5, wide(5, 5)),
        (6, wide(1, 6)),
        (7, wide(3, 7)),
    ];
    insertion_sort(&mut items);
    let order: Vec<u64> = items.iter().map(|e| e.0).collect();
    assert_eq!(order, vec![6, 2, 4, 7, 1, 3, 5]);
}

#[test]
fn sort_goes_by_min_x_alone() {
    let mut items = vec![
        (1, Aabb::spatial(2, -9, -9, 3, 0, 0).unwrap()),
        (2, Aabb::spatial(1, 50, 50, 90, 60, 60).unwrap()),
        (3, Aabb::spatial(0, 7, 7, 1, 8, 8).unwrap()),
    ];
    insertion_sort(&mut items);
    let order: Vec<u64> = items.iter().map(|e| e.0).collect();
    assert_eq!(order, vec![3, 2, 1]);
}

#[test]
fn sort_of_short_lists() {
    let mut none: Vec<(u64, Aabb)> = Vec::new();
    insertion_sort(&mut none);
    assert!(none.is_empty());
    let mut one = vec![(1, at(3))];
    insertion_sort(&mut one);
    assert_eq!(one, vec![(1, at(3))]);
    let mut two = vec![(1, at(3)), (2, at(2))];
    insertion_sort(&mut two);
    assert_eq!(two, vec![(2, at(2)), (1, at(3))]);
}

#[test]
fn sort_of_a_sorted_list_changes_nothing() {
    let mut items = five().0;
    insertion_sort(&mut items);
    assert_eq!(items, five().0);
}

#[test]
fn sort_handles_the_extremes() {
    let mut items = vec![
        (1, Aabb::planar(i64::MAX, 0, i64::MAX, 0).unwrap()),
        (2, Aabb::planar(i64::MIN, 0, i64::MAX, 0).unwrap()),
        (3, Aabb::planar(0, 0, 0, 0).unwrap()),
    ];
    insertion_sort(&mut items);
    let order: Vec<u64> = items.iter().map(|e| e.0).collect();
    assert_eq!(order, vec![2, 3, 1]);
}
