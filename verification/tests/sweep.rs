use broad_phase::aabb::Aabb;
use broad_phase::intervals::AabbIntervals;
use broad_phase::sweep::{collect_collision_pairs, sweep_and_prune, BroadCollisionPairs};

const A: u64 = 1;
const B: u64 = 2;
const C: u64 = 3;

fn square(min: i64, max: i64) -> Aabb {
    Aabb::planar(min, min, max, max).unwrap()
}

fn planar(min_x: i64, min_y: i64, max_x: i64, max_y: i64) -> Aabb {
    Aabb::planar(min_x, min_y, max_x, max_y).unwrap()
}

fn spatial(min_x: i64, min_y: i64, min_z: i64, max_x: i64, max_y: i64, max_z: i64) -> Aabb {
    Aabb::spatial(min_x, min_y, min_z, max_x, max_y, max_z).unwrap()
}

#[test]
fn three_bodies_give_one_pair() {
    let mut intervals = AabbIntervals(vec![
        (A, square(0, 10)),
        (B, square(5, 15)),
        (C, square(20, 30)),
    ]);
    let mut pairs = Vec::new();
    sweep_and_prune(&mut intervals, &mut pairs);
    assert_eq!(pairs, vec![(A, B)]);
}

#[test]
fn three_bodies_give_one_pair_in_any_order_of_the_list() {
    let mut intervals = AabbIntervals(vec![
        (C, square(20, 30)),
        (B, square(5, 15)),
        (A, square(0, 10)),
    ]);
    let mut pairs = Vec::new();
    sweep_and_prune(&mut intervals, &mut pairs);
    assert_eq!(pairs, vec![(A, B)]);
    let order: Vec<u64> = intervals.0.iter().map(|e| e.0).collect();
    assert_eq!(order, vec![A, B, C]);
}

#[test]
fn touching_boxes_are_paired() {
    let mut intervals = AabbIntervals(vec![(A, square(0, 10)), (B, square(10, 20))]);
    let mut pairs = Vec::new();
    sweep_and_prune(&mut intervals, &mut pairs);
    assert_eq!(pairs, vec![(A, B)]);
}

#[test]
fn touching_boxes_are_paired_on_three_axes() {
    let mut intervals = AabbIntervals(vec![
        (A, spatial(0, 0, 0, 10, 10, 10)),
        (B, spatial(10, 10, 10, 20, 20, 20)),
    ]);
    let mut pairs = Vec::new();
    sweep_and_prune(&mut intervals, &mut pairs);
    assert_eq!(pairs, vec![(A, B)]);
}

#[test]
fn boxes_one_apart_are_not_paired() {
    let mut intervals = AabbIntervals(vec![(A, square(0, 10)), (B, square(11, 20))]);
    let mut pairs = Vec::new();
    sweep_and_prune(&mut intervals, &mut pairs);
    assert!(pairs.is_empty());
}

#[test]
fn empty_list_gives_no_pair() {
    let mut intervals = AabbIntervals(Vec::new());
    let mut pairs = vec![(7, 8)];
    sweep_and_prune(&mut intervals, &mut pairs);
    assert!(pairs.is_empty());
    assert!(intervals.0.is_empty());
}

#[test]
fn single_entry_gives_no_pair() {
    let mut intervals = AabbIntervals(vec![(A, square(0, 10))]);
    let mut pairs = vec![(7, 8)];
    sweep_and_prune(&mut intervals, &mut pairs);
    assert!(pairs.is_empty());
    assert_eq!(intervals.0, vec![(A, square(0, 10))]);
}

#[test]
fn earlier_pairs_are_discarded() {
    let mut intervals = AabbIntervals(vec![(A, square(0, 10)), (B, square(5, 15))]);
    let mut pairs = vec![(40, 41), (42, 43), (44, 45)];
    sweep_and_prune(&mut intervals, &mut pairs);
    assert_eq!(pairs, vec![(A, B)]);
}

#[test]
fn a_miss_on_y_does_not_end_the_scan() {
    let mut intervals = AabbIntervals(vec![
        (A, planar(0, 0, 10, 10)),
        (B, planar(1, 50, 2, 60)),
        (C, planar(3, 0, 4, 5)),
    ]);
    let mut pairs = Vec::new();
    sweep_and_prune(&mut intervals, &mut pairs);
    assert_eq!(pairs, vec![(A, C)]);
}

#[test]
fn a_miss_on_z_does_not_end_the_scan() {
    let mut intervals = AabbIntervals(vec![
        (A, spatial(0, 0, 0, 10, 10, 10)),
        (B, spatial(1, 0, 11, 2, 10, 20)),
        (C, spatial(3, 0, 10, 4, 10, 12)),
    ]);
    let mut pairs = Vec::new();
    sweep_and_prune(&mut intervals, &mut pairs);
    assert_eq!(pairs, vec![(A, C)]);
}

#[test]
fn a_miss_on_x_ends_the_scan_of_that_entry_only() {
    let mut intervals = AabbIntervals(vec![
        (A, planar(0, 0, 2, 10)),
        (B, planar(1, 0, 20, 10)),
        (C, planar(5, 0, 6, 10)),
        (4, planar(7, 0, 8, 10)),
    ]);
    let mut pairs = Vec::new();
    sweep_and_prune(&mut intervals, &mut pairs);
    assert_eq!(pairs, vec![(A, B), (B, C), (B, 4)]);
}

#[test]
fn pairs_come_row_by_row() {
    let mut intervals = AabbIntervals(vec![
        (4, square(3, 10)),
        (C, square(2, 10)),
        (B, square(1, 10)),
        (A, square(0, 10)),
    ]);
    let mut pairs = Vec::new();
    sweep_and_prune(&mut intervals, &mut pairs);
    assert_eq!(pairs, vec![(A, B), (A, C), (A, 4), (B, C), (B, 4), (C, 4)]);
}

#[test]
fn planar_boxes_meet_on_z() {
    let a = planar(0, 0, 10, 10);
    assert_eq!((a.min_z(), a.max_z()), (0, 0));
    let mut intervals = AabbIntervals(vec![
        (A, planar(0, 0, 10, 10)),
        (B, spatial(5, 5, -3, 15, 15, 0)),
        (C, spatial(5, 5, 1, 15, 15, 4)),
    ]);
    let mut pairs = Vec::new();
    sweep_and_prune(&mut intervals, &mut pairs);
    assert_eq!(pairs, vec![(A, B)]);
}

#[test]
fn no_pair_names_one_body_twice_and_none_comes_twice() {
    let mut entries = Vec::new();
    for k in 0..12u64 {
        let lo = (k as i64 * 7) % 20;
        entries.push((k, planar(lo, lo / 2, lo + 6, lo / 2 + 9)));
    }
    let mut intervals = AabbIntervals(entries);
    let mut pairs = Vec::new();
    sweep_and_prune(&mut intervals, &mut pairs);
    assert!(!pairs.is_empty());
    for (n, p) in pairs.iter().enumerate() {
        assert_ne!(p.0, p.1);
        for q in &pairs[n + 1..] {
            assert!(p != q && (p.0, p.1) != (q.1, q.0));
        }
    }
}

#[test]
fn every_overlap_is_found() {
    let mut entries = Vec::new();
    for k in 0..15u64 {
        let x = (k as i64 * 11) % 31;
        let y = (k as i64 * 5) % 17;
        let z = (k as i64 * 3) % 7;
        entries.push((k, spatial(x, y, z, x + 8, y + 6, z + 2)));
    }
    let mut intervals = AabbIntervals(entries.clone());
    let mut pairs = Vec::new();
    sweep_and_prune(&mut intervals, &mut pairs);
    let mut expected = 0;
    for i in 0..entries.len() {
        for j in i + 1..entries.len() {
            let (a, b) = (entries[i], entries[j]);
            let listed = pairs.contains(&(a.0, b.0)) || pairs.contains(&(b.0, a.0));
            assert_eq!(listed, a.1.intersects(&b.1));
            if listed {
                expected += 1;
            }
        }
    }
    assert_eq!(pairs.len(), expected);
}

#[test]
fn collect_collision_pairs_fills_the_resource() {
    let mut intervals = AabbIntervals(vec![
        (B, square(5, 15)),
        (A, square(0, 10)),
        (C, square(20, 30)),
    ]);
    let mut pairs = BroadCollisionPairs(vec![(9, 9)]);
    collect_collision_pairs(&mut intervals, &mut pairs);
    assert_eq!(pairs.0, vec![(A, B)]);
    assert_eq!(
        intervals.0,
        vec![(A, square(0, 10)), (B, square(5, 15)), (C, square(20, 30))]
    );
}

#[test]
fn defaults_are_empty() {
    assert!(BroadCollisionPairs::default().0.is_empty());
    assert!(AabbIntervals::default().0.is_empty());
}
