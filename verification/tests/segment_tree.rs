use dsa::segment_tree::SegmentTree;
use dsa::segment_tree::LazySegmentTree;

fn smallest(a: &i64, b: &i64) -> i64 {
    if *a < *b { *a } else { *b }
}

#[test]
fn segment_tree_point_updates_and_queries() {
    let vals = vec![5i64, 2, 7, 1, 9];
    let mut t = SegmentTree::from_slice(&vals, smallest, i64::MAX);
    assert_eq!(t.len(), 5);
    assert_eq!(t.query(0, 5), 1);
    assert_eq!(t.query(0, 2), 2);
    assert_eq!(t.query(2, 3), 7);
    assert_eq!(t.query(3, 3), i64::MAX);
    assert_eq!(t.get(2), Some(&7));
    t.update(3, 8);
    assert_eq!(t.query(0, 5), 2);
    assert_eq!(t.query(3, 5), 8);
}

#[test]
fn segment_tree_empty_input() {
    let vals: Vec<i64> = vec![];
    let t = SegmentTree::from_slice(&vals, smallest, i64::MAX);
    assert!(t.is_empty());
    assert_eq!(t.query(0, 1), i64::MAX);
    assert_eq!(t.get(0), None);
}

#[test]
fn lazy_segment_tree_range_adds() {
    let mut t = LazySegmentTree::from_slice(&vec![1i64, 2, 3, 4]);
    assert_eq!(t.query(0, 4), 10);
    assert_eq!(t.query(1, 3), 5);
    t.range_add(0, 2, 10);
    assert_eq!(t.query(0, 4), 30);
    assert_eq!(t.query(0, 1), 11);
    assert_eq!(t.query(1, 2), 12);
    t.range_add(1, 4, -2);
    assert_eq!(t.query(0, 4), 24);
    assert_eq!(t.query(3, 4), 2);
}

#[test]
fn lazy_segment_tree_pads_to_power_of_two() {
    let mut t = LazySegmentTree::from_slice(&vec![1i64, 1, 1]);
    assert_eq!(t.len(), 4);
    assert_eq!(t.query(0, 3), 3);
    assert_eq!(t.query(0, 4), 3);
    let mut z = LazySegmentTree::new(5);
    assert_eq!(z.len(), 8);
    z.range_add(0, 5, 2);
    assert_eq!(z.query(0, 8), 10);
}
