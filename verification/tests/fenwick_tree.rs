use dsa::fenwick_tree::FenwickTree;
use dsa::fenwick_tree::FenwickTree2D;

#[test]
fn fenwick_prefix_and_range_sums() {
    let mut t = FenwickTree::new(8);
    for i in 1..=8 {
        t.update(i, i as i64);
    }
    assert_eq!(t.prefix_sum(4), 10);
    assert_eq!(t.prefix_sum(8), 36);
    assert_eq!(t.range_sum(3, 5), 12);
    assert_eq!(t.get(6), 6);
    t.set(6, 0);
    assert_eq!(t.get(6), 0);
    assert_eq!(t.prefix_sum(8), 30);
}

#[test]
fn fenwick_from_slice_matches_updates() {
    let vals = vec![5, -2, 7, 0, 3];
    let t = FenwickTree::from_slice(&vals);
    assert_eq!(t.len(), 5);
    let mut u = FenwickTree::new(5);
    for (i, v) in vals.iter().enumerate() {
        u.update(i + 1, *v);
    }
    for i in 0..=5 {
        assert_eq!(t.prefix_sum(i), u.prefix_sum(i));
    }
    assert_eq!(t.prefix_sum(5), 13);
}

#[test]
fn fenwick_lower_bound_finds_first_reaching_position() {
    let mut t = FenwickTree::new(5);
    for i in 1..=5 {
        t.update(i, 2);
    }
    assert_eq!(t.lower_bound(0), 0);
    assert_eq!(t.lower_bound(1), 1);
    assert_eq!(t.lower_bound(2), 1);
    assert_eq!(t.lower_bound(3), 2);
    assert_eq!(t.lower_bound(10), 5);
    assert_eq!(t.lower_bound(11), 6);
}

#[test]
fn fenwick_2d_block_sums() {
    let matrix = vec![
        vec![1, 2, 3],
        vec![4, 5, 6],
        vec![7, 8, 9],
    ];
    let t = FenwickTree2D::from_matrix(&matrix);
    assert_eq!(t.prefix_sum(3, 3), 45);
    assert_eq!(t.prefix_sum(2, 2), 12);
    assert_eq!(t.range_sum(2, 2, 3, 3), 28);
    assert_eq!(t.range_sum(1, 1, 1, 3), 6);
}

#[test]
fn fenwick_2d_update_shifts_sums() {
    let mut t = FenwickTree2D::new(2, 2);
    t.update(1, 1, 10);
    t.update(2, 2, 5);
    assert_eq!(t.prefix_sum(2, 2), 15);
    assert_eq!(t.range_sum(2, 2, 2, 2), 5);
    t.update(2, 2, -5);
    assert_eq!(t.prefix_sum(2, 2), 10);
}
