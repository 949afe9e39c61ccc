use dsa::union_find::UnionFind;

#[test]
fn union_find_test_new() {
    let uf = UnionFind::new(5);
    assert_eq!(uf.len(), 5);
    assert_eq!(uf.count(), 5);
}

#[test]
fn union_find_test_empty() {
    let uf = UnionFind::new(0);
    assert!(uf.is_empty());
    assert_eq!(uf.count(), 0);
}

#[test]
fn union_find_test_default() {
    let uf = UnionFind::default();
    assert!(uf.is_empty());
}

#[test]
fn test_find_initial() {
    let mut uf = UnionFind::new(5);
    for i in 0..5 {
        assert_eq!(uf.find(i), i);
    }
}

#[test]
fn test_find_after_union() {
    let mut uf = UnionFind::new(5);
    uf.union(0, 1);
    assert_eq!(uf.find(0), uf.find(1));
}

#[test]
fn test_find_immutable() {
    let uf = UnionFind::new(5);
    for i in 0..5 {
        assert_eq!(uf.find_immutable(i), i);
    }
}

#[test]
fn test_union_separate_sets() {
    let mut uf = UnionFind::new(5);
    assert!(uf.union(0, 1)); // Should return true for new union
    assert_eq!(uf.count(), 4);
}

#[test]
fn test_union_same_set() {
    let mut uf = UnionFind::new(5);
    uf.union(0, 1);
    assert!(!uf.union(0, 1)); // Should return false, already same set
    assert_eq!(uf.count(), 4);
}

#[test]
fn test_union_chain() {
    let mut uf = UnionFind::new(5);
    uf.union(0, 1);
    uf.union(1, 2);
    uf.union(2, 3);
    uf.union(3, 4);
    assert_eq!(uf.count(), 1);
    assert!(uf.connected(0, 4));
}

#[test]
fn test_union_all() {
    let mut uf = UnionFind::new(10);
    for i in 0..9 {
        uf.union(i, i + 1);
    }
    assert_eq!(uf.count(), 1);
}

#[test]
fn test_connected_initial() {
    let mut uf = UnionFind::new(5);
    assert!(uf.connected(0, 0)); // Same element
    assert!(!uf.connected(0, 1)); // Different sets
}

#[test]
fn test_connected_after_union() {
    let mut uf = UnionFind::new(5);
    uf.union(0, 1);
    uf.union(2, 3);

    assert!(uf.connected(0, 1));
    assert!(uf.connected(2, 3));
    assert!(!uf.connected(0, 2));
    assert!(!uf.connected(1, 3));
}

#[test]
fn test_connected_transitive() {
    let mut uf = UnionFind::new(5);
    uf.union(0, 1);
    uf.union(1, 2);

    assert!(uf.connected(0, 2)); // Transitively connected
}

#[test]
fn test_connected_immutable() {
    let mut uf = UnionFind::new(5);
    uf.union(0, 1);

    assert!(uf.connected_immutable(0, 1));
    assert!(!uf.connected_immutable(0, 2));
}

#[test]
fn test_set_size() {
    let mut uf = UnionFind::new(5);
    assert_eq!(uf.set_size(0), 1);

    uf.union(0, 1);
    assert_eq!(uf.set_size(0), 2);
    assert_eq!(uf.set_size(1), 2);

    uf.union(0, 2);
    assert_eq!(uf.set_size(0), 3);
}

#[test]
fn test_get_set() {
    let mut uf = UnionFind::new(5);
    uf.union(0, 1);
    uf.union(0, 2);

    let set = uf.get_set(1);
    assert_eq!(set.len(), 3);
    assert!(set.contains(&0));
    assert!(set.contains(&1));
    assert!(set.contains(&2));
}

#[test]
fn test_all_sets() {
    let mut uf = UnionFind::new(5);
    uf.union(0, 1);
    uf.union(2, 3);

    let sets = uf.all_sets();
    assert_eq!(sets.len(), 3); // {0,1}, {2,3}, {4}
}

#[test]
fn test_reset() {
    let mut uf = UnionFind::new(5);
    uf.union(0, 1);
    uf.union(2, 3);
    assert_eq!(uf.count(), 3);

    uf.reset();
    assert_eq!(uf.count(), 5);
    assert!(!uf.connected(0, 1));
}

#[test]
fn union_find_test_single_element() {
    let mut uf = UnionFind::new(1);
    assert_eq!(uf.count(), 1);
    assert_eq!(uf.find(0), 0);
}

#[test]
fn union_find_test_two_elements() {
    let mut uf = UnionFind::new(2);
    assert!(!uf.connected(0, 1));
    uf.union(0, 1);
    assert!(uf.connected(0, 1));
    assert_eq!(uf.count(), 1);
}

#[test]
fn test_large_union_find() {
    let n = 1000;
    let mut uf = UnionFind::new(n);

    // Union all even numbers together
    for i in (2..n).step_by(2) {
        uf.union(0, i);
    }

    // Union all odd numbers together
    for i in (3..n).step_by(2) {
        uf.union(1, i);
    }

    assert_eq!(uf.count(), 2);
    assert!(uf.connected(0, 100));
    assert!(uf.connected(1, 101));
    assert!(!uf.connected(0, 1));
}

#[test]
fn test_path_compression() {
    let mut uf = UnionFind::new(10);

    // Create a long chain
    for i in 0..9 {
        uf.union(i, i + 1);
    }

    // After find, paths should be compressed
    uf.find(9);

    // Check that the tree is now flatter
    // (implementation detail, but we can verify connectivity works)
    assert!(uf.connected(0, 9));
}
