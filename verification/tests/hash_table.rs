use dsa::hash_table::HashTable;

#[test]
fn hash_table_test_new() {
    let table: HashTable<i32, i32> = HashTable::new();
    assert!(table.is_empty());
    assert_eq!(table.len(), 0);
}

#[test]
fn hash_table_test_with_capacity() {
    let table: HashTable<i32, i32> = HashTable::with_capacity(32);
    assert_eq!(table.capacity(), 32);
}

#[test]
fn hash_table_test_default() {
    let table: HashTable<i32, i32> = HashTable::default();
    assert!(table.is_empty());
}

#[test]
fn test_insert_and_get() {
    let mut table = HashTable::new();
    table.insert("key1", 100);
    assert_eq!(table.get(&"key1"), Some(&100));
}

#[test]
fn hash_table_test_insert_multiple() {
    let mut table = HashTable::new();
    table.insert("a", 1);
    table.insert("b", 2);
    table.insert("c", 3);

    assert_eq!(table.get(&"a"), Some(&1));
    assert_eq!(table.get(&"b"), Some(&2));
    assert_eq!(table.get(&"c"), Some(&3));
    assert_eq!(table.len(), 3);
}

#[test]
fn hash_table_test_update() {
    let mut table = HashTable::new();
    assert_eq!(table.insert("key", 100), None);
    assert_eq!(table.insert("key", 200), Some(100));
    assert_eq!(table.get(&"key"), Some(&200));
    assert_eq!(table.len(), 1);
}

#[test]
fn hash_table_test_get_nonexistent() {
    let table: HashTable<&str, i32> = HashTable::new();
    assert_eq!(table.get(&"missing"), None);
}

#[test]
fn hash_table_test_remove() {
    let mut table = HashTable::new();
    table.insert("key", 100);
    assert_eq!(table.remove(&"key"), Some(100));
    assert_eq!(table.get(&"key"), None);
    assert_eq!(table.len(), 0);
}

#[test]
fn hash_table_test_remove_nonexistent() {
    let mut table: HashTable<&str, i32> = HashTable::new();
    assert_eq!(table.remove(&"missing"), None);
}

#[test]
fn test_remove_and_reinsert() {
    let mut table = HashTable::new();
    table.insert("key", 100);
    table.remove(&"key");
    table.insert("key", 200);
    assert_eq!(table.get(&"key"), Some(&200));
}

#[test]
fn hash_table_test_contains() {
    let mut table = HashTable::new();
    table.insert("key", 100);
    assert!(table.contains(&"key"));
    assert!(!table.contains(&"missing"));
}

#[test]
fn test_resize() {
    let mut table = HashTable::with_capacity(4);

    for i in 0..20 {
        table.insert(i, i * 10);
    }

    assert!(table.capacity() > 4);

    for i in 0..20 {
        assert_eq!(table.get(&i), Some(&(i * 10)));
    }
}

#[test]
fn hash_table_test_clear() {
    let mut table = HashTable::new();
    table.insert("a", 1);
    table.insert("b", 2);
    table.clear();

    assert!(table.is_empty());
    assert_eq!(table.get(&"a"), None);
}

#[test]
fn hash_table_test_keys() {
    let mut table = HashTable::new();
    table.insert(1, 10);
    table.insert(2, 20);

    let mut keys: Vec<_> = table.keys();
    keys.sort();
    assert_eq!(keys, vec![1, 2]);
}

#[test]
fn test_values() {
    let mut table = HashTable::new();
    table.insert(1, 10);
    table.insert(2, 20);

    let mut values: Vec<_> = table.values();
    values.sort();
    assert_eq!(values, vec![10, 20]);
}

#[test]
fn hash_table_test_iter() {
    let mut table = HashTable::new();
    table.insert(1, 10);
    table.insert(2, 20);

    let items: Vec<_> = table.iter();
    assert_eq!(items.len(), 2);
}

#[test]
fn test_collision_handling() {
    // Insert many items to force collisions
    let mut table = HashTable::with_capacity(4);

    for i in 0..10 {
        table.insert(i, i * 100);
    }

    for i in 0..10 {
        assert_eq!(table.get(&i), Some(&(i * 100)));
    }
}
