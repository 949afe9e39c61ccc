use dsa::lru_cache::LRUCache;

#[test]
fn lru_cache_test_new() {
    let cache: LRUCache<i32, i32> = LRUCache::new(10);
    assert_eq!(cache.capacity(), 10);
    assert_eq!(cache.len(), 0);
    assert!(cache.is_empty());
}

#[test]
fn test_len_and_empty() {
    let mut cache = LRUCache::new(10);
    assert!(cache.is_empty());
    assert_eq!(cache.len(), 0);

    cache.put("a", 1);
    assert!(!cache.is_empty());
    assert_eq!(cache.len(), 1);

    cache.put("b", 2);
    assert_eq!(cache.len(), 2);
}

#[test]
fn test_is_full() {
    let mut cache = LRUCache::new(2);
    assert!(!cache.is_full());

    cache.put("a", 1);
    assert!(!cache.is_full());

    cache.put("b", 2);
    assert!(cache.is_full());
}

#[test]
fn test_put_single() {
    let mut cache = LRUCache::new(10);
    cache.put("a", 1);
    assert_eq!(cache.get(&"a"), Some(&1));
}

#[test]
fn test_put_multiple() {
    let mut cache = LRUCache::new(10);
    cache.put("a", 1);
    cache.put("b", 2);
    cache.put("c", 3);

    assert_eq!(cache.get(&"a"), Some(&1));
    assert_eq!(cache.get(&"b"), Some(&2));
    assert_eq!(cache.get(&"c"), Some(&3));
}

#[test]
fn test_put_update() {
    let mut cache = LRUCache::new(10);
    cache.put("a", 1);
    assert_eq!(cache.get(&"a"), Some(&1));

    cache.put("a", 100);
    assert_eq!(cache.get(&"a"), Some(&100));
    assert_eq!(cache.len(), 1);
}

#[test]
fn lru_cache_test_get_nonexistent() {
    let mut cache: LRUCache<&str, i32> = LRUCache::new(10);
    assert_eq!(cache.get(&"a"), None);
}

#[test]
fn test_eviction_on_capacity() {
    let mut cache = LRUCache::new(2);
    cache.put("a", 1);
    cache.put("b", 2);

    // This should evict "a"
    let evicted = cache.put("c", 3);
    assert_eq!(evicted, Some(("a", 1)));

    assert_eq!(cache.get(&"a"), None);
    assert_eq!(cache.get(&"b"), Some(&2));
    assert_eq!(cache.get(&"c"), Some(&3));
}

#[test]
fn test_lru_ordering() {
    let mut cache = LRUCache::new(2);
    cache.put("a", 1);
    cache.put("b", 2);

    // Access "a" to make it most recently used
    cache.get(&"a");

    // This should evict "b" now (least recently used)
    let evicted = cache.put("c", 3);
    assert_eq!(evicted, Some(("b", 2)));

    assert_eq!(cache.get(&"a"), Some(&1));
    assert_eq!(cache.get(&"b"), None);
    assert_eq!(cache.get(&"c"), Some(&3));
}

#[test]
fn test_update_moves_to_front() {
    let mut cache = LRUCache::new(2);
    cache.put("a", 1);
    cache.put("b", 2);

    // Update "a" to make it most recently used
    cache.put("a", 100);

    // This should evict "b"
    let evicted = cache.put("c", 3);
    assert_eq!(evicted, Some(("b", 2)));

    assert_eq!(cache.get(&"a"), Some(&100));
}

#[test]
fn lru_cache_test_multiple_evictions() {
    let mut cache = LRUCache::new(2);

    cache.put("a", 1);
    cache.put("b", 2);
    cache.put("c", 3); // Evicts "a"
    cache.put("d", 4); // Evicts "b"

    assert_eq!(cache.get(&"a"), None);
    assert_eq!(cache.get(&"b"), None);
    assert_eq!(cache.get(&"c"), Some(&3));
    assert_eq!(cache.get(&"d"), Some(&4));
}

#[test]
fn lru_cache_test_peek() {
    let mut cache = LRUCache::new(2);
    cache.put("a", 1);
    cache.put("b", 2);

    // Peek at "a" (doesn't change order)
    assert_eq!(cache.peek(&"a"), Some(&1));

    // "a" should still be LRU (evicted first)
    let evicted = cache.put("c", 3);
    assert_eq!(evicted, Some(("a", 1)));
}

#[test]
fn test_peek_nonexistent() {
    let cache: LRUCache<&str, i32> = LRUCache::new(10);
    assert_eq!(cache.peek(&"a"), None);
}

#[test]
fn lru_cache_test_contains() {
    let mut cache = LRUCache::new(10);
    cache.put("a", 1);

    assert!(cache.contains(&"a"));
    assert!(!cache.contains(&"b"));
}

#[test]
fn test_contains_doesnt_change_order() {
    let mut cache = LRUCache::new(2);
    cache.put("a", 1);
    cache.put("b", 2);

    // contains doesn't change order
    assert!(cache.contains(&"a"));

    // "a" should still be LRU
    let evicted = cache.put("c", 3);
    assert_eq!(evicted, Some(("a", 1)));
}

#[test]
fn lru_cache_test_remove() {
    let mut cache = LRUCache::new(10);
    cache.put("a", 1);
    cache.put("b", 2);

    assert_eq!(cache.remove(&"a"), Some(1));
    assert_eq!(cache.len(), 1);
    assert_eq!(cache.get(&"a"), None);
}

#[test]
fn lru_cache_test_remove_nonexistent() {
    let mut cache: LRUCache<&str, i32> = LRUCache::new(10);
    assert_eq!(cache.remove(&"a"), None);
}

#[test]
fn test_remove_head() {
    let mut cache = LRUCache::new(10);
    cache.put("a", 1);
    cache.put("b", 2);
    cache.put("c", 3); // c is head

    assert_eq!(cache.remove(&"c"), Some(3));
    assert_eq!(cache.keys(), vec!["b", "a"]);
}

#[test]
fn test_remove_tail() {
    let mut cache = LRUCache::new(10);
    cache.put("a", 1);
    cache.put("b", 2);
    cache.put("c", 3); // a is tail

    assert_eq!(cache.remove(&"a"), Some(1));
    assert_eq!(cache.keys(), vec!["c", "b"]);
}

#[test]
fn lru_cache_test_remove_middle() {
    let mut cache = LRUCache::new(10);
    cache.put("a", 1);
    cache.put("b", 2);
    cache.put("c", 3);

    assert_eq!(cache.remove(&"b"), Some(2));
    assert_eq!(cache.keys(), vec!["c", "a"]);
}

#[test]
fn lru_cache_test_clear() {
    let mut cache = LRUCache::new(10);
    cache.put("a", 1);
    cache.put("b", 2);

    cache.clear();

    assert!(cache.is_empty());
    assert_eq!(cache.get(&"a"), None);
}

#[test]
fn test_clear_empty() {
    let mut cache: LRUCache<&str, i32> = LRUCache::new(10);
    cache.clear();
    assert!(cache.is_empty());
}

#[test]
fn test_reuse_after_clear() {
    let mut cache = LRUCache::new(10);
    cache.put("a", 1);
    cache.clear();

    cache.put("b", 2);
    assert_eq!(cache.get(&"b"), Some(&2));
    assert_eq!(cache.len(), 1);
}

#[test]
fn lru_cache_test_keys() {
    let mut cache = LRUCache::new(10);
    cache.put("a", 1);
    cache.put("b", 2);
    cache.put("c", 3);

    // Most recent first
    assert_eq!(cache.keys(), vec!["c", "b", "a"]);
}

#[test]
fn test_keys_after_access() {
    let mut cache = LRUCache::new(10);
    cache.put("a", 1);
    cache.put("b", 2);
    cache.put("c", 3);

    cache.get(&"a");

    // "a" is now most recent
    assert_eq!(cache.keys(), vec!["a", "c", "b"]);
}

#[test]
fn lru_cache_test_iter() {
    let mut cache = LRUCache::new(10);
    cache.put("a", 1);
    cache.put("b", 2);
    cache.put("c", 3);

    let items = cache.iter();
    assert_eq!(items, vec![("c", 3), ("b", 2), ("a", 1)]);
}

#[test]
fn lru_cache_test_iter_empty() {
    let cache: LRUCache<&str, i32> = LRUCache::new(10);
    let items = cache.iter();
    assert!(items.is_empty());
}

#[test]
fn lru_cache_test_capacity_one() {
    let mut cache = LRUCache::new(1);
    cache.put("a", 1);
    assert_eq!(cache.get(&"a"), Some(&1));

    let evicted = cache.put("b", 2);
    assert_eq!(evicted, Some(("a", 1)));
    assert_eq!(cache.get(&"a"), None);
    assert_eq!(cache.get(&"b"), Some(&2));
}

#[test]
fn test_same_key_multiple_updates() {
    let mut cache = LRUCache::new(10);

    for i in 0..100 {
        cache.put("key", i);
    }

    assert_eq!(cache.len(), 1);
    assert_eq!(cache.get(&"key"), Some(&99));
}

#[test]
fn test_stress_test() {
    let mut cache = LRUCache::new(100);

    for i in 0..1000 {
        cache.put(i, i * 2);
    }

    // Only last 100 should remain
    assert_eq!(cache.len(), 100);

    for i in 900..1000 {
        assert_eq!(cache.get(&i), Some(&(i * 2)));
    }

    for i in 0..900 {
        assert_eq!(cache.get(&i), None);
    }
}
