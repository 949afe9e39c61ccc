use dsa::lfu_cache::LFUCache;

#[test]
fn lfu_cache_test_new() {
    let cache: LFUCache<i32, i32> = LFUCache::new(10);
    assert_eq!(cache.capacity(), 10);
    assert!(cache.is_empty());
}

#[test]
fn test_put_and_get() {
    let mut cache = LFUCache::new(10);
    cache.put(1, 100);
    assert_eq!(cache.get(&1), Some(&100));
}

#[test]
fn lfu_cache_test_update() {
    let mut cache = LFUCache::new(10);
    cache.put(1, 100);
    cache.put(1, 200);
    assert_eq!(cache.get(&1), Some(&200));
    assert_eq!(cache.len(), 1);
}

#[test]
fn lfu_cache_test_get_nonexistent() {
    let mut cache: LFUCache<i32, i32> = LFUCache::new(10);
    assert_eq!(cache.get(&1), None);
}

#[test]
fn test_lfu_eviction() {
    let mut cache = LFUCache::new(2);
    cache.put(1, 1);
    cache.put(2, 2);
    cache.get(&1);  // freq(1) = 2, freq(2) = 1
    cache.put(3, 3);  // Evicts 2

    assert_eq!(cache.get(&2), None);
    assert_eq!(cache.get(&1), Some(&1));
    assert_eq!(cache.get(&3), Some(&3));
}

#[test]
fn test_lru_tiebreaker() {
    let mut cache = LFUCache::new(2);
    cache.put(1, 1);
    cache.put(2, 2);
    // Both have freq=1, but 1 was added first (LRU)
    cache.put(3, 3);  // Evicts 1

    assert_eq!(cache.get(&1), None);
    assert_eq!(cache.get(&2), Some(&2));
    assert_eq!(cache.get(&3), Some(&3));
}

#[test]
fn test_frequency_tracking() {
    let mut cache = LFUCache::new(3);
    cache.put(1, 1);
    cache.put(2, 2);
    cache.put(3, 3);

    cache.get(&1);  // freq(1) = 2
    cache.get(&1);  // freq(1) = 3
    cache.get(&2);  // freq(2) = 2

    assert_eq!(cache.frequency(&1), Some(3));
    assert_eq!(cache.frequency(&2), Some(2));
    assert_eq!(cache.frequency(&3), Some(1));

    cache.put(4, 4);  // Evicts 3 (lowest freq)
    assert_eq!(cache.get(&3), None);
}

#[test]
fn lfu_cache_test_remove() {
    let mut cache = LFUCache::new(10);
    cache.put(1, 100);
    assert_eq!(cache.remove(&1), Some(100));
    assert_eq!(cache.get(&1), None);
}

#[test]
fn lfu_cache_test_clear() {
    let mut cache = LFUCache::new(10);
    cache.put(1, 1);
    cache.put(2, 2);
    cache.clear();
    assert!(cache.is_empty());
}

#[test]
fn lfu_cache_test_capacity_one() {
    let mut cache = LFUCache::new(1);
    cache.put(1, 1);
    cache.put(2, 2);
    assert_eq!(cache.get(&1), None);
    assert_eq!(cache.get(&2), Some(&2));
}

#[test]
fn lfu_cache_test_multiple_evictions() {
    let mut cache = LFUCache::new(2);

    for i in 0..10 {
        cache.put(i, i * 10);
    }

    // Only last 2 should remain
    assert_eq!(cache.len(), 2);
}
