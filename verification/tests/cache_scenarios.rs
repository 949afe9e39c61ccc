use dsa::lru_cache::LRUCache;
use dsa::lfu_cache::LFUCache;

#[test]
fn lru_capacity_two_recency_eviction() {
    let mut cache = LRUCache::new(2);
    cache.put(1, 1);
    cache.put(2, 2);
    assert_eq!(cache.get(&1), Some(&1));
    let evicted = cache.put(3, 3);
    assert_eq!(evicted, Some((2, 2)));
    assert_eq!(cache.get(&2), None);
    assert_eq!(cache.get(&3), Some(&3));
}

#[test]
fn lru_capacity_two_insertion_order_tie() {
    let mut cache = LRUCache::new(2);
    cache.put("a", 1);
    cache.put("b", 2);
    let evicted = cache.put("c", 3);
    assert_eq!(evicted, Some(("a", 1)));
    assert_eq!(cache.keys(), vec!["c", "b"]);
}

#[test]
fn lfu_capacity_two_frequency_eviction() {
    let mut cache = LFUCache::new(2);
    cache.put(1, 1);
    cache.put(2, 2);
    assert_eq!(cache.get(&1), Some(&1));
    assert_eq!(cache.frequency(&1), Some(2));
    assert_eq!(cache.frequency(&2), Some(1));
    cache.put(3, 3);
    assert_eq!(cache.get(&2), None);
    assert_eq!(cache.get(&1), Some(&1));
    assert_eq!(cache.get(&3), Some(&3));
}

#[test]
fn lfu_capacity_two_frequency_tie_oldest_goes() {
    let mut cache = LFUCache::new(2);
    cache.put(1, 1);
    cache.put(2, 2);
    cache.put(3, 3);
    assert_eq!(cache.get(&1), None);
    assert_eq!(cache.get(&2), Some(&2));
}

#[test]
fn capacity_one_single_slot_replace() {
    let mut lru = LRUCache::new(1);
    lru.put(1, 1);
    lru.put(2, 2);
    assert_eq!(lru.get(&1), None);
    assert_eq!(lru.get(&2), Some(&2));

    let mut lfu = LFUCache::new(1);
    lfu.put(1, 1);
    lfu.put(2, 2);
    assert_eq!(lfu.get(&1), None);
    assert_eq!(lfu.get(&2), Some(&2));
}

#[test]
fn lru_update_in_place_does_not_evict() {
    let mut cache = LRUCache::new(2);
    cache.put(1, 1);
    cache.put(2, 2);
    let evicted = cache.put(1, 100);
    assert_eq!(evicted, None);
    assert_eq!(cache.len(), 2);
    assert_eq!(cache.get(&1), Some(&100));
    assert_eq!(cache.get(&2), Some(&2));
}

#[test]
fn len_never_exceeds_capacity() {
    let mut lru = LRUCache::new(3);
    let mut lfu = LFUCache::new(3);
    for i in 0..50 {
        lru.put(i, i);
        lfu.put(i, i);
        assert!(lru.len() <= lru.capacity());
        assert!(lfu.len() <= lfu.capacity());
    }
    lru.remove(&49);
    lfu.remove(&49);
    assert!(lru.len() <= lru.capacity());
    assert!(lfu.len() <= lfu.capacity());
}

#[test]
fn repeated_peek_and_frequency_change_nothing() {
    let mut lru = LRUCache::new(2);
    lru.put(1, 1);
    lru.put(2, 2);
    assert_eq!(lru.peek(&1), Some(&1));
    assert_eq!(lru.peek(&1), Some(&1));
    assert_eq!(lru.peek(&1), Some(&1));
    assert_eq!(lru.keys(), vec![2, 1]);
    // key 1 is still the least recently touched, so it goes first
    let evicted = lru.put(3, 3);
    assert_eq!(evicted, Some((1, 1)));

    let mut lfu = LFUCache::new(2);
    lfu.put(1, 1);
    lfu.put(2, 2);
    lfu.get(&2);
    assert_eq!(lfu.frequency(&1), Some(1));
    assert_eq!(lfu.frequency(&1), Some(1));
    assert_eq!(lfu.frequency(&2), Some(2));
    // frequencies unchanged by the reads: key 1 is still the one evicted
    lfu.put(3, 3);
    assert_eq!(lfu.get(&1), None);
    assert_eq!(lfu.get(&2), Some(&2));
}

#[test]
fn round_trip_put_then_get() {
    let mut lru = LRUCache::new(4);
    let mut lfu = LFUCache::new(4);
    for (k, v) in [(10, 100), (20, 200), (30, 300)] {
        lru.put(k, v);
        assert_eq!(lru.get(&k), Some(&v));
        lfu.put(k, v);
        assert_eq!(lfu.get(&k), Some(&v));
    }
}

#[test]
fn contains_tracks_live_keys() {
    let mut lru = LRUCache::new(2);
    lru.put(1, 1);
    lru.put(2, 2);
    assert!(lru.contains(&1) && lru.contains(&2));
    lru.put(3, 3);
    assert!(!lru.contains(&1));
    assert!(lru.contains(&2) && lru.contains(&3));
    lru.remove(&2);
    assert!(!lru.contains(&2));

    let mut lfu = LFUCache::new(2);
    lfu.put(1, 1);
    lfu.put(2, 2);
    assert!(lfu.contains(&1) && lfu.contains(&2));
    lfu.remove(&1);
    assert!(!lfu.contains(&1));
    assert!(lfu.contains(&2));
}

#[test]
fn lfu_put_on_existing_key_raises_frequency() {
    let mut cache = LFUCache::new(3);
    cache.put(7, 1);
    cache.put(7, 2);
    cache.put(7, 3);
    assert_eq!(cache.frequency(&7), Some(3));
    assert_eq!(cache.get(&7), Some(&3));
    assert_eq!(cache.len(), 1);
}
