use dsa::bloom_filter::BloomFilter;

#[test]
fn test_with_size() {
    let filter = BloomFilter::with_size(1024, 7);
    assert_eq!(filter.num_bits(), 1024);
    assert_eq!(filter.num_hashes(), 7);
}

#[test]
fn test_merge() {
    let mut filter1 = BloomFilter::with_size(1024, 7);
    let mut filter2 = BloomFilter::with_size(1024, 7);

    filter1.insert(&"apple");
    filter2.insert(&"banana");

    assert!(filter1.merge(&filter2));

    assert!(filter1.may_contain(&"apple"));
    assert!(filter1.may_contain(&"banana"));
}

#[test]
fn test_merge_incompatible() {
    let mut filter1 = BloomFilter::with_size(1024, 7);
    let filter2 = BloomFilter::with_size(2048, 7);

    assert!(!filter1.merge(&filter2));
}
