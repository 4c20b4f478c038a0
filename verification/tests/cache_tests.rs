use rustcraft::cache::LruCache;

#[test]
fn test_lru_basic() {
    let mut cache = LruCache::new(3);

    cache.insert(1, "a");
    cache.insert(2, "b");
    cache.insert(3, "c");

    assert_eq!(cache.get(&1), Some(&"a"));
    assert_eq!(cache.len(), 3);

    // Adding a 4th item evicts the least-hit entry, which is 2.
    cache.insert(4, "d");
    assert_eq!(cache.len(), 3);
    assert!(!cache.contains(&2));
    assert!(cache.contains(&1));
    assert!(cache.contains(&3));
    assert!(cache.contains(&4));
}

#[test]
fn test_lru_access_order() {
    let mut cache = LruCache::new(2);

    cache.insert(1, "a");
    cache.insert(2, "b");
    cache.get(&1);

    cache.insert(3, "c");
    assert!(!cache.contains(&2));
    assert!(cache.contains(&1));
    assert!(cache.contains(&3));
}

#[test]
fn test_cache_growth() {
    let mut cache = LruCache::with_growth(2, 6, 1);

    cache.insert(1, "a");
    cache.insert(2, "b");

    let (_, expanded, _) = cache.insert(3, "c");
    assert!(expanded);
    assert_eq!(cache.current_capacity(), 4);

    assert!(cache.contains(&1));
    assert!(cache.contains(&2));
    assert!(cache.contains(&3));
}

#[test]
fn test_hit_count_eviction() {
    let mut cache = LruCache::with_growth(2, 2, 1);

    cache.insert(1, "a");
    cache.insert(2, "b");

    cache.get(&1);
    cache.get(&1);
    cache.get(&1);

    assert_eq!(cache.get_hit_count(&1), Some(3));
    assert_eq!(cache.get_hit_count(&2), Some(0));

    let (_, expanded, evicted) = cache.insert(3, "c");
    assert!(!expanded);
    assert_eq!(evicted, Some(2));
    assert!(cache.contains(&1));
    assert!(!cache.contains(&2));
    assert!(cache.contains(&3));
}

#[test]
fn capacity_law_holds_over_inserts() {
    let mut cache = LruCache::with_growth(2, 8, 1);
    let mut last_capacity = cache.current_capacity();
    for k in 0..32u64 {
        cache.insert(k, k * 10);
        // The capacity law: len <= current <= max.
        assert!(cache.len() <= cache.current_capacity());
        assert!(cache.current_capacity() <= cache.max_capacity());
        // Growth monotonicity: the capacity never shrinks.
        assert!(cache.current_capacity() >= last_capacity);
        last_capacity = cache.current_capacity();
    }
    assert_eq!(cache.current_capacity(), 8);
    assert_eq!(cache.len(), 8);
}

#[test]
fn replace_in_place_keeps_len() {
    let mut cache = LruCache::with_growth(2, 2, 1);
    cache.insert(1, "a");
    let (displaced, expanded, evicted) = cache.insert(1, "z");
    assert_eq!(displaced, Some("a"));
    assert!(!expanded);
    assert_eq!(evicted, None);
    assert_eq!(cache.len(), 1);
    assert_eq!(cache.get(&1), Some(&"z"));
}

#[test]
fn remove_and_clear() {
    let mut cache = LruCache::new(4);
    cache.insert(1, "a");
    cache.insert(2, "b");
    assert_eq!(cache.remove(&1), Some("a"));
    assert_eq!(cache.remove(&1), None);
    assert!(!cache.contains(&1));
    assert!(!cache.is_empty());
    cache.clear();
    assert!(cache.is_empty());
    assert_eq!(cache.current_capacity(), 4);
}

#[test]
fn reset_hit_counts_zeroes_stale_entries() {
    let mut cache = LruCache::new(4);
    cache.insert(1, "a");
    cache.get(&1);
    cache.get(&1);
    assert_eq!(cache.get_hit_count(&1), Some(2));
    // Entries rest on wall-clock stamps; a sweep far in the future resets.
    cache.reset_hit_counts_at(u64::MAX);
    assert_eq!(cache.get_hit_count(&1), Some(0));
}

#[test]
fn iter_lists_entries_in_order() {
    let mut cache = LruCache::new(4);
    cache.insert(7, "x");
    cache.insert(9, "y");
    let items = cache.iter();
    assert_eq!(items.len(), 2);
    assert_eq!(items[0].0, 7);
    assert_eq!(*items[0].1, "x");
    assert_eq!(items[1].0, 9);
    assert_eq!(*items[1].1, "y");
}
