use toolkit::cache::fifo_cache;
use toolkit::cache::lfu_cache::LFUCache;
use toolkit::cache::lru_cache::LRUCache;

#[test]
fn lru_cache_test_lru_cache() {
    let mut lru_cache = LRUCache::new(3);

    lru_cache.put("one", 1);
    lru_cache.put("two", 2);
    lru_cache.put("three", 3);

    assert_eq!(lru_cache.get(&"one"), Some(&1));

    lru_cache.put("four", 4);

    assert_eq!(lru_cache.len(), 3);
    assert_eq!(lru_cache.get(&"one"), Some(&1));
    assert_eq!(lru_cache.get(&"two"), None);
    assert_eq!(lru_cache.get(&"three"), Some(&3));
    assert_eq!(lru_cache.get(&"four"), Some(&4));
}

#[test]
fn fifo_cache_test_lru_cache() {
    let mut lru_cache = fifo_cache::LRUCache::new(3);

    lru_cache.put("one", 1);
    lru_cache.put("two", 2);
    lru_cache.put("three", 3);

    assert_eq!(lru_cache.get(&"one"), Some(&1));

    lru_cache.put("four", 4);

    assert_eq!(lru_cache.len(), 3);
    assert_eq!(lru_cache.get(&"one"), Some(&1));
    assert_eq!(lru_cache.get(&"two"), None);
    assert_eq!(lru_cache.get(&"three"), Some(&3));
    assert_eq!(lru_cache.get(&"four"), Some(&4));
}

#[test]
fn test_lfu_cache() {
    let mut lfu_cache = LFUCache::new(3);

    lfu_cache.put("one", 1);
    lfu_cache.put("two", 2);
    lfu_cache.put("three", 3);

    assert_eq!(lfu_cache.get(&"one"), Some(&1));

    assert_eq!(lfu_cache.get(&"two"), Some(&2));
    assert_eq!(lfu_cache.get(&"two"), Some(&2));

    lfu_cache.put("four", 4);

    assert_eq!(lfu_cache.len(), 3);
    assert_eq!(lfu_cache.get(&"one"), Some(&1));
    assert_eq!(lfu_cache.get(&"two"), Some(&2));
    assert_eq!(lfu_cache.get(&"three"), None);
    assert_eq!(lfu_cache.get(&"four"), Some(&4));
}

#[test]
fn len_counts_distinct_keys_within_capacity() {
    let mut cache = LRUCache::new(5);
    cache.put("a", 1);
    cache.put("b", 2);
    cache.put("a", 3);
    cache.put("c", 4);
    cache.put("b", 5);
    assert_eq!(cache.len(), 3);
    assert_eq!(cache.capacity(), 5);

    let mut lfu = LFUCache::new(5);
    lfu.put("a", 1);
    lfu.put("b", 2);
    lfu.put("a", 3);
    lfu.put("c", 4);
    assert_eq!(lfu.len(), 3);
}

#[test]
fn put_at_capacity_evicts_exactly_one() {
    let mut cache = LRUCache::new(2);
    cache.put("a", 1);
    cache.put("b", 2);
    assert_eq!(cache.len(), 2);
    cache.put("c", 3);
    assert_eq!(cache.len(), 2);
    assert_eq!(cache.get(&"a"), None);
    assert_eq!(cache.get(&"b"), Some(&2));
    assert_eq!(cache.get(&"c"), Some(&3));

    let mut lfu = LFUCache::new(2);
    lfu.put("a", 1);
    lfu.put("b", 2);
    lfu.get(&"a");
    lfu.put("c", 3);
    assert_eq!(lfu.len(), 2);
    assert_eq!(lfu.get(&"b"), None);
    assert_eq!(lfu.get(&"a"), Some(&1));
    assert_eq!(lfu.get(&"c"), Some(&3));
}

#[test]
fn repeated_get_is_idempotent() {
    let mut cache = LRUCache::new(3);
    cache.put("k", 7);
    cache.put("m", 8);
    assert_eq!(cache.get(&"k"), Some(&7));
    assert_eq!(cache.get(&"k"), Some(&7));
    assert_eq!(cache.get(&"k"), Some(&7));
    assert_eq!(cache.len(), 2);

    let mut lfu = LFUCache::new(3);
    lfu.put("k", 7);
    lfu.put("m", 8);
    assert_eq!(lfu.get(&"k"), Some(&7));
    assert_eq!(lfu.get(&"k"), Some(&7));
    assert_eq!(lfu.len(), 2);
}

#[test]
fn put_existing_key_updates_without_eviction() {
    let mut cache = LRUCache::new(2);
    cache.put("a", 1);
    cache.put("b", 2);
    cache.put("a", 10);
    assert_eq!(cache.len(), 2);
    assert_eq!(cache.get(&"a"), Some(&10));
    assert_eq!(cache.get(&"b"), Some(&2));

    let mut lfu = LFUCache::new(2);
    lfu.put("a", 1);
    lfu.put("b", 2);
    lfu.put("a", 10);
    assert_eq!(lfu.len(), 2);
    assert_eq!(lfu.get(&"a"), Some(&10));
    assert_eq!(lfu.get(&"b"), Some(&2));
}

#[test]
fn capacity_one_holds_most_recent_key() {
    let mut cache = LRUCache::new(1);
    cache.put("a", 1);
    assert_eq!(cache.len(), 1);
    cache.put("b", 2);
    assert_eq!(cache.len(), 1);
    assert_eq!(cache.get(&"a"), None);
    assert_eq!(cache.get(&"b"), Some(&2));
    cache.put("c", 3);
    assert_eq!(cache.get(&"b"), None);
    assert_eq!(cache.get(&"c"), Some(&3));

    let mut lfu = LFUCache::new(1);
    lfu.put("a", 1);
    lfu.put("b", 2);
    assert_eq!(lfu.len(), 1);
    assert_eq!(lfu.get(&"a"), None);
    assert_eq!(lfu.get(&"b"), Some(&2));
}

#[test]
fn lfu_tie_breaks_against_least_recent() {
    let mut lfu = LFUCache::new(3);
    lfu.put("a", 1);
    lfu.put("b", 2);
    lfu.put("c", 3);
    // All three have count one; "a" is the least recently touched.
    lfu.put("d", 4);
    assert_eq!(lfu.get(&"a"), None);
    assert_eq!(lfu.get(&"b"), Some(&2));
    assert_eq!(lfu.get(&"c"), Some(&3));
    assert_eq!(lfu.get(&"d"), Some(&4));
}

#[test]
fn zero_capacity_is_a_construction_error() {
    assert!(LRUCache::<u64, i32>::try_new(0).is_none());
    assert!(LFUCache::<u64, i32>::try_new(0).is_none());
    let mut cache = LRUCache::<u64, i32>::try_new(1).unwrap();
    cache.put(1, 1);
    assert_eq!(cache.len(), 1);
    assert!(LFUCache::<u64, i32>::try_new(1).is_some());
}

#[test]
fn integer_keys_work() {
    let mut cache: LRUCache<u64, &str> = LRUCache::new(2);
    cache.put(1, "one");
    cache.put(2, "two");
    assert_eq!(cache.get(&1), Some(&"one"));
    cache.put(3, "three");
    assert_eq!(cache.get(&2), None);
    assert_eq!(cache.get(&3), Some(&"three"));
}

#[test]
fn string_keys_work() {
    let mut cache = LRUCache::new(2);
    cache.put(String::from("one"), 1);
    cache.put(String::from("two"), 2);
    assert_eq!(cache.get(&String::from("one")), Some(&1));
    cache.put(String::from("three"), 3);
    assert_eq!(cache.get(&String::from("two")), None);
    assert_eq!(cache.get(&String::from("three")), Some(&3));
}
