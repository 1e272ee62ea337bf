//! The fixed-capacity block cache.

use bc_hash::cache::Cache;

#[test]
fn put_then_get_round_trips() {
    let mut c: Cache<3> = Cache::new(4);
    assert_eq!(c.count(), 0);
    assert!(c.get(7).is_none());
    assert_eq!(c.put(7, &[1, 2, 3]), None);
    assert_eq!(c.count(), 1);
    assert_eq!(c.get(7), Some([1, 2, 3]));
}

#[test]
fn put_of_a_resident_key_is_a_no_op() {
    let mut c: Cache<3> = Cache::new(4);
    c.put(7, &[1, 2, 3]);
    assert_eq!(c.put(7, &[9, 9, 9]), None);
    assert_eq!(c.get(7), Some([1, 2, 3]));
    assert_eq!(c.count(), 1);
}

#[test]
fn over_capacity_insertion_evicts_the_oldest_entry() {
    let mut c: Cache<3> = Cache::new(4);
    for block_num in 0..4u64 {
        let b = block_num as u8;
        assert_eq!(c.put(block_num, &[b, b, b]), None);
    }
    assert_eq!(c.count(), 4);
    // The fifth insertion exceeds the capacity and evicts the entry with the
    // oldest access stamp, which is block 0.
    assert_eq!(c.put(4, &[4, 4, 4]), Some(()));
    assert_eq!(c.count(), 4);
    assert!(c.get(0).is_none());
    for block_num in 1..5u64 {
        let b = block_num as u8;
        assert_eq!(c.get(block_num), Some([b, b, b]));
    }
}

#[test]
fn a_lookup_protects_an_entry_from_eviction() {
    let mut c: Cache<1> = Cache::new(2);
    c.put(10, &[10]);
    c.put(20, &[20]);
    // Refresh 10: it becomes the most recently used, so the next insertion
    // at capacity evicts 20 instead.
    assert_eq!(c.get(10), Some([10]));
    assert_eq!(c.put(30, &[30]), Some(()));
    assert_eq!(c.get(10), Some([10]));
    assert!(c.get(20).is_none());
    assert_eq!(c.get(30), Some([30]));
}

#[test]
fn clear_empties_the_cache() {
    let mut c: Cache<2> = Cache::new(2);
    c.put(1, &[1, 1]);
    c.put(2, &[2, 2]);
    c.clear();
    assert_eq!(c.count(), 0);
    assert!(c.get(1).is_none());
    assert_eq!(c.iter().len(), 0);
}

#[test]
fn iter_lists_each_entry_once() {
    let mut c: Cache<2> = Cache::new(8);
    for n in [3u64, 1, 4, 1, 5] {
        c.put(n, &[n as u8, 0]);
    }
    let mut nums: Vec<u64> = c.iter().iter().map(|p| p.0).collect();
    nums.sort();
    assert_eq!(nums, vec![1, 3, 4, 5]);
}

#[test]
fn zero_capacity_cache_holds_nothing() {
    let mut c: Cache<1> = Cache::new(0);
    assert_eq!(c.put(1, &[1]), None);
    assert_eq!(c.count(), 0);
    assert!(c.get(1).is_none());
}
