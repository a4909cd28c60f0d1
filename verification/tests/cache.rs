use std::time::Duration;

use newtron::cache::{TtlCache, SWEEP_THRESHOLD};

const MINUTE: u128 = 60_000_000_000;

#[test]
fn get_after_put_returns_value() {
    let mut c: TtlCache<String, Vec<u32>> = TtlCache::new(Duration::from_secs(60).as_nanos());
    c.put("rust".to_string(), vec![1, 2]);
    assert_eq!(c.get(&"rust".to_string()), Some(vec![1, 2]));
    assert!(c.contains(&"rust".to_string()));
    assert_eq!(c.get(&"rust".to_string()), Some(vec![1, 2]));
}

#[test]
fn missing_key_is_absent() {
    let mut c: TtlCache<&'static str, ()> = TtlCache::new(MINUTE);
    assert_eq!(c.get(&"Google"), None);
    assert!(!c.contains(&"Google"));
}

#[test]
fn put_overwrites() {
    let mut c: TtlCache<u32, &'static str> = TtlCache::new(MINUTE);
    c.put(1, "first");
    c.put(1, "second");
    assert_eq!(c.get(&1), Some("second"));
}

#[test]
fn zero_ttl_expires_immediately() {
    let mut c: TtlCache<u32, u32> = TtlCache::new(Duration::ZERO.as_nanos());
    c.put(1, 10);
    assert_eq!(c.get(&1), None);
    assert_eq!(c.get(&2), None);
    assert!(!c.contains(&1));
}

#[test]
fn answer_serves_young_entries_and_drops_old_ones() {
    let mut c: TtlCache<u32, u32> = TtlCache::new(1_000);
    c.put(1, 10);
    assert_eq!(c.answer(&1, 999), Some(10));
    assert_eq!(c.answer(&1, 999), Some(10));
    assert_eq!(c.answer(&1, 1_000), None);
    assert_eq!(c.answer(&1, 0), None);
    assert_eq!(c.answer(&2, 0), None);
}

#[test]
fn sweep_drops_only_entries_measured_expired() {
    let mut c: TtlCache<u32, u32> = TtlCache::new(MINUTE);
    c.put(1, 10);
    c.put(2, 20);
    c.put(3, 30);
    c.sweep_expired(&vec![(1, MINUTE), (2, MINUTE - 1), (3, 5 * MINUTE)]);
    assert_eq!(c.get(&1), None);
    assert_eq!(c.get(&2), Some(20));
    assert_eq!(c.get(&3), None);
}

#[test]
fn sweeping_keeps_live_entries() {
    let mut c: TtlCache<usize, usize> = TtlCache::new(MINUTE);
    for i in 0..(SWEEP_THRESHOLD + 10) {
        c.put(i, i * 2);
    }
    assert_eq!(c.get(&0), Some(0));
    assert_eq!(c.get(&(SWEEP_THRESHOLD + 9)), Some((SWEEP_THRESHOLD + 9) * 2));
}

#[test]
fn sweeping_with_zero_ttl_still_stores_the_new_entry_briefly() {
    let mut c: TtlCache<usize, usize> = TtlCache::new(0);
    for i in 0..(SWEEP_THRESHOLD + 2) {
        c.put(i, i);
    }
    assert_eq!(c.get(&1), None);
}
