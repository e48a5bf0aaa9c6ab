use translate_gateway::cache::{Cache, MAX_CAPACITY};

fn put(cache: &mut Cache, key: &str, value: &str, now: u64) {
    cache.set(key.to_string(), value.to_string(), now);
}

#[test]
fn entry_is_found_until_its_time_to_live_has_passed() {
    let mut cache = Cache::new(4, 1000);
    put(&mut cache, "k", "Hola", 5000);
    assert_eq!(cache.get("k", 5999), Some("Hola".to_string()));
    assert_eq!(cache.get("k", 6000), Some("Hola".to_string()));
    assert_eq!(cache.get("k", 6001), None);
}

#[test]
fn stale_entry_is_removed_by_the_lookup() {
    let mut cache = Cache::new(4, 10);
    put(&mut cache, "a", "1", 0);
    put(&mut cache, "b", "2", 100);
    assert_eq!(cache.len(), 2);
    assert_eq!(cache.get("a", 11), None);
    assert_eq!(cache.len(), 1);
    assert_eq!(cache.get("a", 5), None);
    assert_eq!(cache.get("b", 105), Some("2".to_string()));
}

#[test]
fn one_entry_too_many_evicts_the_least_recently_used() {
    let mut cache = Cache::new(3, 1000);
    put(&mut cache, "a", "1", 0);
    put(&mut cache, "b", "2", 1);
    put(&mut cache, "c", "3", 2);
    put(&mut cache, "d", "4", 3);
    assert_eq!(cache.len(), 3);
    assert_eq!(cache.get("a", 4), None);
    assert_eq!(cache.get("b", 4), Some("2".to_string()));
    assert_eq!(cache.get("c", 4), Some("3".to_string()));
    assert_eq!(cache.get("d", 4), Some("4".to_string()));
}

#[test]
fn lookup_counts_as_a_use() {
    let mut cache = Cache::new(2, 1000);
    put(&mut cache, "a", "1", 0);
    put(&mut cache, "b", "2", 1);
    assert_eq!(cache.get("a", 2), Some("1".to_string()));
    put(&mut cache, "c", "3", 3);
    assert_eq!(cache.get("b", 4), None);
    assert_eq!(cache.get("a", 4), Some("1".to_string()));
    assert_eq!(cache.get("c", 4), Some("3".to_string()));
}

#[test]
fn unexpired_entry_is_evicted_for_capacity_alone() {
    let mut cache = Cache::new(1, u64::MAX);
    put(&mut cache, "a", "1", 0);
    put(&mut cache, "b", "2", 0);
    assert_eq!(cache.get("a", 0), None);
    assert_eq!(cache.get("b", 0), Some("2".to_string()));
}

#[test]
fn storing_again_replaces_the_text_and_the_expiry() {
    let mut cache = Cache::new(2, 10);
    put(&mut cache, "a", "old", 0);
    put(&mut cache, "b", "2", 0);
    put(&mut cache, "a", "new", 8);
    assert_eq!(cache.len(), 2);
    assert_eq!(cache.get("a", 18), Some("new".to_string()));
    put(&mut cache, "c", "3", 18);
    assert_eq!(cache.get("b", 18), None);
    assert_eq!(cache.get("a", 18), Some("new".to_string()));
}

#[test]
fn expiry_does_not_wrap_around() {
    let mut cache = Cache::new(2, u64::MAX);
    put(&mut cache, "a", "1", 10);
    assert_eq!(cache.get("a", u64::MAX), Some("1".to_string()));
}

#[test]
fn zero_time_to_live_keeps_the_entry_for_the_same_tick_only() {
    let mut cache = Cache::new(2, 0);
    put(&mut cache, "a", "1", 7);
    assert_eq!(cache.get("a", 7), Some("1".to_string()));
    assert_eq!(cache.get("a", 8), None);
}

#[test]
fn zero_capacity_counts_as_one() {
    let mut cache = Cache::new(0, 10);
    put(&mut cache, "a", "1", 0);
    assert_eq!(cache.get("a", 1), Some("1".to_string()));
    put(&mut cache, "b", "2", 1);
    assert_eq!(cache.len(), 1);
    assert_eq!(cache.get("a", 1), None);
}

#[test]
fn large_capacity_is_accepted() {
    assert_eq!(MAX_CAPACITY, usize::MAX / 128);
    let mut cache = Cache::new(1_000_000, 10);
    put(&mut cache, "a", "1", 0);
    assert_eq!(cache.len(), 1);
    assert_eq!(cache.get("a", 10), Some("1".to_string()));
}
