use translate_gateway::cache::MAX_CAPACITY;
use translate_gateway::config::{seconds_to_ticks, setting_or, Config};

#[test]
fn settings_that_are_not_given_take_their_defaults() {
    assert_eq!(
        Config::resolve(None, None, None, None),
        Config { cache_ttl: 3600, cache_max_size: 1000, max_text_length: 5000, rate_limit_rpm: 30 }
    );
    assert_eq!(
        Config::resolve(Some(1), None, Some(0), Some(7)),
        Config { cache_ttl: 1, cache_max_size: 1000, max_text_length: 0, rate_limit_rpm: 7 }
    );
    assert_eq!(setting_or(Some(0), 9), 0);
    assert_eq!(setting_or(None, 9), 9);
}

#[test]
fn seconds_become_ticks_of_a_millisecond() {
    assert_eq!(seconds_to_ticks(0), 0);
    assert_eq!(seconds_to_ticks(60), 60_000);
    assert_eq!(seconds_to_ticks(u64::MAX / 1000), u64::MAX / 1000 * 1000);
    assert_eq!(seconds_to_ticks(u64::MAX / 1000 + 1), u64::MAX);
}

#[test]
fn cache_of_the_settings_keeps_entries_for_the_time_to_live() {
    let config = Config::resolve(Some(2), Some(1), None, None);
    let mut cache = config.cache().unwrap();
    cache.set("a".to_string(), "1".to_string(), 500);
    assert_eq!(cache.get("a", 2500), Some("1".to_string()));
    assert_eq!(cache.get("a", 2501), None);
}

#[test]
fn cache_larger_than_can_be_made_is_refused() {
    assert!(Config::resolve(None, Some(100_000), None, None).cache().is_some());
    assert!(Config::resolve(None, Some(MAX_CAPACITY + 1), None, None).cache().is_none());
    assert!(Config::resolve(None, Some(usize::MAX), None, None).cache().is_none());
}

#[test]
fn limiter_of_the_settings_has_a_window_of_a_minute() {
    let mut limiter = Config::resolve(None, None, None, Some(2)).limiter();
    assert!(limiter.allow(0));
    assert!(limiter.allow(1));
    assert!(!limiter.allow(60_000));
    assert!(limiter.allow(60_001));
}
