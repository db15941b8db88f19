use rinha::cache::{select_victim, CacheEntry, CachePolicy, RedisCache, BYTES_PER_MB};

fn megabyte_of(c: char) -> String {
    std::iter::repeat(c).take(BYTES_PER_MB as usize).collect()
}

fn entry(key: &str, timestamp: u64, ttl: u64) -> (String, CacheEntry<String>) {
    (key.to_string(), CacheEntry { value: "v".to_string(), timestamp, ttl })
}

#[test]
fn test_t13_1_redis_cache_integration() {
    let cache = RedisCache::new();
    assert_eq!(cache.get_memory_limit_mb(), 50);
    assert_eq!(cache.get_entry_count(), 0);
    assert_eq!(cache.get_memory_usage_mb(), 0);
}

#[test]
fn set_then_get_returns_the_value() {
    let mut cache = RedisCache::new();
    cache.set("test_key", "\"test_value\"".to_string(), 60, 1000);
    assert_eq!(cache.get("test_key", 1000), Some("\"test_value\"".to_string()));
    assert_eq!(cache.get_entry_count(), 1);
}

#[test]
fn entry_lives_through_its_last_second() {
    let mut cache = RedisCache::new();
    cache.set("k", "1".to_string(), 10, 100);
    assert_eq!(cache.get("k", 110), Some("1".to_string()));
    assert_eq!(cache.get_entry_count(), 1);
}

#[test]
fn expired_entry_reads_absent_and_is_dropped() {
    let mut cache = RedisCache::new();
    cache.set("k", "1".to_string(), 10, 100);
    cache.set("other", "2".to_string(), 100, 100);
    assert_eq!(cache.get("k", 111), None);
    assert_eq!(cache.get_entry_count(), 1);
    assert_eq!(cache.get("other", 111), Some("2".to_string()));
}

#[test]
fn get_of_missing_key_is_none() {
    let mut cache = RedisCache::new();
    assert_eq!(cache.get("nothing", 5), None);
}

#[test]
fn set_replaces_value_and_usage() {
    let mut cache = RedisCache::new();
    cache.set("k", "abc".to_string(), 60, 1);
    cache.set("k", "abcdef".to_string(), 60, 2);
    assert_eq!(cache.get_entry_count(), 1);
    assert_eq!(cache.get_memory_usage_bytes(), 6);
    assert_eq!(cache.get("k", 2), Some("abcdef".to_string()));
}

#[test]
fn usage_counts_utf8_bytes() {
    let mut cache = RedisCache::new();
    cache.set("k", "é€".to_string(), 60, 1);
    assert_eq!(cache.get_memory_usage_bytes(), 5);
}

#[test]
fn remove_reports_presence_and_frees_usage() {
    let mut cache = RedisCache::new();
    cache.set("a", "12345".to_string(), 60, 1);
    cache.set("b", "12".to_string(), 60, 1);
    assert!(cache.remove("a"));
    assert!(!cache.remove("a"));
    assert_eq!(cache.get_entry_count(), 1);
    assert_eq!(cache.get_memory_usage_bytes(), 2);
}

#[test]
fn clear_empties_and_resets_usage() {
    let mut cache = RedisCache::new();
    cache.set("a", "12345".to_string(), 60, 1);
    cache.set("b", "12".to_string(), 60, 1);
    cache.clear();
    assert_eq!(cache.get_entry_count(), 0);
    assert_eq!(cache.get_memory_usage_bytes(), 0);
    assert_eq!(cache.get("a", 1), None);
}

#[test]
fn usage_in_megabytes_rounds_down() {
    let mut cache = RedisCache::new();
    let mut big = megabyte_of('x');
    big.push('y');
    cache.set("big", big, 60, 1);
    assert_eq!(cache.get_memory_usage_mb(), 1);
    assert_eq!(cache.get_memory_usage_bytes(), BYTES_PER_MB + 1);
}

#[test]
fn lru_evicts_the_oldest_entry_when_over_budget() {
    let mut cache = RedisCache::with_memory_limit(2);
    cache.set("first", megabyte_of('a'), 600, 10);
    cache.set("second", megabyte_of('b'), 600, 20);
    assert_eq!(cache.get_entry_count(), 2);
    cache.set("third", megabyte_of('c'), 600, 30);
    assert_eq!(cache.get_entry_count(), 2);
    assert_eq!(cache.get("first", 30), None);
    assert!(cache.get("second", 30).is_some());
    assert!(cache.get("third", 30).is_some());
    assert_eq!(cache.get_memory_usage_mb(), 2);
}

#[test]
fn eviction_removes_one_entry_only() {
    let mut cache = RedisCache::with_memory_limit(0);
    cache.set("a", "1".to_string(), 600, 1);
    cache.set("b", megabyte_of('b'), 600, 2);
    cache.set("c", megabyte_of('c'), 600, 3);
    // each insert over budget drops a single victim, then stores anyway
    assert_eq!(cache.get_entry_count(), 1);
    assert!(cache.get("c", 3).is_some());
}

#[test]
fn random_policy_evicts_the_first_stored_entry() {
    let mut cache = RedisCache::with_policy(1, CachePolicy::AllKeysRandom);
    cache.set("newer_stamp", megabyte_of('a'), 600, 50);
    cache.set("older_stamp", megabyte_of('b'), 600, 5);
    assert_eq!(cache.get_entry_count(), 1);
    assert!(cache.get("older_stamp", 50).is_some());
    assert_eq!(cache.get("newer_stamp", 50), None);
}

#[test]
fn ttl_policy_evicts_the_entry_closest_to_expiry() {
    let mut cache = RedisCache::with_policy(2, CachePolicy::VolatileTTL);
    cache.set("long", megabyte_of('a'), 1000, 0);
    cache.set("short", megabyte_of('b'), 100, 0);
    cache.set("new", megabyte_of('c'), 1000, 10);
    assert_eq!(cache.get_entry_count(), 2);
    assert_eq!(cache.get("short", 10), None);
    assert!(cache.get("long", 10).is_some());
}

#[test]
fn ttl_policy_evicts_nothing_when_all_have_run_out() {
    let mut cache = RedisCache::with_policy(1, CachePolicy::VolatileTTL);
    cache.set("a", megabyte_of('a'), 5, 0);
    cache.set("b", megabyte_of('b'), 5, 100);
    assert_eq!(cache.get_entry_count(), 2);
    assert_eq!(cache.get_memory_usage_mb(), 2);
}

#[test]
fn select_victim_lru_picks_first_of_oldest() {
    let entries = vec![entry("a", 7, 10), entry("b", 3, 10), entry("c", 3, 10), entry("d", 9, 10)];
    assert_eq!(select_victim(CachePolicy::AllKeysLRU, &entries, 0), Some(1));
    assert_eq!(select_victim(CachePolicy::VolatileLRU, &entries, 0), Some(1));
}

#[test]
fn select_victim_random_picks_first() {
    let entries = vec![entry("a", 7, 10), entry("b", 3, 10)];
    assert_eq!(select_victim(CachePolicy::AllKeysRandom, &entries, 0), Some(0));
    assert_eq!(select_victim(CachePolicy::VolatileRandom, &entries, 0), Some(0));
}

#[test]
fn select_victim_ttl_skips_expired_entries() {
    // at second 20: a has run out, b has 5 left, c has 30 left, d has 5 left
    let entries = vec![entry("a", 0, 10), entry("b", 15, 10), entry("c", 10, 40), entry("d", 5, 20)];
    assert_eq!(select_victim(CachePolicy::VolatileTTL, &entries, 20), Some(1));
}

#[test]
fn select_victim_on_empty_is_none() {
    let entries: Vec<(String, CacheEntry<String>)> = Vec::new();
    assert_eq!(select_victim(CachePolicy::AllKeysLRU, &entries, 0), None);
    assert_eq!(select_victim(CachePolicy::AllKeysRandom, &entries, 0), None);
    assert_eq!(select_victim(CachePolicy::VolatileTTL, &entries, 0), None);
}

#[test]
fn select_victim_ttl_with_clock_behind_counts_no_time() {
    let entries = vec![entry("a", 100, 10), entry("b", 100, 4)];
    assert_eq!(select_victim(CachePolicy::VolatileTTL, &entries, 50), Some(1));
}

#[test]
fn select_victim_ttl_counts_an_entry_at_its_last_second() {
    let entries = vec![entry("a", 0, 10)];
    assert_eq!(select_victim(CachePolicy::VolatileTTL, &entries, 10), Some(0));
    assert_eq!(select_victim(CachePolicy::VolatileTTL, &entries, 11), None);
    let entries = vec![entry("long", 0, 20), entry("last", 0, 10)];
    assert_eq!(select_victim(CachePolicy::VolatileTTL, &entries, 10), Some(1));
}

#[test]
fn ttl_policy_evicts_an_entry_whose_age_equals_its_lifetime() {
    let mut cache = RedisCache::with_policy(1, CachePolicy::VolatileTTL);
    cache.set("a", megabyte_of('a'), 5, 0);
    cache.set("b", megabyte_of('b'), 5, 5);
    assert_eq!(cache.get_entry_count(), 1);
    assert_eq!(cache.get("a", 5), None);
    assert!(cache.get("b", 5).is_some());
}
