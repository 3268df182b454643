use ttlcache::cache::CacheService;

#[test]
fn test_cache_service() {
    let mut cache: CacheService<String> = CacheService::new(60 * 1000);
    cache.set("key".to_string(), "value".to_string());
    assert_eq!(cache.get("key"), Some("value".to_string()));
}

#[test]
fn test_get_missing_key() {
    let cache: CacheService<u32> = CacheService::new(1000);
    assert_eq!(cache.get("absent"), None);
}

#[test]
fn test_expiry_scenario() {
    // Time-to-live of 50 ms, with the clock supplied explicitly.
    let mut cache: CacheService<String> = CacheService::new(50);
    cache.set_at("a".to_string(), "x".to_string(), 0);
    assert_eq!(cache.get_at("a", 0), Some("x".to_string()));
    assert_eq!(cache.get_at("a", 49), Some("x".to_string()));
    // Past the time-to-live the read reports absence, but the entry is
    // still stored until the sweep removes it.
    assert_eq!(cache.get_at("a", 60), None);
    assert_eq!(cache.cleanup_expired_at(60), 1);
    assert_eq!(cache.get_at("a", 60), None);
    // A second sweep with nothing written in between removes nothing.
    assert_eq!(cache.cleanup_expired_at(60), 0);
}

#[test]
fn test_overwrite_resets_staleness() {
    let mut cache: CacheService<String> = CacheService::new(50);
    cache.set_at("a".to_string(), "x".to_string(), 0);
    cache.set_at("a".to_string(), "y".to_string(), 30);
    // 60 ms after the first write, but only 30 ms after the second.
    assert_eq!(cache.get_at("a", 60), Some("y".to_string()));
}

#[test]
fn test_expired_entry_still_deletable() {
    let mut cache: CacheService<u32> = CacheService::new(10);
    cache.set_at("k".to_string(), 7, 0);
    assert_eq!(cache.get_at("k", 100), None);
    // The entry was never swept, so a removal still finds it.
    assert!(cache.delete("k"));
    assert!(!cache.delete("k"));
}

#[test]
fn test_delete_then_get() {
    let mut cache: CacheService<u32> = CacheService::new(1000);
    cache.set_at("k".to_string(), 1, 0);
    assert!(cache.delete("k"));
    assert_eq!(cache.get_at("k", 0), None);
    assert!(!cache.delete("k"));
}

#[test]
fn test_clear_empties_cache() {
    let mut cache: CacheService<u32> = CacheService::new(1000);
    cache.set_at("a".to_string(), 1, 0);
    cache.set_at("b".to_string(), 2, 0);
    cache.clear();
    assert_eq!(cache.get_at("a", 0), None);
    assert_eq!(cache.get_at("b", 0), None);
    assert_eq!(cache.cleanup_expired_at(0), 0);
}

#[test]
fn test_zero_ttl_never_live() {
    let mut cache: CacheService<u32> = CacheService::new(0);
    cache.set_at("k".to_string(), 5, 10);
    assert_eq!(cache.get_at("k", 10), None);
    assert_eq!(cache.get("k"), None);
}

#[test]
fn test_cleanup_keeps_live_entries() {
    let mut cache: CacheService<u32> = CacheService::new(100);
    cache.set_at("old".to_string(), 1, 0);
    cache.set_at("new".to_string(), 2, 150);
    assert_eq!(cache.cleanup_expired_at(200), 1);
    assert_eq!(cache.get_at("new", 200), Some(2));
    assert_eq!(cache.get_at("old", 200), None);
}

#[test]
fn test_set_replaces_value() {
    let mut cache: CacheService<u32> = CacheService::new(1000);
    cache.set_at("k".to_string(), 1, 0);
    cache.set_at("k".to_string(), 2, 0);
    assert_eq!(cache.get_at("k", 0), Some(2));
    assert_eq!(cache.cleanup_expired_at(5000), 1);
}
