//! The cache of merged subscriptions.

use sub_merger::cache::{cache_key, Cache, CACHE_TTL};

fn list(items: &[&str]) -> Vec<String> {
    items.iter().map(|s| s.to_string()).collect()
}

#[test]
fn key_ignores_order() {
    let a = list(&["https://b", "https://a", "https://c"]);
    let b = list(&["https://c", "https://b", "https://a"]);
    assert_eq!(cache_key(&a), "https://a|https://b|https://c");
    assert_eq!(cache_key(&a), cache_key(&b));
    assert_eq!(cache_key(&list(&["x"])), "x");
    assert_ne!(cache_key(&list(&["x", "y"])), cache_key(&list(&["x", "z"])));
}

#[test]
fn an_entry_lives_for_an_hour() {
    let mut cache = Cache::new();
    assert!(cache.lookup("k", 0).is_none());
    cache.store("k".to_string(), list(&["a", "b"]), 1000);
    assert_eq!(cache.lookup("k", 1000), Some(list(&["a", "b"])));
    assert_eq!(cache.lookup("k", 1000 + CACHE_TTL - 1), Some(list(&["a", "b"])));
    assert!(cache.lookup("k", 1000 + CACHE_TTL).is_none());
    // A clock that went back does not make an entry old.
    assert!(cache.lookup("k", 0).is_some());
    assert_eq!(CACHE_TTL, 3600 * 1_000_000_000);
}

#[test]
fn storing_again_replaces_and_leaves_others() {
    let mut cache = Cache::new();
    cache.store("k".to_string(), list(&["a"]), 0);
    cache.store("l".to_string(), list(&["x"]), 0);
    cache.store("k".to_string(), list(&[]), CACHE_TTL);
    assert_eq!(cache.lookup("k", CACHE_TTL), Some(list(&[])));
    assert!(cache.lookup("l", CACHE_TTL).is_none());
    assert_eq!(cache.lookup("l", CACHE_TTL - 1), Some(list(&["x"])));
}

#[test]
fn eviction_counts_and_changes_no_lookup() {
    let mut cache = Cache::new();
    cache.store("old".to_string(), list(&["a"]), 0);
    cache.store("older".to_string(), list(&["b"]), 1);
    cache.store("new".to_string(), list(&["c"]), CACHE_TTL);
    assert_eq!(cache.evict(CACHE_TTL), 1);
    assert!(cache.lookup("old", CACHE_TTL).is_none());
    assert_eq!(cache.lookup("older", CACHE_TTL), Some(list(&["b"])));
    assert_eq!(cache.lookup("new", CACHE_TTL), Some(list(&["c"])));
    assert_eq!(cache.evict(CACHE_TTL), 0);
    assert_eq!(cache.evict(3 * CACHE_TTL), 2);
    assert_eq!(cache.evict(3 * CACHE_TTL), 0);
    cache.store("old".to_string(), list(&["d"]), 3 * CACHE_TTL);
    assert_eq!(cache.lookup("old", 3 * CACHE_TTL), Some(list(&["d"])));
}
