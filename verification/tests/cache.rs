use std::time::Duration;

use ruprizzle::cache::{InMemoryCache, QueryCache};

#[test]
fn cache_set_and_get() {
    let mut cache = InMemoryCache::new(100);
    cache.set("k1", b"v1".to_vec(), None, &["users"]);
    assert_eq!(cache.get("k1"), Some(b"v1".to_vec()));
    assert_eq!(cache.len(), 1);
}

#[test]
fn cache_ttl_expiration() {
    const TTL: u128 = 500_000_000;

    let mut cache = InMemoryCache::new(100);
    cache.set_at("k1", b"v1".to_vec(), Some(TTL), &[], 0);
    assert_eq!(cache.get_at("k1", 0), Some(b"v1".to_vec()));
    assert_eq!(cache.get_at("k1", TTL - 1), Some(b"v1".to_vec()));
    assert_eq!(cache.get_at("k1", TTL), None);
    assert_eq!(cache.get_at("k1", TTL + 10_000_000), None);
}

#[test]
fn cache_tag_invalidation() {
    let mut cache = InMemoryCache::new(100);
    cache.set("user_1", b"data1".to_vec(), None, &["users"]);
    cache.set("user_2", b"data2".to_vec(), None, &["users", "admins"]);
    cache.set("post_1", b"data3".to_vec(), None, &["posts"]);

    assert_eq!(cache.len(), 3);
    cache.invalidate_tag("users");
    assert_eq!(cache.get("user_1"), None);
    assert_eq!(cache.get("user_2"), None);
    assert_eq!(cache.get("post_1"), Some(b"data3".to_vec()));

    // Ensure "admins" tag index was pruned when user_2 was removed
    assert!(!cache.has_tag("admins"));
}

#[test]
fn cache_secondary_tag_cleanup() {
    let mut cache = InMemoryCache::new(100);
    cache.set("shared", b"shared_data".to_vec(), None, &["t1", "t2", "t3"]);
    assert_eq!(cache.tag_count(), 3);

    cache.invalidate_tag("t2");
    assert_eq!(cache.get("shared"), None);
    assert_eq!(cache.tag_count(), 0);
}

#[test]
fn cache_get_missing_key_is_none() {
    let cache = InMemoryCache::new(10);
    assert_eq!(cache.get("nothing"), None);
    assert!(cache.is_empty());
}

#[test]
fn cache_set_replaces_value_under_same_key() {
    let mut cache = InMemoryCache::new(10);
    cache.set("k", b"first".to_vec(), None, &["a"]);
    cache.set("k", b"second".to_vec(), None, &["b"]);
    assert_eq!(cache.len(), 1);
    assert_eq!(cache.get("k"), Some(b"second".to_vec()));
    cache.invalidate_tag("a");
    assert_eq!(cache.get("k"), Some(b"second".to_vec()));
    cache.invalidate_tag("b");
    assert_eq!(cache.get("k"), None);
}

#[test]
fn cache_evicts_one_entry_when_full() {
    let mut cache = InMemoryCache::new(2);
    cache.set("a", b"1".to_vec(), None, &["ta"]);
    cache.set("b", b"2".to_vec(), None, &["tb"]);
    cache.set("c", b"3".to_vec(), None, &["tc"]);
    assert_eq!(cache.len(), 2);
    assert_eq!(cache.get("c"), Some(b"3".to_vec()));
    let survivors = [cache.get("a").is_some(), cache.get("b").is_some()];
    assert_eq!(survivors.iter().filter(|x| **x).count(), 1);
}

#[test]
fn cache_full_cache_replacing_existing_key_does_not_evict() {
    let mut cache = InMemoryCache::new(2);
    cache.set("a", b"1".to_vec(), None, &[]);
    cache.set("b", b"2".to_vec(), None, &[]);
    cache.set("a", b"3".to_vec(), None, &[]);
    assert_eq!(cache.len(), 2);
    assert_eq!(cache.get("a"), Some(b"3".to_vec()));
    assert_eq!(cache.get("b"), Some(b"2".to_vec()));
}

#[test]
fn cache_zero_capacity_still_holds_one_entry() {
    let mut cache = InMemoryCache::new(0);
    cache.set("a", b"1".to_vec(), None, &[]);
    assert_eq!(cache.len(), 1);
    cache.set("b", b"2".to_vec(), None, &[]);
    assert_eq!(cache.len(), 1);
    assert_eq!(cache.get("b"), Some(b"2".to_vec()));
    assert_eq!(cache.get("a"), None);
}

#[test]
fn cache_invalidate_tags_removes_all_listed() {
    let mut cache = InMemoryCache::new(10);
    cache.set("u", b"1".to_vec(), None, &["users"]);
    cache.set("p", b"2".to_vec(), None, &["posts"]);
    cache.set("c", b"3".to_vec(), None, &["comments"]);
    cache.invalidate_tags(&["users", "posts"]);
    assert_eq!(cache.get("u"), None);
    assert_eq!(cache.get("p"), None);
    assert_eq!(cache.get("c"), Some(b"3".to_vec()));
    assert_eq!(cache.len(), 1);
}

#[test]
fn cache_invalidate_unknown_tag_changes_nothing() {
    let mut cache = InMemoryCache::new(10);
    cache.set("u", b"1".to_vec(), None, &["users"]);
    cache.invalidate_tag("nope");
    assert_eq!(cache.get("u"), Some(b"1".to_vec()));
    assert_eq!(cache.tag_count(), 1);
}

#[test]
fn cache_clear_empties_entries_and_tags() {
    let mut cache = InMemoryCache::new(10);
    cache.set("u", b"1".to_vec(), None, &["users"]);
    cache.clear();
    assert!(cache.is_empty());
    assert_eq!(cache.tag_count(), 0);
}

#[test]
fn cache_prune_expired_at_removes_only_expired() {
    let mut cache = InMemoryCache::new(10);
    cache.set_at("old", b"1".to_vec(), Some(100), &["t"], 0);
    cache.set_at("new", b"2".to_vec(), Some(1_000), &["t"], 0);
    cache.set_at("forever", b"3".to_vec(), None, &["t"], 0);
    cache.prune_expired_at(500);
    assert_eq!(cache.entry_count(), 2);
    assert_eq!(cache.get_at("new", 500), Some(b"2".to_vec()));
    assert_eq!(cache.get_at("forever", 500), Some(b"3".to_vec()));
    assert_eq!(cache.get_at("old", 0), None);
    assert!(cache.has_tag("t"));
}

#[test]
fn cache_prune_expired_keeps_entries_without_ttl() {
    let mut cache = InMemoryCache::new(10);
    cache.set("a", b"1".to_vec(), None, &[]);
    cache.set("b", b"2".to_vec(), Some(Duration::from_secs(3600)), &[]);
    cache.prune_expired();
    assert_eq!(cache.len(), 2);
}

#[test]
fn cache_ttl_deadline_saturates() {
    let mut cache = InMemoryCache::new(10);
    cache.set_at("k", b"v".to_vec(), Some(u128::MAX), &[], 10);
    assert_eq!(cache.get_at("k", u128::MAX - 1), Some(b"v".to_vec()));
    assert_eq!(cache.get_at("k", u128::MAX), None);
}

#[test]
fn cache_default_is_empty() {
    let cache = InMemoryCache::default();
    assert!(cache.is_empty());
    assert_eq!(cache.tag_count(), 0);
}

#[test]
fn cache_ttl_expires_in_real_time() {
    let ttl = Duration::from_millis(200);
    let mut cache = InMemoryCache::new(100);
    let before = std::time::Instant::now();
    cache.set("k1", b"v1".to_vec(), Some(ttl), &[]);
    let after = std::time::Instant::now();
    if before.elapsed() < ttl {
        assert_eq!(cache.get("k1"), Some(b"v1".to_vec()));
    }
    while after.elapsed() <= ttl {
        std::hint::spin_loop();
    }
    assert_eq!(cache.get("k1"), None);
    assert_eq!(cache.len(), 0);
    assert!(cache.is_empty());
    assert_eq!(cache.entry_count(), 1);
}
