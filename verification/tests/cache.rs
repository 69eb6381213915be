use std::time::Duration;

use rustpress::cache::{decr_value, incr_value, parse_cache_number, ObjectCache};
use serde_json::Value;

#[test]
fn object_cache_supports_groups() {
    let mut cache = ObjectCache::default();
    cache.set("post_1", "posts", Value::String("cached".to_string()), None);
    assert_eq!(cache.get("post_1", "posts"), Some(Value::String("cached".to_string())));
    assert!(cache.delete("post_1", "posts"));
    assert_eq!(cache.get("post_1", "posts"), None);
}

#[test]
fn object_cache_add_only_stores_when_key_missing() {
    let mut cache = ObjectCache::default();
    assert!(cache.add("post_1", "posts", Value::String("initial".to_string()), None));
    assert!(!cache.add("post_1", "posts", Value::String("new-value".to_string()), None));
    assert_eq!(cache.get("post_1", "posts"), Some(Value::String("initial".to_string())));
}

#[test]
fn object_cache_entries_expire_based_on_ttl() {
    let mut cache = ObjectCache::default();
    cache.set(
        "post_1",
        "posts",
        Value::String("ephemeral".to_string()),
        Some(Duration::from_secs(0)),
    );
    assert_eq!(cache.get("post_1", "posts"), None);
}

#[test]
fn object_cache_get_multiple_reports_hits_and_misses() {
    let mut cache = ObjectCache::default();
    cache.set("first", "posts", Value::String("one".to_string()), None);
    cache.set("second", "posts", Value::String("two".to_string()), None);

    let keys = vec!["first".to_string(), "second".to_string(), "missing".to_string()];
    let result = cache.get_multiple(&keys, "posts");
    assert_eq!(result.get("first"), Some(&Some(Value::String("one".to_string()))));
    assert_eq!(result.get("second"), Some(&Some(Value::String("two".to_string()))));
    assert_eq!(result.get("missing"), Some(&None));
}

#[test]
fn object_cache_set_multiple_stores_all_entries() {
    let mut cache = ObjectCache::default();
    let entries = vec![
        ("first".to_string(), Value::String("one".to_string())),
        ("second".to_string(), Value::String("two".to_string())),
    ];

    assert_eq!(cache.set_multiple(&entries, "posts", None), 2);
    assert_eq!(cache.get("first", "posts"), Some(Value::String("one".to_string())));
    assert_eq!(cache.get("second", "posts"), Some(Value::String("two".to_string())));
}

#[test]
fn object_cache_add_multiple_only_adds_missing_keys() {
    let mut cache = ObjectCache::default();
    cache.set("existing", "posts", Value::String("seed".to_string()), None);
    let entries = vec![
        ("existing".to_string(), Value::String("new".to_string())),
        ("fresh".to_string(), Value::String("value".to_string())),
    ];

    let result = cache.add_multiple(&entries, "posts", None);
    assert_eq!(result.get("existing"), Some(&false));
    assert_eq!(result.get("fresh"), Some(&true));
    assert_eq!(cache.get("existing", "posts"), Some(Value::String("seed".to_string())));
    assert_eq!(cache.get("fresh", "posts"), Some(Value::String("value".to_string())));
}

#[test]
fn object_cache_replace_multiple_only_replaces_existing_keys() {
    let mut cache = ObjectCache::default();
    cache.set("existing", "posts", Value::String("seed".to_string()), None);
    let entries = vec![
        ("existing".to_string(), Value::String("updated".to_string())),
        ("missing".to_string(), Value::String("value".to_string())),
    ];

    let result = cache.replace_multiple(&entries, "posts", None);
    assert_eq!(result.get("existing"), Some(&true));
    assert_eq!(result.get("missing"), Some(&false));
    assert_eq!(cache.get("existing", "posts"), Some(Value::String("updated".to_string())));
    assert_eq!(cache.get("missing", "posts"), None);
}

#[test]
fn object_cache_delete_multiple_removes_existing_keys() {
    let mut cache = ObjectCache::default();
    cache.set("first", "posts", Value::String("one".to_string()), None);
    cache.set("second", "posts", Value::String("two".to_string()), None);

    let keys = vec!["first".to_string(), "missing".to_string(), "second".to_string()];
    assert_eq!(cache.delete_multiple(&keys, "posts"), 2);
    assert_eq!(cache.get("first", "posts"), None);
    assert_eq!(cache.get("second", "posts"), None);
}

#[test]
fn object_cache_replace_requires_existing_key() {
    let mut cache = ObjectCache::default();
    assert!(!cache.replace("post_1", "posts", Value::String("value".to_string()), None));

    cache.set("post_1", "posts", Value::String("initial".to_string()), None);
    assert!(cache.replace("post_1", "posts", Value::String("updated".to_string()), None));
    assert_eq!(cache.get("post_1", "posts"), Some(Value::String("updated".to_string())));
}

#[test]
fn object_cache_add_succeeds_after_expired_entry() {
    let mut cache = ObjectCache::default();
    assert!(cache.add(
        "post_1",
        "posts",
        Value::String("expired".to_string()),
        Some(Duration::from_secs(0)),
    ));
    assert!(cache.add("post_1", "posts", Value::String("fresh".to_string()), None));
    assert_eq!(cache.get("post_1", "posts"), Some(Value::String("fresh".to_string())));
}

#[test]
fn object_cache_incr_and_decr_support_numeric_values() {
    let mut cache = ObjectCache::default();
    cache.set("counter", "stats", Value::from(10), None);

    assert_eq!(cache.incr("counter", "stats", 2), Some(12));
    assert_eq!(cache.decr("counter", "stats", 5), Some(7));
    assert_eq!(cache.get("counter", "stats"), Some(Value::from(7)));
}

#[test]
fn object_cache_decr_floors_at_zero() {
    let mut cache = ObjectCache::default();
    cache.set("counter", "stats", Value::from(3), None);

    assert_eq!(cache.decr("counter", "stats", 10), Some(0));
    assert_eq!(cache.get("counter", "stats"), Some(Value::from(0)));
}

#[test]
fn object_cache_incr_rejects_non_numeric_values() {
    let mut cache = ObjectCache::default();
    cache.set("counter", "stats", Value::String("not-a-number".to_string()), None);

    assert_eq!(cache.incr("counter", "stats", 1), None);
    assert_eq!(cache.decr("counter", "stats", 1), None);
}

#[test]
fn object_cache_flush_group_clears_only_target_group() {
    let mut cache = ObjectCache::default();
    cache.set("post_1", "posts", Value::String("cached".to_string()), None);
    cache.set("user_1", "users", Value::String("cached-user".to_string()), None);

    assert!(cache.flush_group("posts"));
    assert_eq!(cache.get("post_1", "posts"), None);
    assert_eq!(cache.get("user_1", "users"), Some(Value::String("cached-user".to_string())));
}

#[test]
fn object_cache_flush_all_clears_every_group() {
    let mut cache = ObjectCache::default();
    cache.set("post_1", "posts", Value::String("cached".to_string()), None);
    cache.set("user_1", "users", Value::String("cached-user".to_string()), None);

    cache.flush_all();

    assert_eq!(cache.get("post_1", "posts"), None);
    assert_eq!(cache.get("user_1", "users"), None);
}

// ---- further cases ----

#[test]
fn entries_expire_at_their_time() {
    let mut cache = ObjectCache::default();
    cache.set_at("k", "g", Value::from(1), Some(10), 100);
    assert_eq!(cache.get_at("k", "g", 109), Some(Value::from(1)));
    assert_eq!(cache.get_at("k", "g", 110), None);
    // The expired entry is gone, so delete finds nothing.
    assert!(!cache.delete("k", "g"));
}

#[test]
fn replace_drops_expired_entry() {
    let mut cache = ObjectCache::default();
    cache.set_at("k", "g", Value::from(1), Some(5), 0);
    assert!(!cache.replace_at("k", "g", Value::from(2), None, 5));
    assert_eq!(cache.get_at("k", "g", 0), None);
}

#[test]
fn flush_group_reports_groups_created_by_failed_writes() {
    let mut cache = ObjectCache::default();
    assert!(!cache.flush_group("g"));
    assert!(!cache.replace("k", "g", Value::Null, None));
    assert!(cache.flush_group("g"));
    assert!(!cache.flush_group("g"));
}

#[test]
fn counter_arithmetic() {
    assert_eq!(incr_value(i64::MAX - 1, 5), i64::MAX);
    assert_eq!(incr_value(1, u64::MAX), i64::MAX);
    assert_eq!(decr_value(5, 3), 2);
    assert_eq!(decr_value(-5, 0), 0);
    assert_eq!(decr_value(i64::MIN, 1), 0);
}

#[test]
fn counter_reading() {
    assert_eq!(parse_cache_number(Some(4), Some(4), None), Some(4));
    assert_eq!(parse_cache_number(None, Some(u64::MAX), None), None);
    assert_eq!(parse_cache_number(None, None, Some(" -12 ")), Some(-12));
    assert_eq!(parse_cache_number(None, None, Some("+7")), Some(7));
    assert_eq!(parse_cache_number(None, None, Some("7x")), None);
    assert_eq!(parse_cache_number(None, None, None), None);
}

#[test]
fn string_counters_are_incremented() {
    let mut cache = ObjectCache::default();
    cache.set("c", "g", Value::String(" 41 ".to_string()), None);
    assert_eq!(cache.incr("c", "g", 1), Some(42));
    assert_eq!(cache.get("c", "g"), Some(Value::from(42)));
    assert_eq!(cache.incr("missing", "g", 1), None);
}
