use orbitmail::body_cache::{get_cached_body, insert_cached_body, BodyCache, MAX_CACHE_SIZE};

#[test]
fn empty_cache_has_no_body() {
    let mut cache = BodyCache::new();
    assert_eq!(cache.len(), 0);
    assert_eq!(get_cached_body(&mut cache, 7), None);
}

#[test]
fn inserted_body_is_returned() {
    let mut cache = BodyCache::new();
    insert_cached_body(&mut cache, 7, "<p>seven</p>".to_string());
    assert_eq!(get_cached_body(&mut cache, 7), Some("<p>seven</p>".to_string()));
    assert_eq!(get_cached_body(&mut cache, 8), None);
    assert_eq!(cache.len(), 1);
}

#[test]
fn insert_replaces_body_of_known_uid() {
    let mut cache = BodyCache::new();
    insert_cached_body(&mut cache, 7, "old".to_string());
    insert_cached_body(&mut cache, 7, "new".to_string());
    assert_eq!(cache.len(), 1);
    assert_eq!(get_cached_body(&mut cache, 7), Some("new".to_string()));
}

#[test]
fn cache_never_outgrows_fifty() {
    let mut cache = BodyCache::new();
    for uid in 1..=120u32 {
        insert_cached_body(&mut cache, uid, format!("body {}", uid));
        assert!(cache.len() <= MAX_CACHE_SIZE);
    }
    assert_eq!(cache.len(), 50);
}

#[test]
fn distinct_insertions_keep_the_fifty_latest() {
    let mut cache = BodyCache::new();
    for uid in 1..=60u32 {
        insert_cached_body(&mut cache, uid, format!("body {}", uid));
    }
    for uid in 1..=10u32 {
        assert!(!cache.contains(uid));
    }
    for uid in 11..=60u32 {
        assert!(cache.contains(uid));
    }
}

#[test]
fn access_protects_entry_from_eviction() {
    let mut cache = BodyCache::new();
    for uid in 1..=50u32 {
        insert_cached_body(&mut cache, uid, format!("body {}", uid));
    }
    assert_eq!(get_cached_body(&mut cache, 1), Some("body 1".to_string()));
    insert_cached_body(&mut cache, 51, "body 51".to_string());
    assert!(cache.contains(1));
    assert!(!cache.contains(2));
    assert!(cache.contains(51));
    assert_eq!(cache.len(), 50);
}

#[test]
fn full_cache_keeps_all_when_key_is_known() {
    let mut cache = BodyCache::new();
    for uid in 1..=50u32 {
        insert_cached_body(&mut cache, uid, format!("body {}", uid));
    }
    insert_cached_body(&mut cache, 25, "again".to_string());
    assert_eq!(cache.len(), 50);
    for uid in 1..=50u32 {
        assert!(cache.contains(uid));
    }
    assert_eq!(get_cached_body(&mut cache, 25), Some("again".to_string()));
}
