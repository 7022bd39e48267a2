use orbitmail::body::{fetch_and_cache_body_internal, get_message_body, BodyError, BODY_FETCH_PERMITS};
use orbitmail::body_cache::BodyCache;
use orbitmail::commands::{
    confirm_delete, confirm_read, confirm_star, delete_message,
    get_cached_messages, get_messages_page, mark_as_read, toggle_star, TRASH_MAILBOX,
};
use orbitmail::message::MessageHeader;
use orbitmail::store::{
    get_message_body_cache, insert_or_update_messages, is_message_seen, load_messages_page, Store,
};

fn store_with(uids: std::ops::RangeInclusive<u32>) -> Store {
    let mut store = Store::new();
    let batch: Vec<MessageHeader> = uids
        .map(|u| MessageHeader {
            folder: "INBOX".to_string(),
            uid: u,
            uid_validity: 1,
            subject: String::new(),
            from: String::new(),
            date: 0,
            seen: false,
            flagged: false,
            has_attachments: false,
            thread_id: None,
            snippet: Some("from header".to_string()),
        })
        .collect();
    insert_or_update_messages(&mut store, &batch);
    store
}

#[test]
fn mark_as_read_twice_stores_once() {
    let mut store = store_with(1..=3);
    let first = mark_as_read(&store, 2).unwrap();
    assert_eq!(first.uid_set, "2");
    assert_eq!(first.query, "+FLAGS.SILENT (\\Seen)");
    confirm_read(&mut store, 2);
    assert!(is_message_seen(&store, "INBOX", 2));
    assert!(mark_as_read(&store, 2).is_none());
    assert!(mark_as_read(&store, 3).is_some());
}

#[test]
fn mark_as_read_of_unknown_message_always_asks() {
    let mut store = store_with(1..=1);
    assert!(mark_as_read(&store, 77).is_some());
    confirm_read(&mut store, 77);
    assert!(mark_as_read(&store, 77).is_some());
}

#[test]
fn star_is_set_and_taken() {
    let mut store = store_with(4..=4);
    let on = toggle_star(4, true);
    assert_eq!((on.uid_set.as_str(), on.query.as_str()), ("4", "+FLAGS.SILENT (\\Flagged)"));
    confirm_star(&mut store, 4, true);
    assert!(load_messages_page(&store, "INBOX", None, 1)[0].flagged);
    let off = toggle_star(4, false);
    assert_eq!((off.uid_set.as_str(), off.query.as_str()), ("4", "-FLAGS.SILENT (\\Flagged)"));
    confirm_star(&mut store, 4, false);
    assert!(!load_messages_page(&store, "INBOX", None, 1)[0].flagged);
}

#[test]
fn delete_falls_back_to_label_and_flag() {
    let mut store = store_with(1..=2);
    let plan = delete_message(2);
    assert_eq!(plan.uid_set, "2");
    assert_eq!(plan.trash, "[Gmail]/Trash");
    assert_eq!(TRASH_MAILBOX, "[Gmail]/Trash");
    let fallback = plan.fallback;
    assert_eq!(fallback.len(), 2);
    assert_eq!(fallback[0].uid_set, "2");
    assert_eq!(fallback[0].query, "+X-GM-LABELS (\\Trash)");
    assert_eq!(fallback[1].uid_set, "2");
    assert_eq!(fallback[1].query, "+FLAGS.SILENT (\\Deleted)");
    confirm_delete(&mut store, 2);
    assert_eq!(store.len(), 1);
    assert!(!is_message_seen(&store, "INBOX", 2));
}

#[test]
fn pages_are_capped_at_one_hundred() {
    let store = store_with(1..=150);
    assert_eq!(get_messages_page(&store, None, 1000).len(), 100);
    assert_eq!(get_messages_page(&store, None, 100).len(), 100);
    assert_eq!(get_messages_page(&store, None, 7).len(), 7);
    let page = get_messages_page(&store, Some(51), 1000);
    assert_eq!(page.len(), 50);
    assert_eq!(page[0].uid, 50);
    assert_eq!(page[49].uid, 1);
    let cached = get_cached_messages(&store);
    assert_eq!(cached.len(), 25);
    assert_eq!(cached[0].uid, 150);
    assert_eq!(cached[24].uid, 126);
}

#[test]
fn body_comes_from_memory_then_store() {
    let mut store = store_with(1..=2);
    let mut cache = BodyCache::new();
    assert_eq!(get_message_body(&mut cache, &store, 1), None);
    assert_eq!(cache.len(), 0);
    let raw = b"Content-Type: text/html\r\n\r\n<p>This body is long enough to show</p>";
    let shown = fetch_and_cache_body_internal(&mut cache, &mut store, 1, raw, "/c").unwrap();
    assert_eq!(shown.html, "<p>This body is long enough to show</p>");
    assert_eq!(shown.snippet, "This body is long enough to show");
    assert_eq!(shown.assets.len(), 0);
    assert_eq!(
        get_message_body_cache(&store, "INBOX", 1),
        Some("<p>This body is long enough to show</p>".to_string())
    );
    assert_eq!(
        load_messages_page(&store, "INBOX", Some(2), 1)[0].snippet,
        Some("This body is long enough to show".to_string())
    );
    assert!(cache.contains(1));
    let mut cold = BodyCache::new();
    assert_eq!(
        get_message_body(&mut cold, &store, 1),
        Some("<p>This body is long enough to show</p>".to_string())
    );
    assert!(cold.contains(1));
    assert_eq!(get_message_body(&mut cold, &store, 2), None);
    assert!(!cold.contains(2));
}

#[test]
fn empty_payload_is_not_retrieved() {
    let mut store = store_with(1..=1);
    let mut cache = BodyCache::new();
    let r = fetch_and_cache_body_internal(&mut cache, &mut store, 1, &[], "/c");
    assert_eq!(r.err(), Some(BodyError::NotRetrieved));
    assert_eq!(BodyError::NotRetrieved.message(), "Could not retrieve message body.");
    assert_eq!(cache.len(), 0);
    assert_eq!(get_message_body_cache(&store, "INBOX", 1), None);
    assert_eq!(BODY_FETCH_PERMITS, 3);
}
