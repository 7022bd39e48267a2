use orbitmail::message::MessageHeader;
use orbitmail::store::{
    clear_messages, delete_message_local, get_highest_uid, get_mailbox_validity,
    get_message_body_cache, get_unfetched_recent_uids, insert_or_update_messages, is_message_seen,
    load_cached_messages, load_messages_page, set_message_flagged, set_message_seen,
    update_mailbox_validity, update_message_body, Store,
};

fn header(folder: &str, uid: u32, subject: &str) -> MessageHeader {
    MessageHeader {
        folder: folder.to_string(),
        uid,
        uid_validity: 9,
        subject: subject.to_string(),
        from: "someone@example.com".to_string(),
        date: 1000 + uid as i64,
        seen: false,
        flagged: false,
        has_attachments: false,
        thread_id: None,
        snippet: Some(format!("snippet {}", uid)),
    }
}

fn filled(uids: &[u32]) -> Store {
    let mut store = Store::new();
    let batch: Vec<MessageHeader> = uids.iter().map(|u| header("INBOX", *u, "s")).collect();
    insert_or_update_messages(&mut store, &batch);
    store
}

fn uids_of(page: &Vec<MessageHeader>) -> Vec<u32> {
    page.iter().map(|h| h.uid).collect()
}

#[test]
fn highest_uid_of_empty_store_is_zero() {
    let store = Store::new();
    assert_eq!(get_highest_uid(&store, "INBOX"), 0);
}

#[test]
fn highest_uid_is_per_folder() {
    let mut store = filled(&[3, 17, 5]);
    insert_or_update_messages(&mut store, &vec![header("Sent", 90, "x")]);
    assert_eq!(get_highest_uid(&store, "INBOX"), 17);
    assert_eq!(get_highest_uid(&store, "Sent"), 90);
    assert_eq!(get_highest_uid(&store, "Drafts"), 0);
}

#[test]
fn highest_uid_never_falls_without_delete() {
    let mut store = Store::new();
    let mut last = get_highest_uid(&store, "INBOX");
    let steps: [u32; 7] = [5, 3, 9, 9, 1, 12, 4];
    for uid in steps {
        insert_or_update_messages(&mut store, &vec![header("INBOX", uid, "s")]);
        set_message_seen(&mut store, "INBOX", uid, true);
        set_message_flagged(&mut store, "INBOX", 3, true);
        update_message_body(&mut store, "INBOX", uid, "<p>b</p>", "b");
        let now = get_highest_uid(&store, "INBOX");
        assert!(now >= last);
        last = now;
    }
    assert_eq!(last, 12);
}

#[test]
fn seen_flag_is_found_after_it_was_set() {
    let mut store = filled(&[1, 2, 3]);
    assert!(!is_message_seen(&store, "INBOX", 2));
    set_message_seen(&mut store, "INBOX", 2, true);
    assert!(is_message_seen(&store, "INBOX", 2));
    assert!(!is_message_seen(&store, "INBOX", 1));
    set_message_seen(&mut store, "INBOX", 2, false);
    assert!(!is_message_seen(&store, "INBOX", 2));
}

#[test]
fn seen_flag_of_absent_message_is_false() {
    let mut store = filled(&[1]);
    set_message_seen(&mut store, "INBOX", 44, true);
    assert!(!is_message_seen(&store, "INBOX", 44));
    assert_eq!(store.len(), 1);
}

#[test]
fn upsert_keeps_the_fetched_body() {
    let mut store = filled(&[7, 8]);
    update_message_body(&mut store, "INBOX", 7, "<p>body</p>", "body");
    let mut changed = header("INBOX", 7, "new subject");
    changed.seen = true;
    changed.flagged = true;
    changed.snippet = None;
    insert_or_update_messages(&mut store, &vec![changed, header("INBOX", 9, "nine")]);
    assert_eq!(get_message_body_cache(&store, "INBOX", 7), Some("<p>body</p>".to_string()));
    assert_eq!(get_message_body_cache(&store, "INBOX", 8), None);
    assert_eq!(store.len(), 3);
    let page = load_messages_page(&store, "INBOX", None, 10);
    assert_eq!(uids_of(&page), vec![9, 8, 7]);
    assert_eq!(page[2].subject, "new subject");
    assert!(page[2].seen);
    assert!(page[2].flagged);
    assert_eq!(page[2].snippet, Some("".to_string()));
    assert_eq!(page[2].uid_validity, 9);
}

#[test]
fn upsert_of_new_message_has_no_body() {
    let store = filled(&[1]);
    assert_eq!(get_message_body_cache(&store, "INBOX", 1), None);
    let page = load_messages_page(&store, "INBOX", None, 10);
    assert_eq!(page.len(), 1);
    assert_eq!(page[0].folder, "INBOX");
    assert_eq!(page[0].from, "someone@example.com");
    assert_eq!(page[0].date, 1001);
    assert_eq!(page[0].snippet, Some("snippet 1".to_string()));
    assert!(!page[0].has_attachments);
    assert_eq!(page[0].thread_id, None);
}

#[test]
fn empty_batch_changes_nothing() {
    let mut store = filled(&[1, 2]);
    insert_or_update_messages(&mut store, &Vec::new());
    assert_eq!(store.len(), 2);
}

#[test]
fn update_body_sets_body_and_snippet() {
    let mut store = filled(&[5]);
    update_message_body(&mut store, "INBOX", 5, "<b>x</b>", "x");
    assert_eq!(get_message_body_cache(&store, "INBOX", 5), Some("<b>x</b>".to_string()));
    let page = load_messages_page(&store, "INBOX", None, 1);
    assert_eq!(page[0].snippet, Some("x".to_string()));
    update_message_body(&mut store, "INBOX", 6, "<b>y</b>", "y");
    assert_eq!(get_message_body_cache(&store, "INBOX", 6), None);
}

#[test]
fn page_is_ordered_from_highest_uid_down() {
    let store = filled(&[4, 10, 2, 8, 6]);
    assert_eq!(uids_of(&load_messages_page(&store, "INBOX", None, 3)), vec![10, 8, 6]);
    assert_eq!(uids_of(&load_messages_page(&store, "INBOX", Some(8), 3)), vec![6, 4, 2]);
    assert_eq!(uids_of(&load_messages_page(&store, "INBOX", Some(8), 2)), vec![6, 4]);
    assert_eq!(uids_of(&load_messages_page(&store, "INBOX", Some(2), 5)), Vec::<u32>::new());
    assert_eq!(uids_of(&load_messages_page(&store, "INBOX", None, 0)), Vec::<u32>::new());
    assert_eq!(uids_of(&load_messages_page(&store, "INBOX", None, 50)), vec![10, 8, 6, 4, 2]);
    assert_eq!(uids_of(&load_messages_page(&store, "Sent", None, 50)), Vec::<u32>::new());
    assert_eq!(uids_of(&load_cached_messages(&store, 2)), vec![10, 8]);
}

#[test]
fn unfetched_recent_uids_are_newest_first_within_the_window() {
    let mut store = filled(&[1, 100, 300, 301, 302, 500]);
    update_message_body(&mut store, "INBOX", 302, "<p>x</p>", "x");
    assert_eq!(get_unfetched_recent_uids(&store, "INBOX", 10), vec![500, 301]);
    assert_eq!(get_unfetched_recent_uids(&store, "INBOX", 1), vec![500]);
    assert_eq!(get_unfetched_recent_uids(&store, "INBOX", 0), Vec::<u32>::new());
    assert_eq!(get_unfetched_recent_uids(&store, "Sent", 10), Vec::<u32>::new());
}

#[test]
fn unfetched_recent_uids_with_low_uids_take_all() {
    let mut store = filled(&[1, 2, 3]);
    update_message_body(&mut store, "INBOX", 2, "<p>x</p>", "x");
    assert_eq!(get_unfetched_recent_uids(&store, "INBOX", 10), vec![3, 1]);
    let window = filled(&[1, 201, 202]);
    assert_eq!(get_unfetched_recent_uids(&window, "INBOX", 10), vec![202, 201]);
    let edge = filled(&[3, 203]);
    assert_eq!(get_unfetched_recent_uids(&edge, "INBOX", 10), vec![203]);
    let inside = filled(&[4, 203]);
    assert_eq!(get_unfetched_recent_uids(&inside, "INBOX", 10), vec![203, 4]);
}

#[test]
fn delete_removes_one_row() {
    let mut store = filled(&[1, 2, 3]);
    delete_message_local(&mut store, "INBOX", 2);
    assert_eq!(uids_of(&load_messages_page(&store, "INBOX", None, 10)), vec![3, 1]);
    delete_message_local(&mut store, "INBOX", 2);
    delete_message_local(&mut store, "Sent", 1);
    assert_eq!(store.len(), 2);
}

#[test]
fn clear_removes_the_folder_and_nothing_else() {
    let mut store = filled(&[1, 2, 3]);
    insert_or_update_messages(&mut store, &vec![header("Sent", 5, "x"), header("INBOX", 4, "y")]);
    clear_messages(&mut store, "INBOX");
    assert_eq!(get_highest_uid(&store, "INBOX"), 0);
    assert_eq!(uids_of(&load_messages_page(&store, "INBOX", None, 10)), Vec::<u32>::new());
    assert_eq!(uids_of(&load_messages_page(&store, "Sent", None, 10)), vec![5]);
    assert_eq!(store.len(), 1);
}

#[test]
fn mailbox_validity_is_recorded_and_replaced() {
    let mut store = Store::new();
    assert_eq!(get_mailbox_validity(&store, "INBOX"), None);
    update_mailbox_validity(&mut store, "INBOX", 100);
    update_mailbox_validity(&mut store, "Sent", 7);
    assert_eq!(get_mailbox_validity(&store, "INBOX"), Some(100));
    update_mailbox_validity(&mut store, "INBOX", 200);
    assert_eq!(get_mailbox_validity(&store, "INBOX"), Some(200));
    assert_eq!(get_mailbox_validity(&store, "Sent"), Some(7));
    assert_eq!(get_mailbox_validity(&store, "Drafts"), None);
}

#[test]
fn flagged_flag_is_set_and_cleared() {
    let mut store = filled(&[1]);
    set_message_flagged(&mut store, "INBOX", 1, true);
    assert!(load_messages_page(&store, "INBOX", None, 1)[0].flagged);
    set_message_flagged(&mut store, "INBOX", 1, false);
    assert!(!load_messages_page(&store, "INBOX", None, 1)[0].flagged);
}
