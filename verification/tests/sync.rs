use orbitmail::message::{FetchedMessage, MessageFlag, MessageHeader};
use orbitmail::store::{
    get_highest_uid, get_mailbox_validity, insert_or_update_messages, update_mailbox_validity,
    update_message_body, Store,
};
use orbitmail::sync::{
    begin_sync, fetch_range, finish_sync, persist_messages, plan_sync, prefetch_candidates,
    read_fetched, sync_inbox, MailboxStatus, SyncAction, SyncError, SyncEvent, SyncLock,
    SyncOutcome, SyncStep, HEADER_QUERY,
};

fn status(validity: u32, uid_next: u32) -> MailboxStatus {
    MailboxStatus { uid_validity: Some(validity), uid_next: Some(uid_next), exists: 0 }
}

fn fetched(uid: u32) -> FetchedMessage {
    FetchedMessage {
        uid: Some(uid),
        flags: vec![MessageFlag::Seen],
        header: Some(format!("Subject: message {}\r\nFrom: a@example.com\r\n\r\n", uid).into_bytes()),
        body: None,
        text: None,
    }
}

fn plain(uid: u32) -> MessageHeader {
    MessageHeader {
        folder: "INBOX".to_string(),
        uid,
        uid_validity: 100,
        subject: String::new(),
        from: String::new(),
        date: 0,
        seen: false,
        flagged: false,
        has_attachments: false,
        thread_id: None,
        snippet: None,
    }
}

#[test]
fn cold_start_fetches_everything() {
    let mut store = Store::new();
    let step = begin_sync(&mut store, status(77, 205));
    assert_eq!(step, SyncStep::Fetch { start: 1, end: 204, bootstrap: true });
    assert_eq!(fetch_range(1, 204), "1:204");
    assert_eq!(get_mailbox_validity(&store, "INBOX"), Some(77));
    let responses: Vec<FetchedMessage> = (1..=204u32).map(fetched).collect();
    let outcome = finish_sync(&mut store, &responses, 77);
    assert_eq!(outcome, Ok(SyncOutcome { num_new: 204, notify: true }));
    assert_eq!(store.len(), 204);
    assert_eq!(get_highest_uid(&store, "INBOX"), 204);
    assert_eq!(
        prefetch_candidates(&store),
        vec![204, 203, 202, 201, 200, 199, 198, 197, 196, 195]
    );
}

#[test]
fn incremental_sync_fetches_what_is_new() {
    let mut store = Store::new();
    update_mailbox_validity(&mut store, "INBOX", 100);
    insert_or_update_messages(&mut store, &vec![plain(299), plain(300)]);
    let step = begin_sync(&mut store, status(100, 303));
    assert_eq!(step, SyncStep::Fetch { start: 301, end: 302, bootstrap: false });
    assert_eq!(fetch_range(301, 302), "301:302");
    assert_eq!(store.len(), 2);
    let outcome = finish_sync(&mut store, &vec![fetched(301), fetched(302)], 100);
    assert_eq!(outcome, Ok(SyncOutcome { num_new: 2, notify: true }));
    assert_eq!(store.len(), 4);
    assert_eq!(get_highest_uid(&store, "INBOX"), 302);
}

#[test]
fn uidvalidity_rollover_clears_and_bootstraps() {
    let mut store = Store::new();
    update_mailbox_validity(&mut store, "INBOX", 100);
    insert_or_update_messages(&mut store, &vec![plain(10), plain(20)]);
    update_message_body(&mut store, "INBOX", 10, "<p>x</p>", "x");
    let step = begin_sync(&mut store, status(200, 50));
    assert_eq!(store.len(), 0);
    assert_eq!(get_highest_uid(&store, "INBOX"), 0);
    assert_eq!(get_mailbox_validity(&store, "INBOX"), Some(200));
    assert_eq!(step, SyncStep::Fetch { start: 1, end: 49, bootstrap: true });
}

#[test]
fn rollover_keeps_other_folders() {
    let mut store = Store::new();
    update_mailbox_validity(&mut store, "INBOX", 100);
    let mut sent = plain(5);
    sent.folder = "Sent".to_string();
    insert_or_update_messages(&mut store, &vec![plain(10), sent]);
    let _ = begin_sync(&mut store, status(200, 1));
    assert_eq!(store.len(), 1);
    assert_eq!(get_highest_uid(&store, "Sent"), 5);
}

#[test]
fn nothing_new_means_no_fetch() {
    let mut store = Store::new();
    update_mailbox_validity(&mut store, "INBOX", 100);
    insert_or_update_messages(&mut store, &vec![plain(300)]);
    assert_eq!(begin_sync(&mut store, status(100, 301)), SyncStep::UpToDate);
    assert_eq!(begin_sync(&mut store, status(100, 300)), SyncStep::UpToDate);
    assert_eq!(begin_sync(&mut store, status(100, 0)), SyncStep::UpToDate);
    assert_eq!(store.len(), 1);
}

#[test]
fn missing_status_numbers_count_as_zero() {
    let mut store = Store::new();
    let step = begin_sync(
        &mut store,
        MailboxStatus { uid_validity: None, uid_next: None, exists: 3 },
    );
    assert_eq!(step, SyncStep::UpToDate);
    assert_eq!(get_mailbox_validity(&store, "INBOX"), Some(0));
}

#[test]
fn plan_handles_the_ends_of_the_uid_range() {
    assert_eq!(plan_sync(0, 0), SyncStep::UpToDate);
    assert_eq!(plan_sync(0, 1), SyncStep::UpToDate);
    assert_eq!(plan_sync(0, 2), SyncStep::Fetch { start: 1, end: 1, bootstrap: true });
    assert_eq!(plan_sync(u32::MAX, u32::MAX), SyncStep::UpToDate);
    assert_eq!(plan_sync(u32::MAX, 0), SyncStep::UpToDate);
    assert_eq!(
        plan_sync(5, u32::MAX),
        SyncStep::Fetch { start: 6, end: u32::MAX - 1, bootstrap: false }
    );
}

#[test]
fn empty_fetch_is_a_suspicious_zero_sync() {
    let mut store = Store::new();
    update_mailbox_validity(&mut store, "INBOX", 100);
    insert_or_update_messages(&mut store, &vec![plain(300)]);
    let outcome = finish_sync(&mut store, &Vec::new(), 100);
    assert_eq!(outcome, Err(SyncError::SuspiciousZeroSync));
    assert_eq!(store.len(), 1);
    assert_eq!(SyncError::SuspiciousZeroSync.message(), "Suspicious zero-sync detected");
}

#[test]
fn responses_without_uid_or_header_are_passed_over() {
    let mut store = Store::new();
    let mut no_uid = fetched(5);
    no_uid.uid = None;
    let mut no_header = fetched(6);
    no_header.header = None;
    let outcome = finish_sync(&mut store, &vec![no_uid, no_header], 1);
    assert_eq!(outcome, Err(SyncError::SuspiciousZeroSync));
    let mut other = fetched(5);
    other.uid = None;
    let read = read_fetched(&vec![other, fetched(7)], 1);
    assert_eq!(read.len(), 1);
    assert_eq!(read[0].uid, 7);
    assert_eq!(read[0].subject, "message 7");
    assert!(read[0].seen);
    assert!(!read[0].flagged);
    assert_eq!(read[0].uid_validity, 1);
}

#[test]
fn persisting_nothing_yields_no_event() {
    let mut store = Store::new();
    insert_or_update_messages(&mut store, &vec![plain(1)]);
    let outcome = persist_messages(&mut store, &Vec::new());
    assert_eq!(outcome, SyncOutcome { num_new: 0, notify: false });
    assert_eq!(store.len(), 1);
    let again = persist_messages(&mut store, &vec![plain(2), plain(3)]);
    assert_eq!(again, SyncOutcome { num_new: 2, notify: true });
}

#[test]
fn header_query_names_the_three_headers() {
    assert_eq!(HEADER_QUERY, "(UID FLAGS BODY.PEEK[HEADER.FIELDS (SUBJECT FROM DATE)])");
}

#[test]
fn only_one_sync_enters_the_lock() {
    let mut lock = SyncLock::new();
    assert!(!lock.is_sync_running());
    assert!(lock.try_enter());
    assert!(lock.is_sync_running());
    assert!(!lock.try_enter());
    assert!(lock.is_sync_running());
    lock.leave();
    assert!(!lock.is_sync_running());
    assert!(lock.try_enter());
}

#[test]
fn sync_runs_in_two_steps() {
    let mut store = Store::new();
    update_mailbox_validity(&mut store, "INBOX", 100);
    insert_or_update_messages(&mut store, &vec![plain(300)]);
    let first = sync_inbox(&mut store, &SyncEvent::Selected(status(100, 303)));
    assert_eq!(first, SyncAction::Fetch { start: 301, end: 302, bootstrap: false });
    let read = read_fetched(&vec![fetched(301), fetched(302)], 100);
    let second = sync_inbox(&mut store, &SyncEvent::Fetched { messages: read });
    assert_eq!(second, SyncAction::Finished(SyncOutcome { num_new: 2, notify: true }));
    assert_eq!(store.len(), 3);
    let again = sync_inbox(&mut store, &SyncEvent::Selected(status(100, 303)));
    assert_eq!(again, SyncAction::Finished(SyncOutcome { num_new: 0, notify: false }));
    let stale = sync_inbox(&mut store, &SyncEvent::Fetched { messages: Vec::new() });
    assert_eq!(stale, SyncAction::Failed(SyncError::SuspiciousZeroSync));
    assert_eq!(store.len(), 3);
}
