use orbitmail::message::MessageHeader;
use orbitmail::prefetch::{
    clear_prefetch_queue, enqueue_prefetch, finish_prefetch, next_prefetch, still_needed,
    PrefetchQueue, WorkerStep, BACKOFF_MILLIS, MAX_QUEUE, PAUSE_MILLIS,
};
use orbitmail::store::{insert_or_update_messages, update_message_body, Store};

fn store_with(uids: &[u32]) -> Store {
    let mut store = Store::new();
    let batch: Vec<MessageHeader> = uids
        .iter()
        .map(|u| MessageHeader {
            folder: "INBOX".to_string(),
            uid: *u,
            uid_validity: 1,
            subject: String::new(),
            from: String::new(),
            date: 0,
            seen: false,
            flagged: false,
            has_attachments: false,
            thread_id: None,
            snippet: None,
        })
        .collect();
    insert_or_update_messages(&mut store, &batch);
    store
}

#[test]
fn first_enqueue_starts_the_worker() {
    let store = Store::new();
    let mut queue = PrefetchQueue::new();
    assert!(enqueue_prefetch(&mut queue, &store, 5));
    assert!(!enqueue_prefetch(&mut queue, &store, 6));
    assert_eq!(queue.len(), 2);
    assert!(queue.is_queued(5));
    assert!(queue.is_queued(6));
}

#[test]
fn enqueue_skips_what_is_known() {
    let mut store = store_with(&[1, 2]);
    update_message_body(&mut store, "INBOX", 1, "<p>b</p>", "b");
    let mut queue = PrefetchQueue::new();
    assert!(!enqueue_prefetch(&mut queue, &store, 1));
    assert_eq!(queue.len(), 0);
    assert!(enqueue_prefetch(&mut queue, &store, 2));
    assert!(!enqueue_prefetch(&mut queue, &store, 2));
    assert_eq!(queue.len(), 1);
    assert_eq!(next_prefetch(&mut queue, 3), WorkerStep::Fetch(2));
    assert!(queue.is_in_progress(2));
    assert!(!enqueue_prefetch(&mut queue, &store, 2));
    assert_eq!(queue.len(), 0);
}

#[test]
fn full_queue_drops_its_oldest_entry() {
    let store = Store::new();
    let mut queue = PrefetchQueue::new();
    for uid in 1..=25u32 {
        enqueue_prefetch(&mut queue, &store, uid);
    }
    assert_eq!(queue.len(), MAX_QUEUE);
    enqueue_prefetch(&mut queue, &store, 26);
    assert_eq!(queue.len(), 25);
    assert!(!queue.is_queued(1));
    assert!(queue.is_queued(2));
    assert!(queue.is_queued(26));
    assert_eq!(next_prefetch(&mut queue, 3), WorkerStep::Fetch(2));
}

#[test]
fn worker_backs_off_while_permits_are_scarce() {
    let store = Store::new();
    let mut queue = PrefetchQueue::new();
    enqueue_prefetch(&mut queue, &store, 9);
    enqueue_prefetch(&mut queue, &store, 8);
    assert_eq!(next_prefetch(&mut queue, 1), WorkerStep::Backoff);
    assert_eq!(next_prefetch(&mut queue, 0), WorkerStep::Backoff);
    assert_eq!(queue.len(), 2);
    assert!(!queue.is_in_progress(9));
    assert_eq!(next_prefetch(&mut queue, 2), WorkerStep::Fetch(9));
    assert_eq!(queue.len(), 1);
    assert!(queue.is_in_progress(9));
    finish_prefetch(&mut queue, 9);
    assert!(!queue.is_in_progress(9));
    assert_eq!(next_prefetch(&mut queue, 3), WorkerStep::Fetch(8));
    assert_eq!(BACKOFF_MILLIS, 150);
    assert_eq!(PAUSE_MILLIS, 50);
}

#[test]
fn worker_ends_on_an_empty_queue_and_is_started_again() {
    let store = Store::new();
    let mut queue = PrefetchQueue::new();
    assert!(enqueue_prefetch(&mut queue, &store, 1));
    assert_eq!(next_prefetch(&mut queue, 3), WorkerStep::Fetch(1));
    finish_prefetch(&mut queue, 1);
    assert_eq!(next_prefetch(&mut queue, 3), WorkerStep::Exit);
    assert_eq!(next_prefetch(&mut queue, 0), WorkerStep::Exit);
    assert!(enqueue_prefetch(&mut queue, &store, 2));
}

#[test]
fn clearing_the_queue_counts_what_waited() {
    let store = Store::new();
    let mut queue = PrefetchQueue::new();
    for uid in 1..=4u32 {
        enqueue_prefetch(&mut queue, &store, uid);
    }
    assert_eq!(next_prefetch(&mut queue, 3), WorkerStep::Fetch(1));
    assert_eq!(clear_prefetch_queue(&mut queue), 3);
    assert_eq!(queue.len(), 0);
    assert!(queue.is_in_progress(1));
    assert_eq!(clear_prefetch_queue(&mut queue), 0);
}

#[test]
fn body_fetched_meanwhile_is_not_needed() {
    let mut store = store_with(&[3]);
    assert!(still_needed(&store, 3));
    assert!(still_needed(&store, 4));
    update_message_body(&mut store, "INBOX", 3, "<p>b</p>", "b");
    assert!(!still_needed(&store, 3));
}
