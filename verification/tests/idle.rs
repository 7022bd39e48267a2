use orbitmail::idle::{
    apply_unsolicited, coordinate, initial_exists, run_idle_loop, start_idle_listener,
    stop_idle_listener, CoordinatorAction, IdleAction, IdleSupervisor, ListenerTasks, Unsolicited,
    WaitOutcome, IDLE_WAIT_SECS,
};
use orbitmail::poll::{start_polling, stop_polling, PollAction, PollLoop, POLL_PERIOD_SECS};
use orbitmail::sync::SyncLock;

#[test]
fn idle_burst_runs_one_sync() {
    let burst = vec![Unsolicited::Exists(310), Unsolicited::Exists(312), Unsolicited::Exists(315)];
    let (count, action) = run_idle_loop(300, WaitOutcome::MailboxChanged, &burst);
    assert_eq!(count, 315);
    assert_eq!(action, IdleAction::Signal(315));
    let mut lock = SyncLock::new();
    assert_eq!(coordinate(&mut lock, 310, &vec![312, 315]), CoordinatorAction::Sync(315));
    assert!(lock.is_sync_running());
    assert_eq!(coordinate(&mut lock, 316, &Vec::new()), CoordinatorAction::Skip);
    lock.leave();
    assert_eq!(coordinate(&mut lock, 316, &Vec::new()), CoordinatorAction::Sync(316));
}

#[test]
fn unsolicited_responses_move_the_count() {
    let responses = vec![
        Unsolicited::Exists(10),
        Unsolicited::Recent(3),
        Unsolicited::Expunge(4),
        Unsolicited::Other,
        Unsolicited::Expunge(1),
    ];
    assert_eq!(apply_unsolicited(7, &responses), 8);
    assert_eq!(apply_unsolicited(7, &Vec::new()), 7);
    assert_eq!(apply_unsolicited(0, &vec![Unsolicited::Expunge(1)]), 0);
    assert_eq!(apply_unsolicited(1, &vec![Unsolicited::Expunge(1), Unsolicited::Expunge(1)]), 0);
}

#[test]
fn timeout_reissues_idle_and_keeps_the_count() {
    let pending = vec![Unsolicited::Exists(99)];
    assert_eq!(run_idle_loop(5, WaitOutcome::TimedOut, &pending), (5, IdleAction::Reissue));
    assert_eq!(
        run_idle_loop(5, WaitOutcome::MailboxChanged, &Vec::new()),
        (5, IdleAction::Signal(5))
    );
    assert_eq!(IDLE_WAIT_SECS, 900);
}

#[test]
fn count_is_initialised_once() {
    assert_eq!(initial_exists(0, 42), 42);
    assert_eq!(initial_exists(17, 42), 17);
    assert_eq!(initial_exists(0, 0), 0);
}

#[test]
fn backoff_doubles_up_to_a_minute_and_resets() {
    let mut s = IdleSupervisor::new();
    assert_eq!(s.backoff(), 2);
    let mut waits = Vec::new();
    for _ in 0..8 {
        waits.push(s.cycle_ended(None));
    }
    assert_eq!(
        waits,
        vec![Some(2), Some(4), Some(8), Some(16), Some(32), Some(60), Some(60), Some(60)]
    );
    assert_eq!(s.backoff(), 60);
    assert_eq!(s.last_exists(), 0);
    assert_eq!(s.cycle_ended(Some(12)), None);
    assert_eq!(s.backoff(), 2);
    assert_eq!(s.last_exists(), 12);
    assert_eq!(s.cycle_ended(None), Some(2));
    assert_eq!(s.last_exists(), 12);
}

#[test]
fn listener_starts_once_and_stops_both_tasks() {
    let mut tasks = ListenerTasks { idle: false, coordinator: false };
    assert!(start_idle_listener(&mut tasks));
    assert_eq!(tasks, ListenerTasks { idle: true, coordinator: true });
    assert!(!start_idle_listener(&mut tasks));
    assert_eq!(stop_idle_listener(&mut tasks), ListenerTasks { idle: true, coordinator: true });
    assert_eq!(tasks, ListenerTasks { idle: false, coordinator: false });
    assert_eq!(stop_idle_listener(&mut tasks), ListenerTasks { idle: false, coordinator: false });
    assert!(start_idle_listener(&mut tasks));
}

#[test]
fn poll_skips_its_first_tick_and_running_syncs() {
    let mut poll = PollLoop::new();
    let mut lock = SyncLock::new();
    assert!(start_polling(&mut poll));
    assert!(!start_polling(&mut poll));
    assert_eq!(poll.tick(&mut lock), PollAction::Skip);
    assert!(!lock.is_sync_running());
    assert_eq!(poll.tick(&mut lock), PollAction::Sync);
    assert!(lock.is_sync_running());
    assert_eq!(poll.tick(&mut lock), PollAction::Skip);
    lock.leave();
    assert_eq!(poll.tick(&mut lock), PollAction::Sync);
    assert_eq!(POLL_PERIOD_SECS, 180);
}

#[test]
fn poll_stops_and_starts_afresh() {
    let mut poll = PollLoop::new();
    let mut lock = SyncLock::new();
    assert!(!stop_polling(&mut poll));
    assert!(start_polling(&mut poll));
    assert_eq!(poll.tick(&mut lock), PollAction::Skip);
    assert!(stop_polling(&mut poll));
    assert!(!poll.running);
    assert!(start_polling(&mut poll));
    assert_eq!(poll.tick(&mut lock), PollAction::Skip);
    assert_eq!(poll.tick(&mut lock), PollAction::Sync);
}
