use orbitmail::session::{
    execute_with_session, xoauth2_payload, Action, Event, Phase, SessionKind, SessionPool,
    SessionSlot, AUTH_MECHANISM, IMAP_HOST, IMAP_PORT,
};

fn empty() -> SessionSlot {
    SessionSlot { connected: false, last_used: 0 }
}

#[test]
fn session_recovery() {
    let mut slot = SessionSlot { connected: true, last_used: 100 };
    let (phase_1, action_1) = execute_with_session(&mut slot, Phase::Start, Event::Begin { now: 110 });
    assert_eq!((phase_1, action_1), (Phase::Running { retry: false }, Action::Run));
    let (phase_2, action_2) = execute_with_session(&mut slot, phase_1, Event::Operated { ok: false, now: 111 });
    assert_eq!((phase_2, action_2), (Phase::Connecting { retry: true }, Action::Connect { drop_old: true }));
    assert_eq!(slot, empty());
    let (phase_3, action_3) = execute_with_session(&mut slot, phase_2, Event::Connected { ok: true, now: 112 });
    assert_eq!((phase_3, action_3), (Phase::Running { retry: true }, Action::Run));
    let (phase_4, action_4) = execute_with_session(&mut slot, phase_3, Event::Operated { ok: true, now: 113 });
    assert_eq!(
        (phase_4, action_4),
        (Phase::Finished, Action::Finish { success: true, drop_session: false })
    );
    assert_eq!(slot, SessionSlot { connected: true, last_used: 113 });
}

#[test]
fn failed_retry_leaves_the_slot_empty() {
    let mut slot = SessionSlot { connected: true, last_used: 100 };
    let (p, a) = execute_with_session(
        &mut slot,
        Phase::Running { retry: true },
        Event::Operated { ok: false, now: 120 },
    );
    assert_eq!((p, a), (Phase::Finished, Action::Finish { success: false, drop_session: true }));
    assert_eq!(slot, empty());
}

#[test]
fn empty_slot_connects_first() {
    let mut slot = empty();
    let (p, a) = execute_with_session(&mut slot, Phase::Start, Event::Begin { now: 5 });
    assert_eq!((p, a), (Phase::Connecting { retry: false }, Action::Connect { drop_old: false }));
    let (phase_2, action_2) = execute_with_session(&mut slot, p, Event::Connected { ok: false, now: 6 });
    assert_eq!(
        (phase_2, action_2),
        (Phase::Finished, Action::Finish { success: false, drop_session: false })
    );
    assert_eq!(slot, empty());
}

#[test]
fn idle_session_is_validated() {
    let mut slot = SessionSlot { connected: true, last_used: 100 };
    let fresh = execute_with_session(&mut slot, Phase::Start, Event::Begin { now: 130 });
    assert_eq!(fresh, (Phase::Running { retry: false }, Action::Run));
    let stale = execute_with_session(&mut slot, Phase::Start, Event::Begin { now: 131 });
    assert_eq!(stale, (Phase::Validating, Action::Validate));
    let early = execute_with_session(&mut slot, Phase::Start, Event::Begin { now: 50 });
    assert_eq!(early, (Phase::Running { retry: false }, Action::Run));
    let ok = execute_with_session(
        &mut slot,
        Phase::Validating,
        Event::Validated { healthy: true, now: 131 },
    );
    assert_eq!(ok, (Phase::Running { retry: false }, Action::Run));
    assert_eq!(slot, SessionSlot { connected: true, last_used: 131 });
    let bad = execute_with_session(
        &mut slot,
        Phase::Validating,
        Event::Validated { healthy: false, now: 200 },
    );
    assert_eq!(bad, (Phase::Connecting { retry: false }, Action::Connect { drop_old: true }));
    assert_eq!(slot, empty());
}

#[test]
fn events_out_of_turn_are_ignored() {
    let mut slot = SessionSlot { connected: true, last_used: 9 };
    let r = execute_with_session(&mut slot, Phase::Finished, Event::Begin { now: 10 });
    assert_eq!(r, (Phase::Finished, Action::Ignore));
    let r2 = execute_with_session(&mut slot, Phase::Start, Event::Operated { ok: true, now: 10 });
    assert_eq!(r2, (Phase::Start, Action::Ignore));
    assert_eq!(slot, SessionSlot { connected: true, last_used: 9 });
}

#[test]
fn xoauth2_payload_is_exact() {
    assert_eq!(
        xoauth2_payload("me@example.com", "ya29.token"),
        "user=me@example.com\x01auth=Bearer ya29.token\x01\x01"
    );
    assert_eq!(xoauth2_payload("", ""), "user=\x01auth=Bearer \x01\x01");
    assert_eq!(IMAP_HOST, "imap.gmail.com");
    assert_eq!(IMAP_PORT, 993);
    assert_eq!(AUTH_MECHANISM, "XOAUTH2");
}

#[test]
fn pool_keeps_one_slot_per_account_and_kind() {
    let mut pool = SessionPool::new();
    assert_eq!(pool.slot("a@example.com", SessionKind::Primary), empty());
    let used = SessionSlot { connected: true, last_used: 7 };
    pool.set_slot("a@example.com", SessionKind::Primary, used);
    assert_eq!(pool.slot("a@example.com", SessionKind::Primary), used);
    assert_eq!(pool.slot("a@example.com", SessionKind::Prefetch), empty());
    assert_eq!(pool.slot("b@example.com", SessionKind::Primary), empty());
    let later = SessionSlot { connected: true, last_used: 70 };
    pool.set_slot("a@example.com", SessionKind::Prefetch, later);
    pool.set_slot("a@example.com", SessionKind::Primary, empty());
    assert_eq!(pool.slot("a@example.com", SessionKind::Primary), empty());
    assert_eq!(pool.slot("a@example.com", SessionKind::Prefetch), later);
}
