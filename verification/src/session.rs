//! The pool of authenticated sessions: one slot for each account and
//! purpose, and the course that one operation takes through its slot, with a
//! health check for a session that lay idle and a single retry on a fresh
//! session for an operation that failed.
//!
//! The caller holds the connections and does what the actions say; the slot
//! records whether a session is there and when it was last used.

use crate::text::{append_str, chars_of, string_of};
use vstd::prelude::*;

verus! {

/// The server that is spoken to.
pub const IMAP_HOST: &'static str = "imap.gmail.com";

/// The port of the server, on which TLS is spoken from the start.
pub const IMAP_PORT: u16 = 993;

/// The SASL mechanism by which a session is authenticated.
pub const AUTH_MECHANISM: &'static str = "XOAUTH2";

/// How long a session may lie idle, in seconds, and still be used without a
/// health check.
pub const IDLE_LIMIT_SECS: u64 = 30;

/// What a session is kept for.
#[derive(Clone, Copy, Debug, PartialEq, Eq, Structural)]
pub enum SessionKind {
    /// Traffic that the user waits for, and synchronisation.
    Primary,
    /// Fetches of bodies in the background.
    Prefetch,
}

/// One slot of the pool.
#[derive(Clone, Copy, Debug, PartialEq, Eq, Structural)]
pub struct SessionSlot {
    /// Whether the slot holds a session.
    pub connected: bool,
    /// When the session was last used, in seconds of a clock that does not
    /// go back.
    pub last_used: u64,
}

/// Where an operation stands on its way through a slot.
#[derive(Clone, Copy, Debug, PartialEq, Eq, Structural)]
pub enum Phase {
    /// Nothing was done yet.
    Start,
    /// The health check of the session found in the slot is under way.
    Validating,
    /// A session is being created; `retry` tells that the operation failed
    /// once already.
    Connecting { retry: bool },
    /// The operation runs; `retry` tells that it failed once already.
    Running { retry: bool },
    /// The operation is over.
    Finished,
}

/// What happened since the last action.
#[derive(Clone, Copy, Debug, PartialEq, Eq, Structural)]
pub enum Event {
    /// The slot was claimed at time `now`.
    Begin { now: u64 },
    /// The health check ended at time `now`.
    Validated { healthy: bool, now: u64 },
    /// The attempt to create a session ended at time `now`.
    Connected { ok: bool, now: u64 },
    /// The operation ended at time `now`.
    Operated { ok: bool, now: u64 },
}

/// What the caller does next.
#[derive(Clone, Copy, Debug, PartialEq, Eq, Structural)]
pub enum Action {
    /// Check the session's health: `NOOP`, then `SELECT INBOX`.
    Validate,
    /// Create a session: connect, authenticate, `SELECT INBOX`. Where
    /// `drop_old` is set, the session held so far is logged out and dropped
    /// first.
    Connect { drop_old: bool },
    /// Run the operation on the session.
    Run,
    /// Return to the caller of the operation: the operation's result where
    /// it ran, the failure to connect where it did not. Where
    /// `drop_session` is set, the session is logged out and dropped; else
    /// it stays in the slot.
    Finish { success: bool, drop_session: bool },
    /// The event does not belong to the phase: nothing is done.
    Ignore,
}

/// A slot without a session.
pub open spec fn empty_slot() -> SessionSlot {
    SessionSlot { connected: false, last_used: 0 }
}

/// A slot with a session used at time `now`.
pub open spec fn fresh_slot(now: u64) -> SessionSlot {
    SessionSlot { connected: true, last_used: now }
}

/// Whether a session last used at `last_used` needs a health check at time
/// `now`.
pub open spec fn is_stale(last_used: u64, now: u64) -> bool {
    now - last_used > IDLE_LIMIT_SECS
}

/// The slot, the phase and the action that follow from an event.
pub open spec fn next(slot: SessionSlot, phase: Phase, event: Event) -> (SessionSlot, Phase, Action) {
    match (phase, event) {
        (Phase::Start, Event::Begin { now }) => if !slot.connected {
            (slot, Phase::Connecting { retry: false }, Action::Connect { drop_old: false })
        } else if is_stale(slot.last_used, now) {
            (slot, Phase::Validating, Action::Validate)
        } else {
            (slot, Phase::Running { retry: false }, Action::Run)
        },
        (Phase::Validating, Event::Validated { healthy, now }) => if healthy {
            (fresh_slot(now), Phase::Running { retry: false }, Action::Run)
        } else {
            (empty_slot(), Phase::Connecting { retry: false }, Action::Connect { drop_old: true })
        },
        (Phase::Connecting { retry }, Event::Connected { ok, now }) => if ok {
            (fresh_slot(now), Phase::Running { retry }, Action::Run)
        } else {
            (empty_slot(), Phase::Finished, Action::Finish { success: false, drop_session: false })
        },
        (Phase::Running { retry }, Event::Operated { ok, now }) => if ok {
            (fresh_slot(now), Phase::Finished, Action::Finish { success: true, drop_session: false })
        } else if retry {
            (empty_slot(), Phase::Finished, Action::Finish { success: false, drop_session: true })
        } else {
            (empty_slot(), Phase::Connecting { retry: true }, Action::Connect { drop_old: true })
        },
        _ => (slot, phase, Action::Ignore),
    }
}

/// Takes an operation one step further through its slot.
pub fn execute_with_session(slot: &mut SessionSlot, phase: Phase, event: Event) -> (r: (Phase, Action))
    ensures
        (*final(slot), r.0, r.1) == next(*old(slot), phase, event),
{
    match (phase, event) {
        (Phase::Start, Event::Begin { now }) => {
            if !slot.connected {
                (Phase::Connecting { retry: false }, Action::Connect { drop_old: false })
            } else if now > slot.last_used && now - slot.last_used > IDLE_LIMIT_SECS {
                (Phase::Validating, Action::Validate)
            } else {
                (Phase::Running { retry: false }, Action::Run)
            }
        },
        (Phase::Validating, Event::Validated { healthy, now }) => {
            if healthy {
                *slot = SessionSlot { connected: true, last_used: now };
                (Phase::Running { retry: false }, Action::Run)
            } else {
                *slot = SessionSlot { connected: false, last_used: 0 };
                (Phase::Connecting { retry: false }, Action::Connect { drop_old: true })
            }
        },
        (Phase::Connecting { retry }, Event::Connected { ok, now }) => {
            if ok {
                *slot = SessionSlot { connected: true, last_used: now };
                (Phase::Running { retry }, Action::Run)
            } else {
                *slot = SessionSlot { connected: false, last_used: 0 };
                (Phase::Finished, Action::Finish { success: false, drop_session: false })
            }
        },
        (Phase::Running { retry }, Event::Operated { ok, now }) => {
            if ok {
                *slot = SessionSlot { connected: true, last_used: now };
                (Phase::Finished, Action::Finish { success: true, drop_session: false })
            } else if retry {
                *slot = SessionSlot { connected: false, last_used: 0 };
                (Phase::Finished, Action::Finish { success: false, drop_session: true })
            } else {
                *slot = SessionSlot { connected: false, last_used: 0 };
                (Phase::Connecting { retry: true }, Action::Connect { drop_old: true })
            }
        },
        _ => (phase, Action::Ignore),
    }
}

/// How often the operation is run while the events `events` come in, from
/// the given slot and phase on.
pub open spec fn runs(slot: SessionSlot, phase: Phase, events: Seq<Event>) -> nat
    decreases events.len(),
{
    if events.len() == 0 {
        0
    } else {
        let step = next(slot, phase, events[0]);
        let here: nat = if step.2 == Action::Run {
            1
        } else {
            0
        };
        here + runs(step.0, step.1, events.drop_first())
    }
}

/// The most runs of the operation that can still come in a phase.
pub open spec fn runs_left(phase: Phase) -> nat {
    match phase {
        Phase::Start => 2,
        Phase::Validating => 2,
        Phase::Connecting { retry } => if retry {
            1
        } else {
            2
        },
        Phase::Running { retry } => if retry {
            0
        } else {
            1
        },
        Phase::Finished => 0,
    }
}

/// Whatever happens, an operation is run no more than `runs_left` times from
/// a phase on: twice at most from the start, and once at most after it has
/// failed.
pub proof fn lemma_runs_bounded(slot: SessionSlot, phase: Phase, events: Seq<Event>)
    ensures
        runs(slot, phase, events) <= runs_left(phase),
    decreases events.len(),
{
    if events.len() > 0 {
        let step = next(slot, phase, events[0]);
        lemma_runs_bounded(step.0, step.1, events.drop_first());
    }
}

/// The slot is empty after a retry that failed and after a failure to
/// connect, and holds a session used at the time of the event after every
/// success.
pub proof fn lemma_slot_after_finish(slot: SessionSlot, phase: Phase, event: Event)
    ensures
        next(slot, phase, event).2 matches Action::Finish { success, .. } ==> next(
            slot,
            phase,
            event,
        ).0.connected == success && next(slot, phase, event).1 == Phase::Finished,
{
}

/// The response to the server's challenge under `XOAUTH2`.
pub open spec fn xoauth2_text(email: Seq<char>, token: Seq<char>) -> Seq<char> {
    "user="@ + email + seq!['\u{1}'] + "auth=Bearer "@ + token + seq!['\u{1}', '\u{1}']
}

/// Writes the response to the server's challenge under `XOAUTH2`.
pub fn xoauth2_payload(email: &str, access_token: &str) -> (r: String)
    ensures
        r@ == xoauth2_text(email@, access_token@),
{
    let mut out = chars_of("user=");
    append_str(&mut out, email);
    out.push('\u{1}');
    append_str(&mut out, "auth=Bearer ");
    append_str(&mut out, access_token);
    out.push('\u{1}');
    out.push('\u{1}');
    assert(out@ =~= xoauth2_text(email@, access_token@));
    string_of(&out)
}

struct PoolEntry {
    email: String,
    kind: SessionKind,
    slot: SessionSlot,
}

/// The slots of all accounts.
pub struct SessionPool {
    entries: Vec<PoolEntry>,
}

spec fn slot_map(entries: Seq<PoolEntry>) -> Map<(Seq<char>, SessionKind), SessionSlot>
    decreases entries.len(),
{
    if entries.len() == 0 {
        Map::empty()
    } else {
        slot_map(entries.drop_last()).insert(
            (entries.last().email@, entries.last().kind),
            entries.last().slot,
        )
    }
}

impl View for SessionPool {
    type V = Map<(Seq<char>, SessionKind), SessionSlot>;

    closed spec fn view(&self) -> Map<(Seq<char>, SessionKind), SessionSlot> {
        slot_map(self.entries@)
    }
}

/// The slot of `email` and `kind`, which is empty where none was recorded.
pub open spec fn slot_of(
    pool: Map<(Seq<char>, SessionKind), SessionSlot>,
    email: Seq<char>,
    kind: SessionKind,
) -> SessionSlot {
    if pool.dom().contains((email, kind)) {
        pool[(email, kind)]
    } else {
        empty_slot()
    }
}

proof fn lemma_slot_last(entries: Seq<PoolEntry>, email: Seq<char>, kind: SessionKind, i: int)
    requires
        0 <= i < entries.len(),
        entries[i].email@ == email && entries[i].kind == kind,
        forall|j: int|
            i < j < entries.len() ==> !(entries[j].email@ == email && entries[j].kind == kind),
    ensures
        slot_map(entries).dom().contains((email, kind)),
        slot_map(entries)[(email, kind)] == entries[i].slot,
    decreases entries.len(),
{
    if i < entries.len() - 1 {
        lemma_slot_last(entries.drop_last(), email, kind, i);
    }
}

proof fn lemma_slot_absent(entries: Seq<PoolEntry>, email: Seq<char>, kind: SessionKind)
    requires
        forall|j: int|
            0 <= j < entries.len() ==> !(entries[j].email@ == email && entries[j].kind == kind),
    ensures
        !slot_map(entries).dom().contains((email, kind)),
    decreases entries.len(),
{
    if entries.len() > 0 {
        lemma_slot_absent(entries.drop_last(), email, kind);
    }
}

proof fn lemma_slot_replaced(
    entries: Seq<PoolEntry>,
    email: Seq<char>,
    kind: SessionKind,
    i: int,
    entry: PoolEntry,
)
    requires
        0 <= i < entries.len(),
        entries[i].email@ == email && entries[i].kind == kind,
        entry.email@ == email && entry.kind == kind,
        forall|j: int|
            i < j < entries.len() ==> !(entries[j].email@ == email && entries[j].kind == kind),
    ensures
        slot_map(entries.update(i, entry)) == slot_map(entries).insert((email, kind), entry.slot),
    decreases entries.len(),
{
    let changed = entries.update(i, entry);
    if i == entries.len() - 1 {
        assert(changed.drop_last() =~= entries.drop_last());
        assert(slot_map(changed) =~= slot_map(entries).insert((email, kind), entry.slot));
    } else {
        lemma_slot_replaced(entries.drop_last(), email, kind, i, entry);
        assert(changed.drop_last() =~= entries.drop_last().update(i, entry));
        assert(slot_map(changed) =~= slot_map(entries).insert((email, kind), entry.slot));
    }
}

fn find_entry(entries: &Vec<PoolEntry>, email: &String, kind: SessionKind) -> (r: Option<usize>)
    ensures
        match r {
            Some(i) => i < entries@.len() && entries@[i as int].email@ == email@ && entries@[i as int].kind
                == kind && (forall|j: int|
                i < j < entries@.len() ==> !(entries@[j].email@ == email@ && entries@[j].kind
                    == kind)),
            None => forall|j: int|
                0 <= j < entries@.len() ==> !(entries@[j].email@ == email@ && entries@[j].kind
                    == kind),
        },
{
    let mut i: usize = entries.len();
    while i > 0
        invariant
            i <= entries@.len(),
            forall|j: int|
                i <= j < entries@.len() ==> !(entries@[j].email@ == email@ && entries@[j].kind
                    == kind),
        decreases i,
    {
        i -= 1;
        if entries[i].kind == kind && entries[i].email == *email {
            return Some(i);
        }
    }
    None
}

impl SessionPool {
    /// A pool in which no slot holds a session.
    pub fn new() -> (pool: Self)
        ensures
            pool@ == Map::<(Seq<char>, SessionKind), SessionSlot>::empty(),
    {
        SessionPool { entries: Vec::new() }
    }

    /// The slot of the account `email` for the purpose `kind`.
    pub fn slot(&self, email: &str, kind: SessionKind) -> (r: SessionSlot)
        ensures
            r == slot_of(self@, email@, kind),
    {
        let name = String::from_str(email);
        match find_entry(&self.entries, &name, kind) {
            Some(i) => {
                proof {
                    lemma_slot_last(self.entries@, email@, kind, i as int);
                }
                self.entries[i].slot
            },
            None => {
                proof {
                    lemma_slot_absent(self.entries@, email@, kind);
                }
                SessionSlot { connected: false, last_used: 0 }
            },
        }
    }

    /// Records `slot` as the slot of the account `email` for the purpose
    /// `kind`; every other slot stays as it is.
    pub fn set_slot(&mut self, email: &str, kind: SessionKind, slot: SessionSlot)
        ensures
            final(self)@ == old(self)@.insert((email@, kind), slot),
    {
        let entry = PoolEntry { email: String::from_str(email), kind, slot };
        match find_entry(&self.entries, &entry.email, kind) {
            Some(i) => {
                proof {
                    lemma_slot_replaced(self.entries@, email@, kind, i as int, entry);
                }
                self.entries.set(i, entry);
            },
            None => {
                let ghost before = self.entries@;
                self.entries.push(entry);
                assert(self.entries@.drop_last() =~= before);
            },
        }
    }
}

} // verus!
