//! The push listener: what the unsolicited responses of an idling connection
//! do to the count of messages, when the coordinator starts a
//! synchronisation, and how long the listener waits before it reconnects.

use crate::sync::SyncLock;
use vstd::prelude::*;

verus! {

/// How long one IDLE command waits for the server, in seconds.
pub const IDLE_WAIT_SECS: u64 = 15 * 60;

/// The first wait before a reconnect, in seconds.
pub const MIN_BACKOFF_SECS: u64 = 2;

/// The longest wait before a reconnect, in seconds.
pub const MAX_BACKOFF_SECS: u64 = 60;

/// How many signals may wait between the listener and the coordinator.
pub const SIGNAL_CAPACITY: usize = 32;

/// A response that the server sends unasked while the connection idles.
#[derive(Clone, Copy, Debug, PartialEq, Eq, Structural)]
pub enum Unsolicited {
    /// The mailbox now holds this many messages.
    Exists(u32),
    /// This many messages are recent.
    Recent(u32),
    /// The message with this sequence number was removed.
    Expunge(u32),
    /// Anything else.
    Other,
}

/// How a wait on an idling connection ended.
#[derive(Clone, Copy, Debug, PartialEq, Eq, Structural)]
pub enum WaitOutcome {
    MailboxChanged,
    TimedOut,
}

/// What the listener does after a wait.
#[derive(Clone, Copy, Debug, PartialEq, Eq, Structural)]
pub enum IdleAction {
    /// The coordinator is sent the count of messages; then IDLE is issued
    /// again.
    Signal(u32),
    /// IDLE is issued again and nothing else.
    Reissue,
}

/// What the coordinator does with the signals it received.
#[derive(Clone, Copy, Debug, PartialEq, Eq, Structural)]
pub enum CoordinatorAction {
    /// A synchronisation is under way: the signals are dropped.
    Skip,
    /// One synchronisation is started for all the signals; the count is the
    /// one of the latest signal.
    Sync(u32),
}

/// The count of messages after one unsolicited response.
pub open spec fn exists_after_one(last: u32, response: Unsolicited) -> u32 {
    match response {
        Unsolicited::Exists(count) => count,
        Unsolicited::Expunge(_) => if last > 0 {
            (last - 1) as u32
        } else {
            0
        },
        _ => last,
    }
}

/// The count of messages after the unsolicited responses, taken in their
/// order.
pub open spec fn exists_after(last: u32, responses: Seq<Unsolicited>) -> u32
    decreases responses.len(),
{
    if responses.len() == 0 {
        last
    } else {
        exists_after_one(exists_after(last, responses.drop_last()), responses.last())
    }
}

/// Computes `exists_after`.
pub fn apply_unsolicited(last_exists: u32, responses: &Vec<Unsolicited>) -> (r: u32)
    ensures
        r == exists_after(last_exists, responses@),
{
    let mut last = last_exists;
    let mut i: usize = 0;
    assert(responses@.take(0) =~= Seq::<Unsolicited>::empty());
    while i < responses.len()
        invariant
            i <= responses@.len(),
            last == exists_after(last_exists, responses@.take(i as int)),
        decreases responses@.len() - i,
    {
        last = match responses[i] {
            Unsolicited::Exists(count) => count,
            Unsolicited::Expunge(_) => if last > 0 {
                last - 1
            } else {
                0
            },
            _ => last,
        };
        i += 1;
        assert(responses@.take(i as int).drop_last() =~= responses@.take(i - 1));
    }
    assert(responses@.take(responses@.len() as int) =~= responses@);
    last
}

/// The count of messages with which a connection starts to idle: the count
/// carried over from the connection before, or what the server reports on
/// selecting the mailbox where nothing was carried over.
pub fn initial_exists(last_exists: u32, mailbox_exists: u32) -> (r: u32)
    ensures
        r == if last_exists == 0 {
            mailbox_exists
        } else {
            last_exists
        },
{
    if last_exists == 0 {
        mailbox_exists
    } else {
        last_exists
    }
}

/// What the listener does after a wait that ended with `outcome`, given the
/// unsolicited responses that have come in, and the count of messages it
/// goes on with. A change of the mailbox is always signalled; a timeout
/// leaves the count as it is.
pub fn run_idle_loop(last_exists: u32, outcome: WaitOutcome, responses: &Vec<Unsolicited>) -> (r: (
    u32,
    IdleAction,
))
    ensures
        outcome == WaitOutcome::MailboxChanged ==> r.0 == exists_after(last_exists, responses@)
            && r.1 == IdleAction::Signal(r.0),
        outcome == WaitOutcome::TimedOut ==> r.0 == last_exists && r.1 == IdleAction::Reissue,
{
    match outcome {
        WaitOutcome::MailboxChanged => {
            let count = apply_unsolicited(last_exists, responses);
            (count, IdleAction::Signal(count))
        },
        WaitOutcome::TimedOut => (last_exists, IdleAction::Reissue),
    }
}

/// The signal that stands for a burst: the latest of those that waited
/// behind `first`, or `first` itself where none waited.
pub open spec fn collapsed(first: u32, queued: Seq<u32>) -> u32 {
    if queued.len() == 0 {
        first
    } else {
        queued.last()
    }
}

/// What the coordinator does on receiving the signal `first` with the
/// signals `queued` waiting behind it. However many signals there are, at
/// most one synchronisation is started, and none while one is under way;
/// where one is started the lock is claimed for it.
pub fn coordinate(lock: &mut SyncLock, first: u32, queued: &Vec<u32>) -> (action: CoordinatorAction)
    ensures
        old(lock).is_running() ==> action == CoordinatorAction::Skip,
        !old(lock).is_running() ==> action == CoordinatorAction::Sync(collapsed(first, queued@)),
        final(lock).is_running(),
{
    let n = queued.len();
    let latest = if n == 0 {
        first
    } else {
        queued[n - 1]
    };
    if lock.try_enter() {
        CoordinatorAction::Sync(latest)
    } else {
        CoordinatorAction::Skip
    }
}

/// The wait before the next reconnect, given the wait before this one.
pub open spec fn next_backoff(backoff: u64) -> u64 {
    if backoff * 2 > MAX_BACKOFF_SECS {
        MAX_BACKOFF_SECS
    } else {
        (backoff * 2) as u64
    }
}

/// The mathematical content of the supervisor of the listener.
pub struct SupervisorView {
    pub last_exists: u32,
    pub backoff: u64,
}

/// What the task that keeps the listener alive remembers between two
/// connections.
pub struct IdleSupervisor {
    last_exists: u32,
    backoff: u64,
}

impl View for IdleSupervisor {
    type V = SupervisorView;

    closed spec fn view(&self) -> SupervisorView {
        SupervisorView { last_exists: self.last_exists, backoff: self.backoff }
    }
}

impl IdleSupervisor {
    #[verifier::type_invariant]
    spec fn well_formed(self) -> bool {
        MIN_BACKOFF_SECS <= self.backoff <= MAX_BACKOFF_SECS
    }

    /// The supervisor before the first connection.
    pub fn new() -> (s: Self)
        ensures
            s@.last_exists == 0,
            s@.backoff == MIN_BACKOFF_SECS,
    {
        IdleSupervisor { last_exists: 0, backoff: MIN_BACKOFF_SECS }
    }

    /// The count of messages to start the next connection with.
    pub fn last_exists(&self) -> (r: u32)
        ensures
            r == self@.last_exists,
    {
        self.last_exists
    }

    /// The wait before the next reconnect, in seconds: never less than
    /// `MIN_BACKOFF_SECS`, never more than `MAX_BACKOFF_SECS`.
    pub fn backoff(&self) -> (r: u64)
        ensures
            r == self@.backoff,
            MIN_BACKOFF_SECS <= r <= MAX_BACKOFF_SECS,
    {
        proof {
            use_type_invariant(self);
        }
        self.backoff
    }

    /// Notes how a connection ended and tells how many seconds to wait
    /// before the next one. A connection that ended in good order, with the
    /// count of messages it reached, is followed at once, and the wait goes
    /// back to `MIN_BACKOFF_SECS`. A connection that failed is followed
    /// after the current wait, and the wait doubles up to
    /// `MAX_BACKOFF_SECS`.
    pub fn cycle_ended(&mut self, reached: Option<u32>) -> (sleep: Option<u64>)
        ensures
            reached matches Some(count) ==> sleep is None && final(self)@.last_exists == count
                && final(self)@.backoff == MIN_BACKOFF_SECS,
            reached is None ==> sleep == Some(old(self)@.backoff) && final(self)@.last_exists
                == old(self)@.last_exists && final(self)@.backoff == next_backoff(
                old(self)@.backoff,
            ),
            MIN_BACKOFF_SECS <= final(self)@.backoff <= MAX_BACKOFF_SECS,
    {
        proof {
            use_type_invariant(&*self);
        }
        match reached {
            Some(count) => {
                *self = IdleSupervisor { last_exists: count, backoff: MIN_BACKOFF_SECS };
                None
            },
            None => {
                let wait = self.backoff;
                let doubled = wait * 2;
                let next = if doubled > MAX_BACKOFF_SECS {
                    MAX_BACKOFF_SECS
                } else {
                    doubled
                };
                *self = IdleSupervisor { last_exists: self.last_exists, backoff: next };
                Some(wait)
            },
        }
    }
}

/// Which of the two tasks of the listener are alive.
#[derive(Clone, Copy, Debug, PartialEq, Eq, Structural)]
pub struct ListenerTasks {
    pub idle: bool,
    pub coordinator: bool,
}

/// Starts the listener unless its idling task is alive already. The answer
/// tells whether the two tasks are to be spawned.
pub fn start_idle_listener(tasks: &mut ListenerTasks) -> (spawn: bool)
    ensures
        spawn == !old(tasks).idle,
        old(tasks).idle ==> *final(tasks) == *old(tasks),
        !old(tasks).idle ==> *final(tasks) == (ListenerTasks { idle: true, coordinator: true }),
{
    if tasks.idle {
        false
    } else {
        tasks.idle = true;
        tasks.coordinator = true;
        true
    }
}

/// Stops the listener. The answer names the tasks that were alive and are to
/// be aborted; afterwards none is alive.
pub fn stop_idle_listener(tasks: &mut ListenerTasks) -> (abort: ListenerTasks)
    ensures
        abort == *old(tasks),
        *final(tasks) == (ListenerTasks { idle: false, coordinator: false }),
{
    let abort = *tasks;
    tasks.idle = false;
    tasks.coordinator = false;
    abort
}

} // verus!
