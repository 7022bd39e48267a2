//! The fallback poll loop: a synchronisation every few minutes, unless one
//! is under way already.

use crate::sync::SyncLock;
use vstd::prelude::*;

verus! {

/// The time between two ticks of the poll loop, in seconds.
pub const POLL_PERIOD_SECS: u64 = 180;

/// What the poll loop does on a tick.
#[derive(Clone, Copy, Debug, PartialEq, Eq, Structural)]
pub enum PollAction {
    /// Nothing: the tick is the first one, or a synchronisation is under
    /// way.
    Skip,
    /// A synchronisation is started, for which the lock was claimed.
    Sync,
}

/// The state of the poll loop.
#[derive(Clone, Copy, Debug, PartialEq, Eq, Structural)]
pub struct PollLoop {
    /// Whether the task of the loop is alive.
    pub running: bool,
    /// Whether the first tick, which comes at once, has passed.
    pub first_tick_seen: bool,
}

impl PollLoop {
    /// A poll loop that was not started.
    pub fn new() -> (r: Self)
        ensures
            r == (PollLoop { running: false, first_tick_seen: false }),
    {
        PollLoop { running: false, first_tick_seen: false }
    }

    /// What the loop does on a tick. The first tick after the start is let
    /// pass, so that no synchronisation runs at startup. Any later tick
    /// starts a synchronisation unless one is under way.
    pub fn tick(&mut self, lock: &mut SyncLock) -> (action: PollAction)
        ensures
            final(self).running == old(self).running,
            final(self).first_tick_seen,
            !old(self).first_tick_seen ==> action == PollAction::Skip && final(lock).is_running()
                == old(lock).is_running(),
            old(self).first_tick_seen && old(lock).is_running() ==> action == PollAction::Skip
                && final(lock).is_running(),
            old(self).first_tick_seen && !old(lock).is_running() ==> action == PollAction::Sync
                && final(lock).is_running(),
    {
        if !self.first_tick_seen {
            self.first_tick_seen = true;
            return PollAction::Skip;
        }
        if lock.try_enter() {
            PollAction::Sync
        } else {
            PollAction::Skip
        }
    }
}

/// Starts the poll loop unless it runs already. The answer tells whether its
/// task is to be spawned.
pub fn start_polling(poll: &mut PollLoop) -> (spawn: bool)
    ensures
        spawn == !old(poll).running,
        old(poll).running ==> *final(poll) == *old(poll),
        !old(poll).running ==> *final(poll) == (PollLoop { running: true, first_tick_seen: false }),
{
    if poll.running {
        false
    } else {
        poll.running = true;
        poll.first_tick_seen = false;
        true
    }
}

/// Stops the poll loop. The answer tells whether its task was alive and is
/// to be aborted.
pub fn stop_polling(poll: &mut PollLoop) -> (abort: bool)
    ensures
        abort == old(poll).running,
        !final(poll).running,
        final(poll).first_tick_seen == old(poll).first_tick_seen,
{
    let abort = poll.running;
    poll.running = false;
    abort
}

} // verus!
