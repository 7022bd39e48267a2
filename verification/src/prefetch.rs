//! The queue of message bodies to fetch ahead of need, and the steps of the
//! worker that empties it.
//!
//! The queue is first in, first out, and bounded: an arrival at a full queue
//! pushes the oldest entry out. The worker gives way to fetches that the
//! user waits for: it takes nothing from the queue while no more than one
//! fetch permit is free.

use crate::message::INBOX;
use crate::store::{get_message_body_cache, Store};
use crate::body::stored_body;
use std::collections::{HashSet, VecDeque};
use vstd::prelude::*;

verus! {

broadcast use vstd::std_specs::hash::group_hash_axioms;

/// The largest number of UIDs that wait in the queue.
pub const MAX_QUEUE: usize = 25;

/// How long the worker waits, in milliseconds, when it has given way.
pub const BACKOFF_MILLIS: u64 = 150;

/// How long the worker rests, in milliseconds, between two fetches.
pub const PAUSE_MILLIS: u64 = 50;

/// The mathematical content of a prefetch queue.
pub struct PrefetchView {
    /// The UIDs that wait, the next one first.
    pub queue: Seq<u32>,
    /// The UIDs whose fetch is under way.
    pub in_progress: Set<u32>,
    /// Whether a worker is at work.
    pub worker_running: bool,
}

/// The UIDs to fetch ahead of need.
pub struct PrefetchQueue {
    queue: VecDeque<u32>,
    in_progress: HashSet<u32>,
    worker_running: bool,
}

/// What the worker does next.
#[derive(Clone, Copy, Debug, PartialEq, Eq, Structural)]
pub enum WorkerStep {
    /// The queue is empty: the worker ends.
    Exit,
    /// Too few permits are free: the worker waits `BACKOFF_MILLIS` and asks
    /// again.
    Backoff,
    /// The body of this UID is to be fetched.
    Fetch(u32),
}

/// No UID waits twice.
pub open spec fn queue_distinct(q: Seq<u32>) -> bool {
    forall|i: int, j: int| 0 <= i < j < q.len() ==> q[i] != q[j]
}

/// What holds of every prefetch queue between operations: it is within its
/// bound, no UID waits twice, no UID waits whose fetch is under way, and
/// while a UID waits a worker is at work.
pub open spec fn queue_valid(v: PrefetchView) -> bool {
    &&& v.queue.len() <= MAX_QUEUE
    &&& queue_distinct(v.queue)
    &&& forall|i: int| 0 <= i < v.queue.len() ==> !v.in_progress.contains(#[trigger] v.queue[i])
    &&& v.queue.len() > 0 ==> v.worker_running
}

/// The queue after `uid` arrived at its end, the oldest entry having left
/// if the queue was full.
pub open spec fn arrived(q: Seq<u32>, uid: u32) -> Seq<u32> {
    if q.len() >= MAX_QUEUE {
        q.drop_first().push(uid)
    } else {
        q.push(uid)
    }
}

/// Whether an arrival of `uid` is taken up: its body is not in the store,
/// its fetch is not under way, and it does not wait already.
pub open spec fn is_accepted(v: PrefetchView, body: Option<Seq<char>>, uid: u32) -> bool {
    body is None && !v.in_progress.contains(uid) && !v.queue.contains(uid)
}

/// The state after `uid` was offered while the store's body for it was
/// `body`.
pub open spec fn after_enqueue(v: PrefetchView, body: Option<Seq<char>>, uid: u32) -> PrefetchView {
    if is_accepted(v, body, uid) {
        PrefetchView {
            queue: arrived(v.queue, uid),
            in_progress: v.in_progress,
            worker_running: true,
        }
    } else {
        v
    }
}

/// The step of the worker when `permits` fetch permits are free.
pub open spec fn step_of(v: PrefetchView, permits: usize) -> WorkerStep {
    if v.queue.len() == 0 {
        WorkerStep::Exit
    } else if permits <= 1 {
        WorkerStep::Backoff
    } else {
        WorkerStep::Fetch(v.queue[0])
    }
}

/// The state after the worker's step when `permits` fetch permits are free:
/// an empty queue ends the worker; with too few permits the queue stays as it
/// is, the next UID still at its front; else the next UID leaves the queue
/// and its fetch is under way.
pub open spec fn after_step(v: PrefetchView, permits: usize) -> PrefetchView {
    if v.queue.len() == 0 {
        PrefetchView { queue: v.queue, in_progress: v.in_progress, worker_running: false }
    } else if permits <= 1 {
        v
    } else {
        PrefetchView {
            queue: v.queue.drop_first(),
            in_progress: v.in_progress.insert(v.queue[0]),
            worker_running: v.worker_running,
        }
    }
}

impl View for PrefetchQueue {
    type V = PrefetchView;

    closed spec fn view(&self) -> PrefetchView {
        PrefetchView {
            queue: self.queue@,
            in_progress: self.in_progress@,
            worker_running: self.worker_running,
        }
    }
}

fn holds(v: &VecDeque<u32>, uid: u32) -> (r: bool)
    ensures
        r == v@.contains(uid),
{
    let mut i: usize = 0;
    while i < v.len()
        invariant
            i <= v@.len(),
            forall|j: int| 0 <= j < i ==> v@[j] != uid,
        decreases v@.len() - i,
    {
        if v[i] == uid {
            return true;
        }
        i += 1;
    }
    false
}

impl PrefetchQueue {
    #[verifier::type_invariant]
    spec fn well_formed(self) -> bool {
        queue_valid(self@)
    }

    /// An empty queue without a worker.
    pub fn new() -> (q: Self)
        ensures
            q@.queue == Seq::<u32>::empty(),
            q@.in_progress == Set::<u32>::empty(),
            !q@.worker_running,
    {
        PrefetchQueue { queue: VecDeque::new(), in_progress: HashSet::new(), worker_running: false }
    }

    /// The number of UIDs that wait.
    pub fn len(&self) -> (n: usize)
        ensures
            n == self@.queue.len(),
            queue_valid(self@),
    {
        proof {
            use_type_invariant(self);
        }
        self.queue.len()
    }

    /// Whether `uid` waits in the queue.
    pub fn is_queued(&self, uid: u32) -> (r: bool)
        ensures
            r == self@.queue.contains(uid),
    {
        holds(&self.queue, uid)
    }

    /// Whether the fetch of `uid` is under way.
    pub fn is_in_progress(&self, uid: u32) -> (r: bool)
        ensures
            r == self@.in_progress.contains(uid),
    {
        self.in_progress.contains(&uid)
    }
}

/// Offers `uid` to the queue. It is taken up unless its body is in the store
/// already, its fetch is under way, or it waits already. The answer tells
/// whether a worker has to be started: it does when the UID was taken up
/// and no worker was at work.
pub fn enqueue_prefetch(queue: &mut PrefetchQueue, store: &Store, uid: u32) -> (spawn: bool)
    ensures
        final(queue)@ == after_enqueue(old(queue)@, stored_body(store@.rows, uid), uid),
        spawn == (is_accepted(old(queue)@, stored_body(store@.rows, uid), uid) && !old(
            queue,
        )@.worker_running),
        queue_valid(final(queue)@),
{
    proof {
        use_type_invariant(&*queue);
    }
    if get_message_body_cache(store, INBOX, uid).is_some() {
        return false;
    }
    if queue.in_progress.contains(&uid) {
        return false;
    }
    if holds(&queue.queue, uid) {
        return false;
    }
    let ghost before = queue@;
    let mut waiting: VecDeque<u32> = VecDeque::new();
    std::mem::swap(&mut waiting, &mut queue.queue);
    if waiting.len() >= MAX_QUEUE {
        let _ = waiting.pop_front();
    }
    waiting.push_back(uid);
    let spawn = !queue.worker_running;
    proof {
        let after = arrived(before.queue, uid);
        assert(waiting@ =~= after);
        let off: int = if before.queue.len() >= MAX_QUEUE { 1 } else { 0 };
        assert forall|i: int, j: int| 0 <= i < j < after.len() implies after[i] != after[j] by {
            assert(after[i] == before.queue[i + off]);
            if j < after.len() - 1 {
                assert(after[j] == before.queue[j + off]);
            }
        }
        assert forall|i: int| 0 <= i < after.len() implies !before.in_progress.contains(
            #[trigger] after[i],
        ) by {
            if i < after.len() - 1 {
                assert(after[i] == before.queue[i + off]);
            }
        }
    }
    let mut busy: HashSet<u32> = HashSet::new();
    std::mem::swap(&mut busy, &mut queue.in_progress);
    let rebuilt = PrefetchQueue { queue: waiting, in_progress: busy, worker_running: true };
    *queue = rebuilt;
    spawn
}

/// Empties the queue and tells how many UIDs waited in it. Fetches under
/// way are left alone.
pub fn clear_prefetch_queue(queue: &mut PrefetchQueue) -> (cleared: usize)
    ensures
        cleared == old(queue)@.queue.len(),
        final(queue)@.queue == Seq::<u32>::empty(),
        final(queue)@.in_progress == old(queue)@.in_progress,
        final(queue)@.worker_running == old(queue)@.worker_running,
        queue_valid(final(queue)@),
{
    proof {
        use_type_invariant(&*queue);
    }
    let mut waiting: VecDeque<u32> = VecDeque::new();
    std::mem::swap(&mut waiting, &mut queue.queue);
    waiting.len()
}

/// The next step of the worker, given the number of fetch permits that are
/// free.
pub fn next_prefetch(queue: &mut PrefetchQueue, permits: usize) -> (step: WorkerStep)
    ensures
        step == step_of(old(queue)@, permits),
        final(queue)@ == after_step(old(queue)@, permits),
        queue_valid(final(queue)@),
{
    proof {
        use_type_invariant(&*queue);
    }
    let ghost before = queue@;
    if queue.queue.len() == 0 {
        let mut idle: HashSet<u32> = HashSet::new();
        std::mem::swap(&mut idle, &mut queue.in_progress);
        let rebuilt = PrefetchQueue {
            queue: VecDeque::new(),
            in_progress: idle,
            worker_running: false,
        };
        assert(rebuilt@.queue =~= before.queue);
        *queue = rebuilt;
        return WorkerStep::Exit;
    }
    if permits <= 1 {
        return WorkerStep::Backoff;
    }
    let running = queue.worker_running;
    let mut waiting: VecDeque<u32> = VecDeque::new();
    std::mem::swap(&mut waiting, &mut queue.queue);
    let mut busy: HashSet<u32> = HashSet::new();
    std::mem::swap(&mut busy, &mut queue.in_progress);
    let uid = waiting[0];
    let _ = waiting.pop_front();
    let _ = busy.insert(uid);
    proof {
        assert(waiting@ =~= before.queue.drop_first());
        assert forall|i: int, j: int| 0 <= i < j < waiting@.len() implies waiting@[i]
            != waiting@[j] by {
            assert(waiting@[i] == before.queue[i + 1] && waiting@[j] == before.queue[j + 1]);
        }
        assert forall|i: int| 0 <= i < waiting@.len() implies !busy@.contains(
            #[trigger] waiting@[i],
        ) by {
            assert(waiting@[i] == before.queue[i + 1]);
            assert(before.queue[0] != before.queue[i + 1]);
            assert(!before.in_progress.contains(before.queue[i + 1]));
        }
    }
    let rebuilt = PrefetchQueue { queue: waiting, in_progress: busy, worker_running: running };
    *queue = rebuilt;
    WorkerStep::Fetch(uid)
}

/// Whether the body of `uid`, taken from the queue a moment ago, still has
/// to be fetched: it has not when it reached the store in the meantime.
pub fn still_needed(store: &Store, uid: u32) -> (r: bool)
    ensures
        r == (stored_body(store@.rows, uid) is None),
{
    get_message_body_cache(store, INBOX, uid).is_none()
}

/// Notes that the fetch of `uid` is over.
pub fn finish_prefetch(queue: &mut PrefetchQueue, uid: u32)
    ensures
        final(queue)@.queue == old(queue)@.queue,
        final(queue)@.in_progress == old(queue)@.in_progress.remove(uid),
        final(queue)@.worker_running == old(queue)@.worker_running,
        queue_valid(final(queue)@),
{
    proof {
        use_type_invariant(&*queue);
    }
    let running = queue.worker_running;
    let mut waiting: VecDeque<u32> = VecDeque::new();
    std::mem::swap(&mut waiting, &mut queue.queue);
    let mut busy: HashSet<u32> = HashSet::new();
    std::mem::swap(&mut busy, &mut queue.in_progress);
    let _ = busy.remove(&uid);
    let rebuilt = PrefetchQueue { queue: waiting, in_progress: busy, worker_running: running };
    *queue = rebuilt;
}

} // verus!
