//! Incremental synchronisation of message headers: which range of UIDs to
//! fetch given what the store holds and what the server reports, and what to
//! do with the answer.
//!
//! The caller selects the mailbox and fetches; the decisions before and
//! after the fetch are made here.

use crate::message::{
    messages_view, parse_header_to_message, synced_header, FetchedMessage, MessageHeader,
    MessageHeaderView, INBOX,
};
use crate::mime::opt_bytes;
use crate::store::{
    clear_messages, get_highest_uid, get_mailbox_validity, get_unfetched_recent_uids, highest_uid,
    insert_or_update_messages, lemma_cleared_folder_is_empty, rows_valid, unfetched_recent,
    update_mailbox_validity, upserted_all, without_folder, Store,
};
use crate::text::{decimal, push_decimal, string_of};
use vstd::prelude::*;

verus! {

/// How many of the newest messages without a body are handed to the
/// prefetcher after a synchronisation.
pub const PREFETCH_AFTER_SYNC: u32 = 10;

/// The items asked of the server for each message of the range.
pub const HEADER_QUERY: &'static str = "(UID FLAGS BODY.PEEK[HEADER.FIELDS (SUBJECT FROM DATE)])";

/// What the server reports of a mailbox when it is selected.
#[derive(Clone, Copy, Debug, PartialEq, Eq, Structural)]
pub struct MailboxStatus {
    pub uid_validity: Option<u32>,
    pub uid_next: Option<u32>,
    pub exists: u32,
}

/// What a synchronisation does next.
#[derive(Clone, Copy, Debug, PartialEq, Eq, Structural)]
pub enum SyncStep {
    /// The store holds all that the server has: nothing is fetched and the
    /// synchronisation ends with no new message.
    UpToDate,
    /// The headers of the UIDs from `start` to `end` are to be fetched;
    /// `bootstrap` tells that the store holds nothing of the mailbox yet.
    Fetch { start: u32, end: u32, bootstrap: bool },
}

/// Why a synchronisation failed.
#[derive(Clone, Copy, Debug, PartialEq, Eq, Structural)]
pub enum SyncError {
    /// The server announced new UIDs, but the fetch of their range brought
    /// nothing: the session is taken to be stale.
    SuspiciousZeroSync,
}

/// How a synchronisation ended.
#[derive(Clone, Copy, Debug, PartialEq, Eq, Structural)]
pub struct SyncOutcome {
    /// The number of headers written.
    pub num_new: u32,
    /// Whether the user interface is to be told that mail has changed.
    pub notify: bool,
}

/// A number the server left out counts as zero.
pub open spec fn or_zero(n: Option<u32>) -> u32 {
    match n {
        Some(v) => v,
        None => 0,
    }
}

/// The step taken when the store's highest UID is `last_uid` and the server
/// will give `uid_next` to its next message.
pub open spec fn planned(last_uid: u32, uid_next: u32) -> SyncStep {
    if uid_next <= last_uid + 1 {
        SyncStep::UpToDate
    } else {
        SyncStep::Fetch {
            start: (last_uid + 1) as u32,
            end: (uid_next - 1) as u32,
            bootstrap: last_uid == 0,
        }
    }
}

/// Computes `planned`.
pub fn plan_sync(last_uid: u32, uid_next: u32) -> (step: SyncStep)
    ensures
        step == planned(last_uid, uid_next),
        step matches SyncStep::Fetch { start, end, .. } ==> 1 <= start <= end,
{
    if uid_next as u64 <= last_uid as u64 + 1 {
        SyncStep::UpToDate
    } else {
        SyncStep::Fetch { start: last_uid + 1, end: uid_next - 1, bootstrap: last_uid == 0 }
    }
}

/// Whether the UIDVALIDITY recorded for the inbox differs from the one the
/// server reports, or none is recorded.
pub open spec fn validity_changed(validity: Map<Seq<char>, u32>, server_validity: u32) -> bool {
    !(validity.dom().contains(INBOX@) && validity[INBOX@] == server_validity)
}

/// The first half of a synchronisation, run once the inbox is selected.
///
/// Where the server's UIDVALIDITY is not the one recorded, every message of
/// the inbox is dropped, the new value is recorded, and the mailbox counts as
/// empty. The step returned is planned from the highest UID then held.
pub fn begin_sync(store: &mut Store, status: MailboxStatus) -> (step: SyncStep)
    ensures
        validity_changed(old(store)@.validity, or_zero(status.uid_validity)) ==> {
            &&& final(store)@.rows == without_folder(old(store)@.rows, INBOX@)
            &&& final(store)@.validity == old(store)@.validity.insert(
                INBOX@,
                or_zero(status.uid_validity),
            )
            &&& step == planned(0, or_zero(status.uid_next))
        },
        !validity_changed(old(store)@.validity, or_zero(status.uid_validity)) ==> {
            &&& final(store)@ == old(store)@
            &&& step == planned(highest_uid(old(store)@.rows, INBOX@), or_zero(status.uid_next))
        },
        step == planned(highest_uid(final(store)@.rows, INBOX@), or_zero(status.uid_next)),
        !validity_changed(final(store)@.validity, or_zero(status.uid_validity)),
        rows_valid(final(store)@.rows),
{
    let server_validity = match status.uid_validity {
        Some(v) => v,
        None => 0,
    };
    let uid_next = match status.uid_next {
        Some(v) => v,
        None => 0,
    };
    let mut last_uid = get_highest_uid(store, INBOX);
    let stored = get_mailbox_validity(store, INBOX);
    let same = match stored {
        Some(v) => v == server_validity,
        None => false,
    };
    let _ = store.len();
    if !same {
        proof {
            lemma_cleared_folder_is_empty(store@.rows, INBOX@, 0);
        }
        clear_messages(store, INBOX);
        update_mailbox_validity(store, INBOX, server_validity);
        last_uid = 0;
    }
    plan_sync(last_uid, uid_next)
}

/// The message set that names the UIDs from `start` to `end`.
pub open spec fn uid_range(start: u32, end: u32) -> Seq<char> {
    decimal(start as nat).push(':') + decimal(end as nat)
}

/// Writes the message set that names the UIDs from `start` to `end`.
pub fn fetch_range(start: u32, end: u32) -> (r: String)
    ensures
        r@ == uid_range(start, end),
{
    let mut out: Vec<char> = Vec::new();
    push_decimal(&mut out, start as u64);
    out.push(':');
    push_decimal(&mut out, end as u64);
    assert(out@ =~= uid_range(start, end));
    string_of(&out)
}

/// The headers read from the responses to a header fetch, in their order;
/// a response that gives no header is passed over.
pub open spec fn synced_messages(fetched: Seq<FetchedMessage>, validity: u32) -> Seq<
    MessageHeaderView,
>
    decreases fetched.len(),
{
    if fetched.len() == 0 {
        Seq::empty()
    } else {
        let rest = synced_messages(fetched.drop_last(), validity);
        let last = fetched.last();
        match synced_header(last.uid, last.flags@, opt_bytes(last.header), validity) {
            Some(h) => rest.push(h),
            None => rest,
        }
    }
}

/// Reads the headers from the responses to a header fetch.
pub fn read_fetched(fetched: &Vec<FetchedMessage>, server_validity: u32) -> (r: Vec<MessageHeader>)
    ensures
        messages_view(r@) == synced_messages(fetched@, server_validity),
{
    let mut out: Vec<MessageHeader> = Vec::new();
    let mut i: usize = 0;
    assert(fetched@.take(0) =~= Seq::<FetchedMessage>::empty());
    assert(messages_view(out@) =~= Seq::<MessageHeaderView>::empty());
    while i < fetched.len()
        invariant
            i <= fetched@.len(),
            messages_view(out@) == synced_messages(fetched@.take(i as int), server_validity),
        decreases fetched@.len() - i,
    {
        let ghost had = messages_view(out@);
        match parse_header_to_message(&fetched[i], server_validity) {
            Some(h) => {
                out.push(h);
                assert(messages_view(out@) =~= had.push(h@));
            },
            None => {},
        }
        i += 1;
        assert(fetched@.take(i as int).drop_last() =~= fetched@.take(i - 1));
    }
    assert(fetched@.take(fetched@.len() as int) =~= fetched@);
    out
}

/// The count `n` as far as `u32` can hold it.
pub open spec fn clamped(n: nat) -> u32 {
    if n > u32::MAX {
        u32::MAX
    } else {
        n as u32
    }
}

/// Writes the headers of a synchronisation to the store and tells how many
/// there were. The user interface is to be told exactly when there was at
/// least one; with none the store stays as it is.
pub fn persist_messages(store: &mut Store, messages: &Vec<MessageHeader>) -> (outcome: SyncOutcome)
    ensures
        final(store)@.rows == upserted_all(old(store)@.rows, messages_view(messages@)),
        final(store)@.validity == old(store)@.validity,
        rows_valid(final(store)@.rows),
        outcome.num_new == clamped(messages@.len()),
        outcome.notify == (messages@.len() > 0),
        messages@.len() == 0 ==> final(store)@ == old(store)@,
{
    insert_or_update_messages(store, messages);
    let n = messages.len();
    let num_new: u32 = if n > u32::MAX as usize {
        u32::MAX
    } else {
        n as u32
    };
    SyncOutcome { num_new, notify: num_new > 0 }
}

/// The second half of a synchronisation, run with the responses to the fetch
/// of the planned range.
///
/// A fetch is planned only where the server announced UIDs beyond those
/// held; so where the responses give no header at all the answer is
/// `SuspiciousZeroSync` and the store stays as it is. Otherwise the headers
/// are written.
pub fn finish_sync(store: &mut Store, fetched: &Vec<FetchedMessage>, server_validity: u32) -> (r:
    Result<SyncOutcome, SyncError>)
    ensures
        synced_messages(fetched@, server_validity).len() == 0 ==> r == Err::<
            SyncOutcome,
            SyncError,
        >(SyncError::SuspiciousZeroSync) && final(store)@ == old(store)@,
        synced_messages(fetched@, server_validity).len() > 0 ==> {
            &&& r == Ok::<SyncOutcome, SyncError>(
                SyncOutcome {
                    num_new: clamped(synced_messages(fetched@, server_validity).len()),
                    notify: true,
                },
            )
            &&& final(store)@.rows == upserted_all(
                old(store)@.rows,
                synced_messages(fetched@, server_validity),
            )
            &&& final(store)@.validity == old(store)@.validity
        },
{
    let messages = read_fetched(fetched, server_validity);
    if messages.len() == 0 {
        return Err(SyncError::SuspiciousZeroSync);
    }
    Ok(persist_messages(store, &messages))
}

/// What has happened in a synchronisation since its last action.
pub enum SyncEvent {
    /// The inbox was selected, and the server reported this of it.
    Selected(MailboxStatus),
    /// The planned range was fetched, and these headers were read from the
    /// responses.
    Fetched { messages: Vec<MessageHeader> },
}

/// What a synchronisation does next.
#[derive(Clone, Copy, Debug, PartialEq, Eq, Structural)]
pub enum SyncAction {
    /// Select the inbox once more and fetch `HEADER_QUERY` for the UIDs from
    /// `start` to `end`.
    Fetch { start: u32, end: u32, bootstrap: bool },
    /// The synchronisation is over and has this outcome.
    Finished(SyncOutcome),
    /// The synchronisation has failed; the session it ran on is to be
    /// dropped.
    Failed(SyncError),
}

/// The action that carries out a step.
pub open spec fn action_of(step: SyncStep) -> SyncAction {
    match step {
        SyncStep::UpToDate => SyncAction::Finished(SyncOutcome { num_new: 0, notify: false }),
        SyncStep::Fetch { start, end, bootstrap } => SyncAction::Fetch { start, end, bootstrap },
    }
}

/// The action that carries out the end of a synchronisation.
pub open spec fn action_of_end(end: Result<SyncOutcome, SyncError>) -> SyncAction {
    match end {
        Ok(outcome) => SyncAction::Finished(outcome),
        Err(e) => SyncAction::Failed(e),
    }
}

/// Takes a synchronisation of the inbox one step further: from the selection
/// of the mailbox to the fetch of what is new, if anything is, and from the
/// headers read from the responses to the end. The first step is that of
/// `begin_sync`. In the second the headers are written; a fetch is planned
/// only where the server announced UIDs beyond those held, so where no
/// header was read the synchronisation fails and the store stays as it is.
pub fn sync_inbox(store: &mut Store, event: &SyncEvent) -> (action: SyncAction)
    ensures
        *event matches SyncEvent::Selected(status) ==> {
            &&& action == action_of(
                planned(highest_uid(final(store)@.rows, INBOX@), or_zero(status.uid_next)),
            )
            &&& !validity_changed(final(store)@.validity, or_zero(status.uid_validity))
            &&& validity_changed(old(store)@.validity, or_zero(status.uid_validity)) ==> final(store)@.rows
                == without_folder(old(store)@.rows, INBOX@) && final(store)@.validity == old(store)@.validity.insert(
                INBOX@,
                or_zero(status.uid_validity),
            )
            &&& !validity_changed(old(store)@.validity, or_zero(status.uid_validity)) ==> final(store)@
                == old(store)@
        },
        *event matches SyncEvent::Fetched { messages } ==> {
            &&& messages@.len() == 0 ==> action == SyncAction::Failed(SyncError::SuspiciousZeroSync)
                && final(store)@ == old(store)@
            &&& messages@.len() > 0 ==> action == SyncAction::Finished(
                SyncOutcome { num_new: clamped(messages@.len()), notify: true },
            ) && final(store)@.rows == upserted_all(old(store)@.rows, messages_view(messages@))
                && final(store)@.validity == old(store)@.validity
        },
{
    match event {
        SyncEvent::Selected(status) => {
            match begin_sync(store, *status) {
                SyncStep::UpToDate => SyncAction::Finished(
                    SyncOutcome { num_new: 0, notify: false },
                ),
                SyncStep::Fetch { start, end, bootstrap } => SyncAction::Fetch {
                    start,
                    end,
                    bootstrap,
                },
            }
        },
        SyncEvent::Fetched { messages } => {
            if messages.len() == 0 {
                SyncAction::Failed(SyncError::SuspiciousZeroSync)
            } else {
                SyncAction::Finished(persist_messages(store, messages))
            }
        },
    }
}

/// The UIDs whose bodies are fetched ahead of need once a synchronisation
/// is over: the newest messages of the inbox that have no body yet.
pub fn prefetch_candidates(store: &Store) -> (r: Vec<u32>)
    ensures
        r@ == unfetched_recent(store@.rows, INBOX@, PREFETCH_AFTER_SYNC as nat),
{
    get_unfetched_recent_uids(store, INBOX, PREFETCH_AFTER_SYNC)
}

impl SyncError {
    /// The error in words.
    pub fn message(&self) -> (r: String)
        ensures
            r@ == "Suspicious zero-sync detected"@,
    {
        String::from_str("Suspicious zero-sync detected")
    }
}

/// The mark that a synchronisation is under way, by which the poll loop and
/// the push listener leave a running synchronisation alone.
pub struct SyncLock {
    running: bool,
}

impl SyncLock {
    /// Whether a synchronisation is under way.
    pub closed spec fn is_running(&self) -> bool {
        self.running
    }

    /// A lock with no synchronisation under way.
    pub fn new() -> (lock: Self)
        ensures
            !lock.is_running(),
    {
        SyncLock { running: false }
    }

    /// Whether a synchronisation is under way.
    pub fn is_sync_running(&self) -> (r: bool)
        ensures
            r == self.is_running(),
    {
        self.running
    }

    /// Claims the lock for a synchronisation; refused while another one is
    /// under way.
    pub fn try_enter(&mut self) -> (entered: bool)
        ensures
            entered == !old(self).is_running(),
            final(self).is_running(),
    {
        if self.running {
            false
        } else {
            self.running = true;
            true
        }
    }

    /// Gives the lock back when the synchronisation is over.
    pub fn leave(&mut self)
        ensures
            !final(self).is_running(),
    {
        self.running = false;
    }
}


/// With nothing held of the mailbox, as after a change of UIDVALIDITY, and
/// at least one message on the server, the whole range of UIDs is fetched:
/// from one to the UID before the next.
pub proof fn lemma_empty_mirror_bootstraps(uid_next: u32)
    requires
        uid_next > 1,
    ensures
        planned(0, uid_next) == (SyncStep::Fetch {
            start: 1,
            end: (uid_next - 1) as u32,
            bootstrap: true,
        }),
{
}

/// Where the server's next UID is no more than one above the highest UID
/// held, nothing is fetched.
pub proof fn lemma_nothing_new_nothing_fetched(last_uid: u32, uid_next: u32)
    requires
        uid_next <= last_uid + 1,
    ensures
        planned(last_uid, uid_next) == SyncStep::UpToDate,
{
}

/// A fetch is planned only for a range that lies above what is held and
/// below the server's next UID, and that is not empty.
pub proof fn lemma_planned_range(last_uid: u32, uid_next: u32)
    ensures
        planned(last_uid, uid_next) matches SyncStep::Fetch { start, end, bootstrap } ==> start
            == last_uid + 1 && end == uid_next - 1 && start <= end && bootstrap == (last_uid == 0),
{
}

} // verus!
