//! The commands by which the user changes and pages through the mirrored
//! mailbox: what each asks of the server, and what it does to the store
//! once the server has agreed.

use crate::message::{messages_view, MessageHeader, INBOX, LISTING_SIZE};
use crate::store::{
    delete_message_local, find_row, has_row, is_message_seen, lemma_seen_after_set,
    load_cached_messages, load_messages_page, page_of, row_with_flagged, row_with_seen, rows_valid,
    set_message_flagged, set_message_seen, with_row_changed, without_row, RowView, Store,
};
use crate::text::{decimal, decimal_of, string_of};
use vstd::prelude::*;

verus! {

/// The largest page of the message list that is handed out.
pub const MAX_PAGE: u32 = 100;

/// The mailbox that deleted messages are moved to.
pub const TRASH_MAILBOX: &'static str = "[Gmail]/Trash";

/// The change that marks a message as seen.
pub const ADD_SEEN: &'static str = "+FLAGS.SILENT (\\Seen)";

/// The change that stars a message.
pub const ADD_FLAGGED: &'static str = "+FLAGS.SILENT (\\Flagged)";

/// The change that takes the star from a message.
pub const REMOVE_FLAGGED: &'static str = "-FLAGS.SILENT (\\Flagged)";

/// The change that labels a message as trash.
pub const ADD_TRASH_LABEL: &'static str = "+X-GM-LABELS (\\Trash)";

/// The change that marks a message as deleted.
pub const ADD_DELETED: &'static str = "+FLAGS.SILENT (\\Deleted)";

/// A `UID STORE` command: the message it names and the change it asks for.
pub struct StoreCommand {
    pub uid_set: String,
    pub query: String,
}

/// The view of an optional command: its message set and its change.
pub open spec fn opt_command(c: Option<StoreCommand>) -> Option<(Seq<char>, Seq<char>)> {
    match c {
        Some(cmd) => Some((cmd.uid_set@, cmd.query@)),
        None => None,
    }
}

/// Whether the store knows the message `uid` of the inbox to be seen.
pub open spec fn known_seen(rows: Seq<RowView>, uid: u32) -> bool {
    match find_row(rows, INBOX@, uid) {
        Some(row) => row.seen,
        None => false,
    }
}

fn store_command(uid: u32, query: &str) -> (r: StoreCommand)
    ensures
        r.uid_set@ == decimal(uid as nat),
        r.query@ == query@,
{
    StoreCommand { uid_set: string_of(&decimal_of(uid as u64)), query: String::from_str(query) }
}

/// What marking the message `uid` as read asks of the server: nothing where
/// the store knows the message to be seen already, else the change
/// `ADD_SEEN`. Once the server has agreed, `confirm_read` follows.
pub fn mark_as_read(store: &Store, uid: u32) -> (r: Option<StoreCommand>)
    ensures
        opt_command(r) == if known_seen(store@.rows, uid) {
            None
        } else {
            Some((decimal(uid as nat), ADD_SEEN@))
        },
{
    if is_message_seen(store, INBOX, uid) {
        None
    } else {
        Some(store_command(uid, ADD_SEEN))
    }
}

/// Notes in the store that the message `uid` was marked as read on the
/// server.
pub fn confirm_read(store: &mut Store, uid: u32)
    ensures
        final(store)@.rows == with_row_changed(
            old(store)@.rows,
            INBOX@,
            uid,
            |r: RowView| row_with_seen(r, true),
        ),
        final(store)@.validity == old(store)@.validity,
        rows_valid(final(store)@.rows),
{
    set_message_seen(store, INBOX, uid, true);
}

/// Once a message that has a row was marked as read and the store was told,
/// marking it as read again asks nothing of the server.
pub proof fn lemma_mark_as_read_once(rows: Seq<RowView>, uid: u32)
    requires
        rows_valid(rows),
        has_row(rows, INBOX@, uid),
    ensures
        known_seen(with_row_changed(rows, INBOX@, uid, |r: RowView| row_with_seen(r, true)), uid),
{
    lemma_seen_after_set(rows, INBOX@, uid);
}

/// What starring the message `uid`, or taking its star, asks of the server.
/// Once the server has agreed, `confirm_star` follows.
pub fn toggle_star(uid: u32, should_star: bool) -> (r: StoreCommand)
    ensures
        r.uid_set@ == decimal(uid as nat),
        r.query@ == if should_star {
            ADD_FLAGGED@
        } else {
            REMOVE_FLAGGED@
        },
{
    if should_star {
        store_command(uid, ADD_FLAGGED)
    } else {
        store_command(uid, REMOVE_FLAGGED)
    }
}

/// Notes in the store that the star of the message `uid` was set or taken
/// on the server.
pub fn confirm_star(store: &mut Store, uid: u32, should_star: bool)
    ensures
        final(store)@.rows == with_row_changed(
            old(store)@.rows,
            INBOX@,
            uid,
            |r: RowView| row_with_flagged(r, should_star),
        ),
        final(store)@.validity == old(store)@.validity,
        rows_valid(final(store)@.rows),
{
    set_message_flagged(store, INBOX, uid, should_star);
}

/// What deleting a message asks of the server.
pub struct DeletePlan {
    /// The message set that names the message.
    pub uid_set: String,
    /// The mailbox to move the message to with `UID MOVE`.
    pub trash: String,
    /// The commands to send, in this order, where the move fails; their
    /// outcome is not looked at.
    pub fallback: Vec<StoreCommand>,
}

/// What deleting the message `uid` asks of the server: to move it to
/// `TRASH_MAILBOX`, and where that fails, to put the label of trash on it
/// and then to mark it as deleted. `confirm_delete` follows in either case.
pub fn delete_message(uid: u32) -> (r: DeletePlan)
    ensures
        r.uid_set@ == decimal(uid as nat),
        r.trash@ == TRASH_MAILBOX@,
        r.fallback@.len() == 2,
        r.fallback@[0].uid_set@ == decimal(uid as nat),
        r.fallback@[0].query@ == ADD_TRASH_LABEL@,
        r.fallback@[1].uid_set@ == decimal(uid as nat),
        r.fallback@[1].query@ == ADD_DELETED@,
{
    let mut fallback: Vec<StoreCommand> = Vec::new();
    fallback.push(store_command(uid, ADD_TRASH_LABEL));
    fallback.push(store_command(uid, ADD_DELETED));
    DeletePlan {
        uid_set: string_of(&decimal_of(uid as u64)),
        trash: String::from_str(TRASH_MAILBOX),
        fallback,
    }
}

/// Removes the message `uid` from the store once the server was told to
/// delete it.
pub fn confirm_delete(store: &mut Store, uid: u32)
    ensures
        final(store)@.rows == without_row(old(store)@.rows, INBOX@, uid),
        final(store)@.validity == old(store)@.validity,
        rows_valid(final(store)@.rows),
{
    delete_message_local(store, INBOX, uid);
}

/// The size of the page handed out when `limit` was asked for.
pub open spec fn page_limit(limit: u32) -> u32 {
    if limit > MAX_PAGE {
        MAX_PAGE
    } else {
        limit
    }
}

/// A page of the message list of the inbox: the newest messages below
/// `before_uid`, or the newest of all where that is not given; `limit` of
/// them, but no more than `MAX_PAGE`.
pub fn get_messages_page(store: &Store, before_uid: Option<u32>, limit: u32) -> (r: Vec<
    MessageHeader,
>)
    ensures
        messages_view(r@) == page_of(store@.rows, INBOX@, before_uid, page_limit(limit) as nat),
{
    let safe_limit = if limit > MAX_PAGE {
        MAX_PAGE
    } else {
        limit
    };
    load_messages_page(store, INBOX, before_uid, safe_limit)
}

/// The newest messages of the inbox that the store holds, `LISTING_SIZE` at
/// most.
pub fn get_cached_messages(store: &Store) -> (r: Vec<MessageHeader>)
    ensures
        messages_view(r@) == page_of(store@.rows, INBOX@, None, LISTING_SIZE as nat),
{
    load_cached_messages(store, LISTING_SIZE as u32)
}

} // verus!
