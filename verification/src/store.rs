//! The local mirror of the mailbox: one row per message, found by folder and
//! UID, and the UIDVALIDITY last seen of each mailbox.
//!
//! The store is a table held in memory. What is written to disk, and when,
//! is left to the caller; what each operation does to the table is stated
//! here.

use crate::message::{or_empty, MessageHeader, MessageHeaderView, INBOX};
use crate::mime::{clone_text, opt_text};
use vstd::prelude::*;

verus! {

/// How far below the highest UID of a folder a message may lie and still be
/// fetched ahead of need.
pub const PREFETCH_WINDOW: u32 = 200;

/// One row of the message table.
struct StoredMessage {
    folder: String,
    uid: u32,
    uid_validity: u32,
    subject: String,
    sender: String,
    date: i64,
    snippet: String,
    body: Option<String>,
    seen: bool,
    flagged: bool,
    has_attachments: bool,
    thread_id: Option<String>,
    body_fetched: bool,
}

/// The mathematical content of a row.
pub struct RowView {
    pub folder: Seq<char>,
    pub uid: u32,
    pub uid_validity: u32,
    pub subject: Seq<char>,
    pub sender: Seq<char>,
    pub date: i64,
    pub snippet: Seq<char>,
    pub body: Option<Seq<char>>,
    pub seen: bool,
    pub flagged: bool,
    pub has_attachments: bool,
    pub thread_id: Option<Seq<char>>,
    pub body_fetched: bool,
}

/// The UIDVALIDITY recorded for one mailbox.
struct MailboxState {
    mailbox: String,
    uid_validity: u32,
}

/// The mathematical content of a store: its rows in the order in which they
/// were first written, and the UIDVALIDITY of each mailbox.
pub struct StoreView {
    pub rows: Seq<RowView>,
    pub validity: Map<Seq<char>, u32>,
}

/// The message table and the mailbox states.
pub struct Store {
    rows: Vec<StoredMessage>,
    mailboxes: Vec<MailboxState>,
}

spec fn row_view(r: StoredMessage) -> RowView {
    RowView {
        folder: r.folder@,
        uid: r.uid,
        uid_validity: r.uid_validity,
        subject: r.subject@,
        sender: r.sender@,
        date: r.date,
        snippet: r.snippet@,
        body: opt_text(r.body),
        seen: r.seen,
        flagged: r.flagged,
        has_attachments: r.has_attachments,
        thread_id: opt_text(r.thread_id),
        body_fetched: r.body_fetched,
    }
}

spec fn rows_view(rows: Seq<StoredMessage>) -> Seq<RowView> {
    Seq::new(rows.len(), |i: int| row_view(rows[i]))
}

spec fn validity_map(entries: Seq<MailboxState>) -> Map<Seq<char>, u32>
    decreases entries.len(),
{
    if entries.len() == 0 {
        Map::empty()
    } else {
        validity_map(entries.drop_last()).insert(
            entries.last().mailbox@,
            entries.last().uid_validity,
        )
    }
}

impl View for Store {
    type V = StoreView;

    closed spec fn view(&self) -> StoreView {
        StoreView { rows: rows_view(self.rows@), validity: validity_map(self.mailboxes@) }
    }
}

/// Whether the row is the one of `uid` in `folder`.
pub open spec fn same_key(r: RowView, folder: Seq<char>, uid: u32) -> bool {
    r.folder == folder && r.uid == uid
}

/// No two rows share folder and UID.
pub open spec fn keys_distinct(rows: Seq<RowView>) -> bool {
    forall|i: int, j: int|
        0 <= i < j < rows.len() ==> !(rows[i].folder == rows[j].folder && rows[i].uid
            == rows[j].uid)
}

/// Every row marked as fetched holds a body.
pub open spec fn bodies_present(rows: Seq<RowView>) -> bool {
    forall|i: int| 0 <= i < rows.len() ==> (#[trigger] rows[i].body_fetched ==> rows[i].body is Some)
}

/// What holds of the rows of every store between operations.
pub open spec fn rows_valid(rows: Seq<RowView>) -> bool {
    keys_distinct(rows) && bodies_present(rows)
}

/// Whether `uid` has a row in `folder`.
pub open spec fn has_row(rows: Seq<RowView>, folder: Seq<char>, uid: u32) -> bool {
    exists|i: int| 0 <= i < rows.len() && same_key(#[trigger] rows[i], folder, uid)
}

/// The place of the row of `uid` in `folder`, where there is one.
pub open spec fn row_index(rows: Seq<RowView>, folder: Seq<char>, uid: u32) -> int {
    choose|i: int| 0 <= i < rows.len() && same_key(#[trigger] rows[i], folder, uid)
}

/// The row of `uid` in `folder`, if there is one.
pub open spec fn find_row(rows: Seq<RowView>, folder: Seq<char>, uid: u32) -> Option<RowView> {
    if has_row(rows, folder, uid) {
        Some(rows[row_index(rows, folder, uid)])
    } else {
        None
    }
}

/// The highest UID among the rows of `folder`, zero where it has none.
pub open spec fn highest_uid(rows: Seq<RowView>, folder: Seq<char>) -> u32
    decreases rows.len(),
{
    if rows.len() == 0 {
        0
    } else {
        let rest = highest_uid(rows.drop_last(), folder);
        if rows.last().folder == folder && rows.last().uid > rest {
            rows.last().uid
        } else {
            rest
        }
    }
}

/// The row first written for the header `m`.
pub open spec fn fresh_row(m: MessageHeaderView) -> RowView {
    RowView {
        folder: m.folder,
        uid: m.uid,
        uid_validity: m.uid_validity,
        subject: m.subject,
        sender: m.from,
        date: m.date,
        snippet: or_empty(m.snippet),
        body: None,
        seen: m.seen,
        flagged: m.flagged,
        has_attachments: false,
        thread_id: None,
        body_fetched: false,
    }
}

/// The row `old` brought up to date with the header `m`: subject, sender,
/// date, flags and snippet are taken from `m`, everything else is kept.
pub open spec fn merged_row(old: RowView, m: MessageHeaderView) -> RowView {
    RowView {
        folder: old.folder,
        uid: old.uid,
        uid_validity: old.uid_validity,
        subject: m.subject,
        sender: m.from,
        date: m.date,
        snippet: or_empty(m.snippet),
        body: old.body,
        seen: m.seen,
        flagged: m.flagged,
        has_attachments: old.has_attachments,
        thread_id: old.thread_id,
        body_fetched: old.body_fetched,
    }
}

/// The rows after the header `m` was written: its row brought up to date
/// where it has one, a fresh row at the end where it has none.
pub open spec fn upserted(rows: Seq<RowView>, m: MessageHeaderView) -> Seq<RowView> {
    if has_row(rows, m.folder, m.uid) {
        let i = row_index(rows, m.folder, m.uid);
        rows.update(i, merged_row(rows[i], m))
    } else {
        rows.push(fresh_row(m))
    }
}

/// The rows after each header of `batch` was written in turn.
pub open spec fn upserted_all(rows: Seq<RowView>, batch: Seq<MessageHeaderView>) -> Seq<RowView>
    decreases batch.len(),
{
    if batch.len() == 0 {
        rows
    } else {
        upserted(upserted_all(rows, batch.drop_last()), batch.last())
    }
}

/// The rows that are not of `folder`, in their order.
pub open spec fn without_folder(rows: Seq<RowView>, folder: Seq<char>) -> Seq<RowView>
    decreases rows.len(),
{
    if rows.len() == 0 {
        rows
    } else if rows.last().folder == folder {
        without_folder(rows.drop_last(), folder)
    } else {
        without_folder(rows.drop_last(), folder).push(rows.last())
    }
}

/// The rows with the row of `uid` in `folder`, if any, changed by `change`.
pub open spec fn with_row_changed(
    rows: Seq<RowView>,
    folder: Seq<char>,
    uid: u32,
    change: spec_fn(RowView) -> RowView,
) -> Seq<RowView> {
    if has_row(rows, folder, uid) {
        let i = row_index(rows, folder, uid);
        rows.update(i, change(rows[i]))
    } else {
        rows
    }
}

/// The row with its seen flag set to `seen`.
pub open spec fn row_with_seen(r: RowView, seen: bool) -> RowView {
    RowView { seen: seen, ..r }
}

/// The row with its flagged flag set to `flagged`.
pub open spec fn row_with_flagged(r: RowView, flagged: bool) -> RowView {
    RowView { flagged: flagged, ..r }
}

/// The row with `body` as its fetched body and `snippet` as its snippet.
pub open spec fn row_with_body(r: RowView, body: Seq<char>, snippet: Seq<char>) -> RowView {
    RowView { body: Some(body), snippet: snippet, body_fetched: true, ..r }
}

/// The rows without the row of `uid` in `folder`.
pub open spec fn without_row(rows: Seq<RowView>, folder: Seq<char>, uid: u32) -> Seq<RowView> {
    if has_row(rows, folder, uid) {
        rows.remove(row_index(rows, folder, uid))
    } else {
        rows
    }
}

/// Whether a query for the rows of `folder` asks for the row: its UID lies
/// below `below` where that is given, and where `unfetched_above` is given
/// the row has no fetched body and its UID lies above that number.
pub open spec fn wanted(
    r: RowView,
    folder: Seq<char>,
    unfetched_above: Option<int>,
    below: Option<u32>,
) -> bool {
    &&& r.folder == folder
    &&& below matches Some(b) ==> r.uid < b
    &&& unfetched_above matches Some(a) ==> !r.body_fetched && r.uid > a
}

/// The place of the wanted row with the highest UID, if any row is wanted.
pub open spec fn top_index(
    rows: Seq<RowView>,
    folder: Seq<char>,
    unfetched_above: Option<int>,
    below: Option<u32>,
) -> Option<int>
    decreases rows.len(),
{
    if rows.len() == 0 {
        None
    } else {
        let rest = top_index(rows.drop_last(), folder, unfetched_above, below);
        let i = rows.len() - 1;
        if wanted(rows[i], folder, unfetched_above, below) && (rest matches Some(j) ==> rows[j].uid
            < rows[i].uid) {
            Some(i)
        } else {
            rest
        }
    }
}

/// The places of the wanted rows from the highest UID down, `limit` of them
/// at most: the top row, then the top rows below it.
pub open spec fn top_indices(
    rows: Seq<RowView>,
    folder: Seq<char>,
    unfetched_above: Option<int>,
    below: Option<u32>,
    limit: nat,
) -> Seq<int>
    decreases limit,
{
    if limit == 0 {
        Seq::empty()
    } else {
        match top_index(rows, folder, unfetched_above, below) {
            Some(i) => seq![i] + top_indices(
                rows,
                folder,
                unfetched_above,
                Some(rows[i].uid),
                (limit - 1) as nat,
            ),
            None => Seq::empty(),
        }
    }
}

/// The header that the message list shows for a row.
pub open spec fn header_of_row(r: RowView) -> MessageHeaderView {
    MessageHeaderView {
        folder: r.folder,
        uid: r.uid,
        uid_validity: r.uid_validity,
        subject: r.subject,
        from: r.sender,
        date: r.date,
        seen: r.seen,
        flagged: r.flagged,
        has_attachments: r.has_attachments,
        thread_id: r.thread_id,
        snippet: Some(r.snippet),
    }
}

/// A page of the message list: the headers of up to `limit` rows of `folder`
/// from the highest UID down, below `before` where that is given.
pub open spec fn page_of(rows: Seq<RowView>, folder: Seq<char>, before: Option<u32>, limit: nat) -> Seq<
    MessageHeaderView,
> {
    let places = top_indices(rows, folder, None, before, limit);
    Seq::new(places.len(), |k: int| header_of_row(rows[places[k]]))
}

/// The UIDs of up to `limit` rows of `folder` without a fetched body, from
/// the highest down, none of them `PREFETCH_WINDOW` or more below the
/// highest UID of the folder.
pub open spec fn unfetched_recent(rows: Seq<RowView>, folder: Seq<char>, limit: nat) -> Seq<u32> {
    let places = top_indices(
        rows,
        folder,
        Some(highest_uid(rows, folder) - PREFETCH_WINDOW),
        None,
        limit,
    );
    Seq::new(places.len(), |k: int| rows[places[k]].uid)
}


/// In a table without repeated keys, a row with the key sought is the one
/// that `row_index` names.
pub proof fn lemma_row_index(rows: Seq<RowView>, folder: Seq<char>, uid: u32, i: int)
    requires
        keys_distinct(rows),
        0 <= i < rows.len(),
        same_key(rows[i], folder, uid),
    ensures
        has_row(rows, folder, uid),
        row_index(rows, folder, uid) == i,
        find_row(rows, folder, uid) == Some(rows[i]),
{
    let p = row_index(rows, folder, uid);
    assert(0 <= p < rows.len() && same_key(rows[p], folder, uid));
    if p < i {
        assert(!(rows[p].folder == rows[i].folder && rows[p].uid == rows[i].uid));
    } else if i < p {
        assert(!(rows[i].folder == rows[p].folder && rows[i].uid == rows[p].uid));
    }
}

fn find_index(rows: &Vec<StoredMessage>, folder: &String, uid: u32) -> (r: Option<usize>)
    ensures
        match r {
            Some(i) => i < rows@.len() && same_key(rows_view(rows@)[i as int], folder@, uid),
            None => !has_row(rows_view(rows@), folder@, uid),
        },
{
    let mut i: usize = 0;
    while i < rows.len()
        invariant
            i <= rows@.len(),
            forall|j: int| 0 <= j < i ==> !same_key(rows_view(rows@)[j], folder@, uid),
        decreases rows@.len() - i,
    {
        if rows[i].uid == uid && rows[i].folder == *folder {
            return Some(i);
        }
        i += 1;
    }
    None
}

proof fn lemma_validity_last(entries: Seq<MailboxState>, name: Seq<char>, i: int)
    requires
        0 <= i < entries.len(),
        entries[i].mailbox@ == name,
        forall|j: int| i < j < entries.len() ==> entries[j].mailbox@ != name,
    ensures
        validity_map(entries).dom().contains(name),
        validity_map(entries)[name] == entries[i].uid_validity,
    decreases entries.len(),
{
    if i < entries.len() - 1 {
        lemma_validity_last(entries.drop_last(), name, i);
    }
}

proof fn lemma_validity_absent(entries: Seq<MailboxState>, name: Seq<char>)
    requires
        forall|j: int| 0 <= j < entries.len() ==> entries[j].mailbox@ != name,
    ensures
        !validity_map(entries).dom().contains(name),
    decreases entries.len(),
{
    if entries.len() > 0 {
        lemma_validity_absent(entries.drop_last(), name);
    }
}

proof fn lemma_validity_replaced(
    entries: Seq<MailboxState>,
    name: Seq<char>,
    i: int,
    entry: MailboxState,
)
    requires
        0 <= i < entries.len(),
        entries[i].mailbox@ == name,
        entry.mailbox@ == name,
        forall|j: int| i < j < entries.len() ==> entries[j].mailbox@ != name,
    ensures
        validity_map(entries.update(i, entry)) == validity_map(entries).insert(
            name,
            entry.uid_validity,
        ),
    decreases entries.len(),
{
    let changed = entries.update(i, entry);
    if i == entries.len() - 1 {
        assert(changed.drop_last() =~= entries.drop_last());
        assert(validity_map(changed) =~= validity_map(entries).insert(name, entry.uid_validity));
    } else {
        lemma_validity_replaced(entries.drop_last(), name, i, entry);
        assert(changed.drop_last() =~= entries.drop_last().update(i, entry));
        assert(validity_map(changed) =~= validity_map(entries).insert(name, entry.uid_validity));
    }
}

fn find_mailbox(entries: &Vec<MailboxState>, mailbox: &String) -> (r: Option<usize>)
    ensures
        match r {
            Some(i) => i < entries@.len() && entries@[i as int].mailbox@ == mailbox@ && (forall|
                j: int,
            |
                i < j < entries@.len() ==> entries@[j].mailbox@ != mailbox@),
            None => forall|j: int| 0 <= j < entries@.len() ==> entries@[j].mailbox@ != mailbox@,
        },
{
    let mut i: usize = entries.len();
    while i > 0
        invariant
            i <= entries@.len(),
            forall|j: int| i <= j < entries@.len() ==> entries@[j].mailbox@ != mailbox@,
        decreases i,
    {
        i -= 1;
        if entries[i].mailbox == *mailbox {
            return Some(i);
        }
    }
    None
}

impl Store {
    #[verifier::type_invariant]
    spec fn well_formed(self) -> bool {
        rows_valid(rows_view(self.rows@))
    }

    /// A store without rows or mailbox states.
    pub fn new() -> (store: Self)
        ensures
            store@.rows == Seq::<RowView>::empty(),
            store@.validity == Map::<Seq<char>, u32>::empty(),
    {
        let store = Store { rows: Vec::new(), mailboxes: Vec::new() };
        assert(store@.rows =~= Seq::<RowView>::empty());
        store
    }

    /// The number of rows.
    pub fn len(&self) -> (n: usize)
        ensures
            n == self@.rows.len(),
            rows_valid(self@.rows),
    {
        proof {
            use_type_invariant(self);
        }
        self.rows.len()
    }
}

/// The UIDVALIDITY recorded for `mailbox`, if one was recorded.
pub fn get_mailbox_validity(store: &Store, mailbox: &str) -> (r: Option<u32>)
    ensures
        r == if store@.validity.dom().contains(mailbox@) {
            Some(store@.validity[mailbox@])
        } else {
            None
        },
{
    let name = String::from_str(mailbox);
    match find_mailbox(&store.mailboxes, &name) {
        Some(i) => {
            proof {
                lemma_validity_last(store.mailboxes@, mailbox@, i as int);
            }
            Some(store.mailboxes[i].uid_validity)
        },
        None => {
            proof {
                lemma_validity_absent(store.mailboxes@, mailbox@);
            }
            None
        },
    }
}

/// Records `validity` as the UIDVALIDITY of `mailbox`, in place of what was
/// recorded before.
pub fn update_mailbox_validity(store: &mut Store, mailbox: &str, validity: u32)
    ensures
        final(store)@.validity == old(store)@.validity.insert(mailbox@, validity),
        final(store)@.rows == old(store)@.rows,
{
    proof {
        use_type_invariant(&*store);
    }
    let name = String::from_str(mailbox);
    let entry = MailboxState { mailbox: name, uid_validity: validity };
    let mut entries: Vec<MailboxState> = Vec::new();
    std::mem::swap(&mut entries, &mut store.mailboxes);
    let ghost before = entries@;
    match find_mailbox(&entries, &entry.mailbox) {
        Some(i) => {
            proof {
                lemma_validity_replaced(before, mailbox@, i as int, entry);
            }
            entries.set(i, entry);
        },
        None => {
            entries.push(entry);
            assert(entries@.drop_last() =~= before);
        },
    }
    store.mailboxes = entries;
}

proof fn lemma_highest_step(rows: Seq<RowView>, folder: Seq<char>, i: int)
    requires
        0 <= i < rows.len(),
    ensures
        highest_uid(rows.take(i + 1), folder) == if rows[i].folder == folder && rows[i].uid
            > highest_uid(rows.take(i), folder) {
            rows[i].uid
        } else {
            highest_uid(rows.take(i), folder)
        },
{
    assert(rows.take(i + 1).drop_last() =~= rows.take(i));
}

/// The highest UID that the store holds of `folder`; zero where it holds no
/// message of the folder.
pub fn get_highest_uid(store: &Store, folder: &str) -> (r: u32)
    ensures
        r == highest_uid(store@.rows, folder@),
{
    let name = String::from_str(folder);
    let ghost all = rows_view(store.rows@);
    let mut best: u32 = 0;
    let mut i: usize = 0;
    assert(all.take(0) =~= Seq::<RowView>::empty());
    while i < store.rows.len()
        invariant
            i <= store.rows@.len(),
            all == rows_view(store.rows@),
            name@ == folder@,
            best == highest_uid(all.take(i as int), folder@),
        decreases store.rows@.len() - i,
    {
        proof {
            lemma_highest_step(all, folder@, i as int);
        }
        if store.rows[i].uid > best && store.rows[i].folder == name {
            best = store.rows[i].uid;
        }
        i += 1;
    }
    assert(all.take(all.len() as int) =~= all);
    best
}

fn fresh_stored(m: &MessageHeader) -> (r: StoredMessage)
    ensures
        row_view(r) == fresh_row(m@),
{
    StoredMessage {
        folder: m.folder.clone(),
        uid: m.uid,
        uid_validity: m.uid_validity,
        subject: m.subject.clone(),
        sender: m.from.clone(),
        date: m.date,
        snippet: match &m.snippet {
            Some(s) => s.clone(),
            None => String::new(),
        },
        body: None,
        seen: m.seen,
        flagged: m.flagged,
        has_attachments: false,
        thread_id: None,
        body_fetched: false,
    }
}

fn upsert(rows: &mut Vec<StoredMessage>, m: &MessageHeader)
    requires
        rows_valid(rows_view(old(rows)@)),
    ensures
        rows_view(final(rows)@) == upserted(rows_view(old(rows)@), m@),
        rows_valid(rows_view(final(rows)@)),
{
    let ghost before = rows_view(rows@);
    match find_index(rows, &m.folder, m.uid) {
        Some(i) => {
            proof {
                lemma_row_index(before, m@.folder, m.uid, i as int);
            }
            let old_row = rows.remove(i);
            let new_row = StoredMessage {
                folder: old_row.folder,
                uid: old_row.uid,
                uid_validity: old_row.uid_validity,
                subject: m.subject.clone(),
                sender: m.from.clone(),
                date: m.date,
                snippet: match &m.snippet {
                    Some(s) => s.clone(),
                    None => String::new(),
                },
                body: old_row.body,
                seen: m.seen,
                flagged: m.flagged,
                has_attachments: old_row.has_attachments,
                thread_id: old_row.thread_id,
                body_fetched: old_row.body_fetched,
            };
            rows.insert(i, new_row);
            assert(rows_view(rows@) =~= upserted(before, m@));
        },
        None => {
            rows.push(fresh_stored(m));
            assert(rows_view(rows@) =~= upserted(before, m@));
        },
    }
    proof {
        lemma_upserted_valid(before, m@);
    }
}

/// Writing a header keeps the table valid.
pub proof fn lemma_upserted_valid(rows: Seq<RowView>, m: MessageHeaderView)
    requires
        rows_valid(rows),
    ensures
        rows_valid(upserted(rows, m)),
{
    let after = upserted(rows, m);
    if has_row(rows, m.folder, m.uid) {
        let i = row_index(rows, m.folder, m.uid);
        assert forall|a: int, b: int| 0 <= a < b < after.len() implies !(after[a].folder
            == after[b].folder && after[a].uid == after[b].uid) by {
            assert(after[a].folder == rows[a].folder && after[a].uid == rows[a].uid);
            assert(after[b].folder == rows[b].folder && after[b].uid == rows[b].uid);
        }
        assert forall|a: int| 0 <= a < after.len() implies !(#[trigger] after[a].body_fetched) || after[a].body is Some by {
            assert(rows[a].body_fetched ==> rows[a].body is Some);
        }
    } else {
        assert forall|a: int, b: int| 0 <= a < b < after.len() implies !(after[a].folder
            == after[b].folder && after[a].uid == after[b].uid) by {
            if b == rows.len() {
                assert(!same_key(rows[a], m.folder, m.uid));
            }
        }
        assert forall|a: int| 0 <= a < after.len() implies !(#[trigger] after[a].body_fetched) || after[a].body is Some by {
            if a < rows.len() {
                assert(rows[a].body_fetched ==> rows[a].body is Some);
            }
        }
    }
}

/// Writes a batch of headers. A header whose message has a row brings that
/// row's subject, sender, date, flags and snippet up to date and leaves the
/// rest of it, the fetched body above all, as it was; any other header gets a
/// fresh row.
pub fn insert_or_update_messages(store: &mut Store, messages: &Vec<MessageHeader>)
    ensures
        final(store)@.rows == upserted_all(
            old(store)@.rows,
            crate::message::messages_view(messages@),
        ),
        final(store)@.validity == old(store)@.validity,
        rows_valid(final(store)@.rows),
{
    proof {
        use_type_invariant(&*store);
    }
    let ghost before = store@.rows;
    let ghost batch = crate::message::messages_view(messages@);
    let mut rows: Vec<StoredMessage> = Vec::new();
    std::mem::swap(&mut rows, &mut store.rows);
    let mut i: usize = 0;
    assert(batch.take(0) =~= Seq::<MessageHeaderView>::empty());
    while i < messages.len()
        invariant
            i <= messages@.len(),
            batch == crate::message::messages_view(messages@),
            rows_view(rows@) == upserted_all(before, batch.take(i as int)),
            rows_valid(rows_view(rows@)),
        decreases messages@.len() - i,
    {
        upsert(&mut rows, &messages[i]);
        i += 1;
        assert(batch.take(i as int).drop_last() =~= batch.take(i - 1));
    }
    assert(batch.take(messages@.len() as int) =~= batch);
    store.rows = rows;
}

fn header_of_stored(r: &StoredMessage) -> (h: MessageHeader)
    ensures
        h@ == header_of_row(row_view(*r)),
{
    MessageHeader {
        folder: r.folder.clone(),
        uid: r.uid,
        uid_validity: r.uid_validity,
        subject: r.subject.clone(),
        from: r.sender.clone(),
        date: r.date,
        seen: r.seen,
        flagged: r.flagged,
        has_attachments: r.has_attachments,
        thread_id: clone_text(&r.thread_id),
        snippet: Some(r.snippet.clone()),
    }
}

proof fn lemma_top_step(
    rows: Seq<RowView>,
    folder: Seq<char>,
    unfetched_above: Option<int>,
    below: Option<u32>,
    i: int,
)
    requires
        0 <= i < rows.len(),
    ensures
        top_index(rows.take(i + 1), folder, unfetched_above, below) == {
            let rest = top_index(rows.take(i), folder, unfetched_above, below);
            if wanted(rows[i], folder, unfetched_above, below) && (rest matches Some(j)
                ==> rows[j].uid < rows[i].uid) {
                Some(i)
            } else {
                rest
            }
        },
        top_index(rows.take(i), folder, unfetched_above, below) matches Some(j) ==> 0 <= j < i,
    decreases i,
{
    assert(rows.take(i + 1).drop_last() =~= rows.take(i));
    if i > 0 {
        lemma_top_step(rows, folder, unfetched_above, below, i - 1);
    } else {
        assert(rows.take(0) =~= Seq::<RowView>::empty());
    }
    match top_index(rows.take(i), folder, unfetched_above, below) {
        Some(j) => {
            assert(rows.take(i + 1)[j] == rows[j]);
        },
        None => {},
    }
}

/// The place that `top_index` names holds a wanted row.
pub proof fn lemma_top_index_wanted(
    rows: Seq<RowView>,
    folder: Seq<char>,
    unfetched_above: Option<int>,
    below: Option<u32>,
)
    ensures
        top_index(rows, folder, unfetched_above, below) matches Some(j) ==> 0 <= j < rows.len()
            && wanted(rows[j], folder, unfetched_above, below),
    decreases rows.len(),
{
    if rows.len() > 0 {
        lemma_top_index_wanted(rows.drop_last(), folder, unfetched_above, below);
    }
}

fn select_top(
    rows: &Vec<StoredMessage>,
    folder: &String,
    unfetched_above: Option<i64>,
    below: Option<u32>,
) -> (r: Option<usize>)
    ensures
        match r {
            Some(i) => top_index(
                rows_view(rows@),
                folder@,
                floor_view(unfetched_above),
                below,
            ) == Some(i as int) && i < rows@.len(),
            None => top_index(rows_view(rows@), folder@, floor_view(unfetched_above), below)
                is None,
        },
{
    let ghost all = rows_view(rows@);
    let ghost floor = floor_view(unfetched_above);
    let mut best: Option<usize> = None;
    let mut i: usize = 0;
    assert(all.take(0) =~= Seq::<RowView>::empty());
    while i < rows.len()
        invariant
            i <= rows@.len(),
            all == rows_view(rows@),
            floor == floor_view(unfetched_above),
            match best {
                Some(b) => top_index(all.take(i as int), folder@, floor, below) == Some(b as int)
                    && b < i,
                None => top_index(all.take(i as int), folder@, floor, below) is None,
            },
        decreases rows@.len() - i,
    {
        proof {
            lemma_top_step(all, folder@, floor, below, i as int);
        }
        let row = &rows[i];
        let below_ok = match below {
            Some(b) => row.uid < b,
            None => true,
        };
        let unfetched_ok = match unfetched_above {
            Some(a) => !row.body_fetched && (row.uid as i64) > a,
            None => true,
        };
        let beats = match best {
            Some(b) => rows[b].uid < row.uid,
            None => true,
        };
        if below_ok && unfetched_ok && beats && row.folder == *folder {
            best = Some(i);
        }
        i += 1;
    }
    assert(all.take(all.len() as int) =~= all);
    best
}

/// The bound of a query as a number.
pub open spec fn floor_view(floor: Option<i64>) -> Option<int> {
    match floor {
        Some(a) => Some(a as int),
        None => None,
    }
}

fn select_page(
    rows: &Vec<StoredMessage>,
    folder: &String,
    unfetched_above: Option<i64>,
    before: Option<u32>,
    limit: u32,
) -> (r: Vec<usize>)
    ensures
        r@.len() <= limit,
        forall|k: int| 0 <= k < r@.len() ==> r@[k] < rows@.len(),
        Seq::new(r@.len(), |k: int| r@[k] as int) == top_indices(
            rows_view(rows@),
            folder@,
            floor_view(unfetched_above),
            before,
            limit as nat,
        ),
{
    let ghost all = rows_view(rows@);
    let ghost floor = floor_view(unfetched_above);
    let ghost goal = top_indices(all, folder@, floor, before, limit as nat);
    let mut out: Vec<usize> = Vec::new();
    let mut bound = before;
    let mut left: u32 = limit;
    let mut done = false;
    while left > 0 && !done
        invariant
            all == rows_view(rows@),
            floor == floor_view(unfetched_above),
            out@.len() + left <= limit,
            forall|k: int| 0 <= k < out@.len() ==> out@[k] < rows@.len(),
            Seq::new(out@.len(), |k: int| out@[k] as int) + (if done {
                Seq::<int>::empty()
            } else {
                top_indices(all, folder@, floor, bound, left as nat)
            }) == goal,
        decreases left, (if done { 0int } else { 1int }),
    {
        let ghost so_far = Seq::new(out@.len(), |k: int| out@[k] as int);
        match select_top(rows, folder, unfetched_above, bound) {
            Some(i) => {
                out.push(i);
                bound = Some(rows[i].uid);
                left -= 1;
                assert(Seq::new(out@.len(), |k: int| out@[k] as int) =~= so_far + seq![i as int]);
                assert((so_far + seq![i as int]) + top_indices(
                    all,
                    folder@,
                    floor,
                    bound,
                    left as nat,
                ) =~= so_far + (seq![i as int] + top_indices(
                    all,
                    folder@,
                    floor,
                    bound,
                    left as nat,
                )));
            },
            None => {
                done = true;
            },
        }
    }
    assert(Seq::new(out@.len(), |k: int| out@[k] as int) + Seq::<int>::empty() =~= Seq::new(
        out@.len(),
        |k: int| out@[k] as int,
    ));
    out
}

/// A page of the message list of `folder`: up to `limit` headers from the
/// highest UID down, all of them below `before_uid` where that is given.
pub fn load_messages_page(store: &Store, folder: &str, before_uid: Option<u32>, limit: u32) -> (r:
    Vec<MessageHeader>)
    ensures
        crate::message::messages_view(r@) == page_of(
            store@.rows,
            folder@,
            before_uid,
            limit as nat,
        ),
{
    let name = String::from_str(folder);
    let places = select_page(&store.rows, &name, None, before_uid, limit);
    let ghost all = rows_view(store.rows@);
    let ghost goal = page_of(all, folder@, before_uid, limit as nat);
    let mut out: Vec<MessageHeader> = Vec::new();
    let mut k: usize = 0;
    while k < places.len()
        invariant
            k <= places@.len(),
            all == rows_view(store.rows@),
            forall|j: int| 0 <= j < places@.len() ==> places@[j] < store.rows@.len(),
            goal.len() == places@.len(),
            forall|j: int| 0 <= j < places@.len() ==> goal[j] == header_of_row(all[places@[j] as int]),
            out@.len() == k,
            forall|j: int| 0 <= j < k ==> out@[j]@ == goal[j],
        decreases places@.len() - k,
    {
        out.push(header_of_stored(&store.rows[places[k]]));
        k += 1;
    }
    assert(crate::message::messages_view(out@) =~= goal);
    out
}

/// The newest `limit` headers of the inbox.
pub fn load_cached_messages(store: &Store, limit: u32) -> (r: Vec<MessageHeader>)
    ensures
        crate::message::messages_view(r@) == page_of(store@.rows, INBOX@, None, limit as nat),
{
    load_messages_page(store, INBOX, None, limit)
}

/// The UIDs of the messages of `folder` whose bodies are worth fetching
/// ahead of need: those without a fetched body that lie less than
/// `PREFETCH_WINDOW` below the highest UID of the folder, newest first, up to
/// `limit` of them.
pub fn get_unfetched_recent_uids(store: &Store, folder: &str, limit: u32) -> (r: Vec<u32>)
    ensures
        r@ == unfetched_recent(store@.rows, folder@, limit as nat),
{
    let name = String::from_str(folder);
    let highest = get_highest_uid(store, folder);
    let floor: i64 = highest as i64 - PREFETCH_WINDOW as i64;
    let places = select_page(&store.rows, &name, Some(floor), None, limit);
    let ghost all = rows_view(store.rows@);
    let ghost goal = unfetched_recent(all, folder@, limit as nat);
    let mut out: Vec<u32> = Vec::new();
    let mut k: usize = 0;
    while k < places.len()
        invariant
            k <= places@.len(),
            all == rows_view(store.rows@),
            forall|j: int| 0 <= j < places@.len() ==> places@[j] < store.rows@.len(),
            goal.len() == places@.len(),
            forall|j: int| 0 <= j < places@.len() ==> goal[j] == all[places@[j] as int].uid,
            out@.len() == k,
            forall|j: int| 0 <= j < k ==> out@[j] == goal[j],
        decreases places@.len() - k,
    {
        out.push(store.rows[places[k]].uid);
        k += 1;
    }
    assert(out@ =~= goal);
    out
}

/// The fetched body of `uid` in `folder`; none where the message has no row
/// or its body was not fetched yet.
pub fn get_message_body_cache(store: &Store, folder: &str, uid: u32) -> (r: Option<String>)
    ensures
        opt_text(r) == match find_row(store@.rows, folder@, uid) {
            Some(row) => if row.body_fetched {
                row.body
            } else {
                None
            },
            None => None,
        },
{
    proof {
        use_type_invariant(store);
    }
    let name = String::from_str(folder);
    match find_index(&store.rows, &name, uid) {
        Some(i) => {
            proof {
                lemma_row_index(store@.rows, folder@, uid, i as int);
            }
            if store.rows[i].body_fetched {
                clone_text(&store.rows[i].body)
            } else {
                None
            }
        },
        None => None,
    }
}

/// Whether the message `uid` of `folder` is marked as seen; false where it
/// has no row.
pub fn is_message_seen(store: &Store, folder: &str, uid: u32) -> (r: bool)
    ensures
        r == match find_row(store@.rows, folder@, uid) {
            Some(row) => row.seen,
            None => false,
        },
{
    proof {
        use_type_invariant(store);
    }
    let name = String::from_str(folder);
    match find_index(&store.rows, &name, uid) {
        Some(i) => {
            proof {
                lemma_row_index(store@.rows, folder@, uid, i as int);
            }
            store.rows[i].seen
        },
        None => false,
    }
}

/// Changing a row's seen flag, flagged flag or body keeps the table valid.
pub proof fn lemma_changed_valid(
    rows: Seq<RowView>,
    folder: Seq<char>,
    uid: u32,
    change: spec_fn(RowView) -> RowView,
)
    requires
        rows_valid(rows),
        forall|r: RowView|
            {
                let c = #[trigger] change(r);
                c.folder == r.folder && c.uid == r.uid && ((r.body_fetched ==> r.body is Some)
                    ==> (c.body_fetched ==> c.body is Some))
            },
    ensures
        rows_valid(with_row_changed(rows, folder, uid, change)),
{
    let after = with_row_changed(rows, folder, uid, change);
    if has_row(rows, folder, uid) {
        let i = row_index(rows, folder, uid);
        assert forall|a: int, b: int| 0 <= a < b < after.len() implies !(after[a].folder
            == after[b].folder && after[a].uid == after[b].uid) by {
            assert(after[a].folder == rows[a].folder && after[a].uid == rows[a].uid) by {
                if a == i {
                    assert(after[a] == change(rows[a]));
                }
            }
            assert(after[b].folder == rows[b].folder && after[b].uid == rows[b].uid) by {
                if b == i {
                    assert(after[b] == change(rows[b]));
                }
            }
        }
        assert forall|a: int| 0 <= a < after.len() implies !(#[trigger] after[a].body_fetched) || after[a].body is Some by {
            if a == i {
                assert(after[a] == change(rows[a]));
            } else {
                assert(rows[a].body_fetched ==> rows[a].body is Some);
            }
        }
    }
}

/// Sets the seen flag of the message `uid` of `folder`, where it has a row.
pub fn set_message_seen(store: &mut Store, folder: &str, uid: u32, seen: bool)
    ensures
        final(store)@.rows == with_row_changed(
            old(store)@.rows,
            folder@,
            uid,
            |r: RowView| row_with_seen(r, seen),
        ),
        final(store)@.validity == old(store)@.validity,
        rows_valid(final(store)@.rows),
{
    proof {
        use_type_invariant(&*store);
    }
    let ghost before = store@.rows;
    let name = String::from_str(folder);
    let mut rows: Vec<StoredMessage> = Vec::new();
    std::mem::swap(&mut rows, &mut store.rows);
    match find_index(&rows, &name, uid) {
        Some(i) => {
            proof {
                lemma_row_index(before, folder@, uid, i as int);
            }
            let mut row = rows.remove(i);
            row.seen = seen;
            rows.insert(i, row);
        },
        None => {},
    }
    proof {
        lemma_changed_valid(before, folder@, uid, |r: RowView| row_with_seen(r, seen));
        assert(rows_view(rows@) =~= with_row_changed(
            before,
            folder@,
            uid,
            |r: RowView| row_with_seen(r, seen),
        ));
    }
    store.rows = rows;
}

/// Sets the flagged flag of the message `uid` of `folder`, where it has a
/// row.
pub fn set_message_flagged(store: &mut Store, folder: &str, uid: u32, flagged: bool)
    ensures
        final(store)@.rows == with_row_changed(
            old(store)@.rows,
            folder@,
            uid,
            |r: RowView| row_with_flagged(r, flagged),
        ),
        final(store)@.validity == old(store)@.validity,
        rows_valid(final(store)@.rows),
{
    proof {
        use_type_invariant(&*store);
    }
    let ghost before = store@.rows;
    let name = String::from_str(folder);
    let mut rows: Vec<StoredMessage> = Vec::new();
    std::mem::swap(&mut rows, &mut store.rows);
    match find_index(&rows, &name, uid) {
        Some(i) => {
            proof {
                lemma_row_index(before, folder@, uid, i as int);
            }
            let mut row = rows.remove(i);
            row.flagged = flagged;
            rows.insert(i, row);
        },
        None => {},
    }
    proof {
        lemma_changed_valid(before, folder@, uid, |r: RowView| row_with_flagged(r, flagged));
        assert(rows_view(rows@) =~= with_row_changed(
            before,
            folder@,
            uid,
            |r: RowView| row_with_flagged(r, flagged),
        ));
    }
    store.rows = rows;
}

/// Stores `body` as the fetched body of the message `uid` of `folder`,
/// together with the snippet made of it, where the message has a row.
pub fn update_message_body(store: &mut Store, folder: &str, uid: u32, body: &str, snippet: &str)
    ensures
        final(store)@.rows == with_row_changed(
            old(store)@.rows,
            folder@,
            uid,
            |r: RowView| row_with_body(r, body@, snippet@),
        ),
        final(store)@.validity == old(store)@.validity,
        rows_valid(final(store)@.rows),
{
    proof {
        use_type_invariant(&*store);
    }
    let ghost before = store@.rows;
    let name = String::from_str(folder);
    let mut rows: Vec<StoredMessage> = Vec::new();
    std::mem::swap(&mut rows, &mut store.rows);
    match find_index(&rows, &name, uid) {
        Some(i) => {
            proof {
                lemma_row_index(before, folder@, uid, i as int);
            }
            let mut row = rows.remove(i);
            row.body = Some(String::from_str(body));
            row.snippet = String::from_str(snippet);
            row.body_fetched = true;
            rows.insert(i, row);
        },
        None => {},
    }
    proof {
        lemma_changed_valid(before, folder@, uid, |r: RowView| row_with_body(r, body@, snippet@));
        assert(rows_view(rows@) =~= with_row_changed(
            before,
            folder@,
            uid,
            |r: RowView| row_with_body(r, body@, snippet@),
        ));
    }
    store.rows = rows;
}

/// Removing a row keeps the table valid.
pub proof fn lemma_without_row_valid(rows: Seq<RowView>, folder: Seq<char>, uid: u32)
    requires
        rows_valid(rows),
    ensures
        rows_valid(without_row(rows, folder, uid)),
        !has_row(without_row(rows, folder, uid), folder, uid),
{
    let after = without_row(rows, folder, uid);
    if has_row(rows, folder, uid) {
        let i = row_index(rows, folder, uid);
        assert forall|a: int, b: int| 0 <= a < b < after.len() implies !(after[a].folder
            == after[b].folder && after[a].uid == after[b].uid) by {
            let a0 = if a < i { a } else { a + 1 };
            let b0 = if b < i { b } else { b + 1 };
            assert(after[a] == rows[a0] && after[b] == rows[b0]);
        }
        assert forall|a: int| 0 <= a < after.len() implies !(#[trigger] after[a].body_fetched) || after[a].body is Some by {
            let a0 = if a < i { a } else { a + 1 };
            assert(after[a] == rows[a0]);
            assert(rows[a0].body_fetched ==> rows[a0].body is Some);
        }
        assert forall|a: int| 0 <= a < after.len() implies !same_key(
            #[trigger] after[a],
            folder,
            uid,
        ) by {
            let a0 = if a < i { a } else { a + 1 };
            assert(after[a] == rows[a0]);
            if a0 < i {
                assert(!(rows[a0].folder == rows[i].folder && rows[a0].uid == rows[i].uid));
            } else {
                assert(!(rows[i].folder == rows[a0].folder && rows[i].uid == rows[a0].uid));
            }
        }
    }
}

/// Removes the row of the message `uid` of `folder`, where it has one.
pub fn delete_message_local(store: &mut Store, folder: &str, uid: u32)
    ensures
        final(store)@.rows == without_row(old(store)@.rows, folder@, uid),
        final(store)@.validity == old(store)@.validity,
        rows_valid(final(store)@.rows),
{
    proof {
        use_type_invariant(&*store);
    }
    let ghost before = store@.rows;
    let name = String::from_str(folder);
    let mut rows: Vec<StoredMessage> = Vec::new();
    std::mem::swap(&mut rows, &mut store.rows);
    match find_index(&rows, &name, uid) {
        Some(i) => {
            proof {
                lemma_row_index(before, folder@, uid, i as int);
            }
            let _ = rows.remove(i);
        },
        None => {},
    }
    proof {
        lemma_without_row_valid(before, folder@, uid);
        assert(rows_view(rows@) =~= without_row(before, folder@, uid));
    }
    store.rows = rows;
}

/// Every row that is left after a folder was cleared stood in the table
/// before, the rows in their order, and none of them is of that folder.
pub proof fn lemma_without_folder(rows: Seq<RowView>, folder: Seq<char>)
    requires
        rows_valid(rows),
    ensures
        rows_valid(without_folder(rows, folder)),
        forall|k: int|
            0 <= k < without_folder(rows, folder).len() ==> (#[trigger] without_folder(
                rows,
                folder,
            )[k]).folder != folder && rows.contains(without_folder(rows, folder)[k]),
        highest_uid(without_folder(rows, folder), folder) == 0,
    decreases rows.len(),
{
    if rows.len() > 0 {
        let rest = rows.drop_last();
        assert(rows_valid(rest)) by {
            assert forall|a: int| 0 <= a < rest.len() implies !(#[trigger] rest[a].body_fetched) || rest[a].body is Some by {
                assert(rows[a].body_fetched ==> rows[a].body is Some);
            }
        }
        lemma_without_folder(rest, folder);
        let kept = without_folder(rest, folder);
        let after = without_folder(rows, folder);
        assert forall|k: int| 0 <= k < after.len() implies (#[trigger] after[k]).folder != folder
            && rows.contains(after[k]) by {
            if k < kept.len() {
                assert(rest.contains(kept[k]));
                let w = choose|w: int| 0 <= w < rest.len() && rest[w] == kept[k];
                assert(rows[w] == after[k]);
            } else {
                assert(rows[rows.len() - 1] == after[k]);
            }
        }
        if rows.last().folder != folder {
            assert forall|a: int, b: int| 0 <= a < b < after.len() implies !(after[a].folder
                == after[b].folder && after[a].uid == after[b].uid) by {
                if b == kept.len() {
                    assert(rest.contains(kept[a]));
                    let w = choose|w: int| 0 <= w < rest.len() && rest[w] == kept[a];
                    assert(!(rows[w].folder == rows[rows.len() - 1].folder && rows[w].uid
                        == rows[rows.len() - 1].uid));
                }
            }
            assert forall|a: int| 0 <= a < after.len() implies !(#[trigger] after[a].body_fetched) || after[a].body is Some by {
                if a < kept.len() {
                    assert(kept[a].body_fetched ==> kept[a].body is Some);
                } else {
                    assert(rows[rows.len() - 1].body_fetched ==> rows[rows.len() - 1].body
                        is Some);
                }
            }
            assert(after.drop_last() =~= kept);
        }
    }
}

/// Removes every row of `folder`.
pub fn clear_messages(store: &mut Store, folder: &str)
    ensures
        final(store)@.rows == without_folder(old(store)@.rows, folder@),
        final(store)@.validity == old(store)@.validity,
        rows_valid(final(store)@.rows),
{
    proof {
        use_type_invariant(&*store);
    }
    let ghost before = store@.rows;
    let name = String::from_str(folder);
    let mut rows: Vec<StoredMessage> = Vec::new();
    std::mem::swap(&mut rows, &mut store.rows);
    let mut kept: Vec<StoredMessage> = Vec::new();
    let ghost mut taken: int = 0;
    assert(before.take(0) =~= Seq::<RowView>::empty());
    assert(rows_view(kept@) =~= Seq::<RowView>::empty());
    while rows.len() > 0
        invariant
            0 <= taken <= before.len(),
            name@ == folder@,
            rows_view(rows@) == before.subrange(taken, before.len() as int),
            rows_view(kept@) == without_folder(before.take(taken), folder@),
        decreases rows@.len(),
    {
        let ghost left = rows_view(rows@);
        let ghost had = rows_view(kept@);
        assert(left.len() == rows@.len());
        assert(taken < before.len());
        let row = rows.remove(0);
        proof {
            assert(row_view(row) == left[0]);
            assert(left[0] == before[taken]);
            assert(before.take(taken + 1).drop_last() =~= before.take(taken));
            assert forall|k: int| 0 <= k < rows@.len() implies rows_view(rows@)[k] == before[taken
                + 1 + k] by {
                assert(rows_view(rows@)[k] == left[k + 1]);
            }
            assert(rows_view(rows@) =~= before.subrange(taken + 1, before.len() as int));
        }
        if row.folder != name {
            kept.push(row);
            assert(rows_view(kept@) =~= had.push(before[taken]));
        }
        proof {
            taken = taken + 1;
        }
    }
    proof {
        assert(before.take(before.len() as int) =~= before);
        lemma_without_folder(before, folder@);
    }
    store.rows = kept;
}


/// The highest UID of a folder rests on the folders and UIDs of the rows
/// alone.
pub proof fn lemma_highest_uid_by_keys(a: Seq<RowView>, b: Seq<RowView>, folder: Seq<char>)
    requires
        a.len() == b.len(),
        forall|i: int| 0 <= i < a.len() ==> a[i].folder == b[i].folder && a[i].uid == b[i].uid,
    ensures
        highest_uid(a, folder) == highest_uid(b, folder),
    decreases a.len(),
{
    if a.len() > 0 {
        lemma_highest_uid_by_keys(a.drop_last(), b.drop_last(), folder);
    }
}

/// Writing a header never lowers the highest UID of any folder.
pub proof fn lemma_highest_uid_upserted(rows: Seq<RowView>, m: MessageHeaderView, folder: Seq<char>)
    ensures
        highest_uid(upserted(rows, m), folder) >= highest_uid(rows, folder),
{
    let after = upserted(rows, m);
    if has_row(rows, m.folder, m.uid) {
        lemma_highest_uid_by_keys(after, rows, folder);
    } else {
        assert(after.drop_last() =~= rows);
    }
}

/// Writing a batch of headers never lowers the highest UID of any folder.
pub proof fn lemma_highest_uid_upserted_all(
    rows: Seq<RowView>,
    batch: Seq<MessageHeaderView>,
    folder: Seq<char>,
)
    ensures
        highest_uid(upserted_all(rows, batch), folder) >= highest_uid(rows, folder),
    decreases batch.len(),
{
    if batch.len() > 0 {
        lemma_highest_uid_upserted_all(rows, batch.drop_last(), folder);
        lemma_highest_uid_upserted(upserted_all(rows, batch.drop_last()), batch.last(), folder);
    }
}

/// A change to a row that keeps its folder and UID leaves the highest UID of
/// every folder as it was: so do the changes of the seen flag, of the
/// flagged flag and of the body.
pub proof fn lemma_highest_uid_changed(
    rows: Seq<RowView>,
    folder: Seq<char>,
    uid: u32,
    change: spec_fn(RowView) -> RowView,
    of_folder: Seq<char>,
)
    requires
        forall|r: RowView|
            {
                let c = #[trigger] change(r);
                c.folder == r.folder && c.uid == r.uid
            },
    ensures
        highest_uid(with_row_changed(rows, folder, uid, change), of_folder) == highest_uid(
            rows,
            of_folder,
        ),
{
    let after = with_row_changed(rows, folder, uid, change);
    if has_row(rows, folder, uid) {
        let i = row_index(rows, folder, uid);
        assert forall|k: int| 0 <= k < after.len() implies after[k].folder == rows[k].folder
            && after[k].uid == rows[k].uid by {
            if k == i {
                assert(after[k] == change(rows[k]));
            }
        }
        lemma_highest_uid_by_keys(after, rows, of_folder);
    }
}

/// Once a message that has a row was marked as seen, it is found to be
/// seen.
pub proof fn lemma_seen_after_set(rows: Seq<RowView>, folder: Seq<char>, uid: u32)
    requires
        rows_valid(rows),
        has_row(rows, folder, uid),
    ensures
        find_row(
            with_row_changed(rows, folder, uid, |r: RowView| row_with_seen(r, true)),
            folder,
            uid,
        ) matches Some(row) && row.seen,
{
    let change = |r: RowView| row_with_seen(r, true);
    let after = with_row_changed(rows, folder, uid, change);
    let i = row_index(rows, folder, uid);
    lemma_changed_valid(rows, folder, uid, change);
    assert(after[i] == change(rows[i]));
    lemma_row_index(after, folder, uid, i);
}

/// Writing a header leaves the body of every message that has a row, and
/// the mark that it was fetched, as they were: of the message written and of
/// every other one.
pub proof fn lemma_upserted_keeps_body(
    rows: Seq<RowView>,
    m: MessageHeaderView,
    folder: Seq<char>,
    uid: u32,
)
    requires
        rows_valid(rows),
        has_row(rows, folder, uid),
    ensures
        find_row(upserted(rows, m), folder, uid) matches Some(row) && find_row(rows, folder, uid)
            matches Some(was) && row.body == was.body && row.body_fetched == was.body_fetched,
{
    let after = upserted(rows, m);
    let j = row_index(rows, folder, uid);
    lemma_upserted_valid(rows, m);
    if has_row(rows, m.folder, m.uid) {
        let i = row_index(rows, m.folder, m.uid);
        assert(after[j].folder == rows[j].folder && after[j].uid == rows[j].uid);
    } else {
        assert(after[j] == rows[j]);
    }
    lemma_row_index(after, folder, uid, j);
}

/// Writing a batch of headers leaves the body of every message that has a
/// row, and the mark that it was fetched, as they were.
pub proof fn lemma_upserted_all_keeps_body(
    rows: Seq<RowView>,
    batch: Seq<MessageHeaderView>,
    folder: Seq<char>,
    uid: u32,
)
    requires
        rows_valid(rows),
        has_row(rows, folder, uid),
    ensures
        rows_valid(upserted_all(rows, batch)),
        find_row(upserted_all(rows, batch), folder, uid) matches Some(row) && find_row(
            rows,
            folder,
            uid,
        ) matches Some(was) && row.body == was.body && row.body_fetched == was.body_fetched,
    decreases batch.len(),
{
    if batch.len() > 0 {
        let mid = upserted_all(rows, batch.drop_last());
        lemma_upserted_all_keeps_body(rows, batch.drop_last(), folder, uid);
        lemma_upserted_keeps_body(mid, batch.last(), folder, uid);
        lemma_upserted_valid(mid, batch.last());
    }
}

/// Once a folder was cleared it holds no message: its highest UID is zero,
/// and no UID has a row in it.
pub proof fn lemma_cleared_folder_is_empty(rows: Seq<RowView>, folder: Seq<char>, uid: u32)
    requires
        rows_valid(rows),
    ensures
        highest_uid(without_folder(rows, folder), folder) == 0,
        !has_row(without_folder(rows, folder), folder, uid),
{
    lemma_without_folder(rows, folder);
}


/// The row that `top_index` names has the highest UID of all wanted rows,
/// and where it names none, no row is wanted.
pub proof fn lemma_top_index_highest(
    rows: Seq<RowView>,
    folder: Seq<char>,
    unfetched_above: Option<int>,
    below: Option<u32>,
    k: int,
)
    requires
        0 <= k < rows.len(),
        wanted(rows[k], folder, unfetched_above, below),
    ensures
        top_index(rows, folder, unfetched_above, below) matches Some(j) && 0 <= j < rows.len()
            && rows[k].uid <= rows[j].uid,
    decreases rows.len(),
{
    lemma_top_index_wanted(rows, folder, unfetched_above, below);
    let rest = rows.drop_last();
    lemma_top_index_wanted(rest, folder, unfetched_above, below);
    if k < rows.len() - 1 {
        lemma_top_index_highest(rest, folder, unfetched_above, below, k);
    }
}

/// The places that `top_indices` names are no more than `limit`; each holds
/// a wanted row; and the UIDs of their rows fall strictly from each to the
/// next.
pub proof fn lemma_top_indices_descend(
    rows: Seq<RowView>,
    folder: Seq<char>,
    unfetched_above: Option<int>,
    below: Option<u32>,
    limit: nat,
)
    ensures
        top_indices(rows, folder, unfetched_above, below, limit).len() <= limit,
        forall|k: int|
            0 <= k < top_indices(rows, folder, unfetched_above, below, limit).len() ==> {
                let i = #[trigger] top_indices(rows, folder, unfetched_above, below, limit)[k];
                0 <= i < rows.len() && wanted(rows[i], folder, unfetched_above, below)
            },
        forall|k: int, l: int|
            0 <= k < l < top_indices(rows, folder, unfetched_above, below, limit).len()
                ==> rows[top_indices(rows, folder, unfetched_above, below, limit)[k]].uid
                > rows[top_indices(rows, folder, unfetched_above, below, limit)[l]].uid,
    decreases limit,
{
    let all = top_indices(rows, folder, unfetched_above, below, limit);
    if limit > 0 {
        lemma_top_index_wanted(rows, folder, unfetched_above, below);
        match top_index(rows, folder, unfetched_above, below) {
            Some(i) => {
                let next = Some(rows[i].uid);
                let tail = top_indices(rows, folder, unfetched_above, next, (limit - 1) as nat);
                lemma_top_indices_descend(rows, folder, unfetched_above, next, (limit - 1) as nat);
                assert(all =~= seq![i] + tail);
                assert forall|k: int| 0 <= k < all.len() implies {
                    let p = #[trigger] all[k];
                    0 <= p < rows.len() && wanted(rows[p], folder, unfetched_above, below)
                } by {
                    if k > 0 {
                        assert(all[k] == tail[k - 1]);
                        let p = tail[k - 1];
                        assert(wanted(rows[p], folder, unfetched_above, next));
                    }
                }
                assert forall|k: int, l: int| 0 <= k < l < all.len() implies rows[all[k]].uid
                    > rows[all[l]].uid by {
                    assert(all[l] == tail[l - 1]);
                    let q = tail[l - 1];
                    assert(wanted(rows[q], folder, unfetched_above, next));
                    if k > 0 {
                        assert(all[k] == tail[k - 1]);
                    }
                }
            },
            None => {},
        }
    }
}

/// A page of the message list is no longer than asked for, holds messages of
/// the folder below the bound only, and is ordered from the highest UID
/// down.
pub proof fn lemma_page_descends(
    rows: Seq<RowView>,
    folder: Seq<char>,
    before: Option<u32>,
    limit: nat,
)
    ensures
        page_of(rows, folder, before, limit).len() <= limit,
        forall|k: int|
            0 <= k < page_of(rows, folder, before, limit).len() ==> {
                let h = #[trigger] page_of(rows, folder, before, limit)[k];
                h.folder == folder && (before matches Some(b) ==> h.uid < b)
            },
        forall|k: int, l: int|
            0 <= k < l < page_of(rows, folder, before, limit).len() ==> page_of(
                rows,
                folder,
                before,
                limit,
            )[k].uid > page_of(rows, folder, before, limit)[l].uid,
{
    lemma_top_indices_descend(rows, folder, None, before, limit);
    let places = top_indices(rows, folder, None, before, limit);
    assert forall|k: int| 0 <= k < page_of(rows, folder, before, limit).len() implies {
        let h = #[trigger] page_of(rows, folder, before, limit)[k];
        h.folder == folder && (before matches Some(b) ==> h.uid < b)
    } by {
        let i = places[k];
        assert(wanted(rows[i], folder, None, before));
    }
}


/// The number of rows that a query asks for.
pub open spec fn wanted_count(
    rows: Seq<RowView>,
    folder: Seq<char>,
    unfetched_above: Option<int>,
    below: Option<u32>,
) -> nat
    decreases rows.len(),
{
    if rows.len() == 0 {
        0
    } else {
        let rest = wanted_count(rows.drop_last(), folder, unfetched_above, below);
        if wanted(rows.last(), folder, unfetched_above, below) {
            rest + 1
        } else {
            rest
        }
    }
}

/// The number `n`, or `limit` where that is less.
pub open spec fn at_most(limit: nat, n: nat) -> nat {
    if n < limit {
        n
    } else {
        limit
    }
}

proof fn lemma_no_row_wanted(
    rows: Seq<RowView>,
    folder: Seq<char>,
    unfetched_above: Option<int>,
    below: Option<u32>,
)
    requires
        forall|k: int| 0 <= k < rows.len() ==> !wanted(rows[k], folder, unfetched_above, below),
    ensures
        wanted_count(rows, folder, unfetched_above, below) == 0,
    decreases rows.len(),
{
    if rows.len() > 0 {
        lemma_no_row_wanted(rows.drop_last(), folder, unfetched_above, below);
    }
}

/// Lowering the bound to the UID of the top row takes that row, and no
/// other, out of what is wanted.
proof fn lemma_count_below_top(
    rows: Seq<RowView>,
    folder: Seq<char>,
    unfetched_above: Option<int>,
    below: Option<u32>,
    i: int,
    n: int,
)
    requires
        0 <= i < rows.len(),
        0 <= n <= rows.len(),
        wanted(rows[i], folder, unfetched_above, below),
        forall|k: int|
            0 <= k < rows.len() && k != i && wanted(rows[k], folder, unfetched_above, below)
                ==> rows[k].uid < rows[i].uid,
    ensures
        wanted_count(rows.take(n), folder, unfetched_above, Some(rows[i].uid)) + (if i < n {
            1nat
        } else {
            0nat
        }) == wanted_count(rows.take(n), folder, unfetched_above, below),
    decreases n,
{
    if n > 0 {
        lemma_count_below_top(rows, folder, unfetched_above, below, i, n - 1);
        assert(rows.take(n).drop_last() =~= rows.take(n - 1));
        assert(rows.take(n).last() == rows[n - 1]);
    } else {
        assert(rows.take(0) =~= Seq::<RowView>::empty());
    }
}

proof fn lemma_top_is_strict(
    rows: Seq<RowView>,
    folder: Seq<char>,
    unfetched_above: Option<int>,
    below: Option<u32>,
    i: int,
)
    requires
        keys_distinct(rows),
        top_index(rows, folder, unfetched_above, below) == Some(i),
    ensures
        0 <= i < rows.len(),
        wanted(rows[i], folder, unfetched_above, below),
        forall|k: int|
            0 <= k < rows.len() && k != i && wanted(rows[k], folder, unfetched_above, below)
                ==> rows[k].uid < rows[i].uid,
{
    lemma_top_index_wanted(rows, folder, unfetched_above, below);
    assert forall|k: int|
        0 <= k < rows.len() && k != i && wanted(
            rows[k],
            folder,
            unfetched_above,
            below,
        ) implies rows[k].uid < rows[i].uid by {
        lemma_top_index_highest(rows, folder, unfetched_above, below, k);
        if k < i {
            assert(!(rows[k].folder == rows[i].folder && rows[k].uid == rows[i].uid));
        } else {
            assert(!(rows[i].folder == rows[k].folder && rows[i].uid == rows[k].uid));
        }
    }
}

/// In a table without repeated keys, `top_indices` names as many rows as
/// are wanted, up to `limit`.
pub proof fn lemma_top_indices_len(
    rows: Seq<RowView>,
    folder: Seq<char>,
    unfetched_above: Option<int>,
    below: Option<u32>,
    limit: nat,
)
    requires
        keys_distinct(rows),
    ensures
        top_indices(rows, folder, unfetched_above, below, limit).len() == at_most(
            limit,
            wanted_count(rows, folder, unfetched_above, below),
        ),
    decreases limit,
{
    if limit > 0 {
        match top_index(rows, folder, unfetched_above, below) {
            Some(i) => {
                lemma_top_is_strict(rows, folder, unfetched_above, below, i);
                lemma_count_below_top(
                    rows,
                    folder,
                    unfetched_above,
                    below,
                    i,
                    rows.len() as int,
                );
                assert(rows.take(rows.len() as int) =~= rows);
                lemma_top_indices_len(
                    rows,
                    folder,
                    unfetched_above,
                    Some(rows[i].uid),
                    (limit - 1) as nat,
                );
            },
            None => {
                assert forall|k: int| 0 <= k < rows.len() implies !wanted(
                    rows[k],
                    folder,
                    unfetched_above,
                    below,
                ) by {
                    if wanted(rows[k], folder, unfetched_above, below) {
                        lemma_top_index_highest(rows, folder, unfetched_above, below, k);
                    }
                }
                lemma_no_row_wanted(rows, folder, unfetched_above, below);
            },
        }
    }
}

/// In a table without repeated keys, `top_indices` leaves out no wanted row
/// whose UID is as high as that of the last row it names; and where it
/// names fewer rows than `limit`, it leaves out no wanted row at all.
pub proof fn lemma_top_indices_complete(
    rows: Seq<RowView>,
    folder: Seq<char>,
    unfetched_above: Option<int>,
    below: Option<u32>,
    limit: nat,
    k: int,
)
    requires
        keys_distinct(rows),
        0 <= k < rows.len(),
        wanted(rows[k], folder, unfetched_above, below),
    ensures
        ({
            let places = top_indices(rows, folder, unfetched_above, below, limit);
            &&& places.len() < limit ==> places.contains(k)
            &&& places.len() > 0 && rows[k].uid >= rows[places.last()].uid ==> places.contains(k)
        }),
    decreases limit,
{
    let places = top_indices(rows, folder, unfetched_above, below, limit);
    if limit > 0 {
        lemma_top_index_highest(rows, folder, unfetched_above, below, k);
        let i = top_index(rows, folder, unfetched_above, below)->0;
        lemma_top_is_strict(rows, folder, unfetched_above, below, i);
        let next = Some(rows[i].uid);
        let tail = top_indices(rows, folder, unfetched_above, next, (limit - 1) as nat);
        assert(places =~= seq![i] + tail);
        assert(places[0] == i);
        if k != i {
            assert(wanted(rows[k], folder, unfetched_above, next));
            lemma_top_indices_complete(rows, folder, unfetched_above, next, (limit - 1) as nat, k);
            lemma_top_indices_descend(rows, folder, unfetched_above, next, (limit - 1) as nat);
            if tail.contains(k) {
                let w = choose|w: int| 0 <= w < tail.len() && tail[w] == k;
                assert(places[w + 1] == k);
            }
            if tail.len() > 0 {
                assert(places.last() == tail.last());
            }
        }
    }
}

/// In a table without repeated keys, a page of the message list has as many
/// messages as the folder holds below the bound, up to `limit`.
pub proof fn lemma_page_len(rows: Seq<RowView>, folder: Seq<char>, before: Option<u32>, limit: nat)
    requires
        keys_distinct(rows),
    ensures
        page_of(rows, folder, before, limit).len() == at_most(
            limit,
            wanted_count(rows, folder, None, before),
        ),
{
    lemma_top_indices_len(rows, folder, None, before, limit);
}

/// In a table without repeated keys, a page of the message list leaves out
/// no message of the folder below the bound whose UID is as high as that of
/// the last message on the page; and a page shorter than `limit` leaves out
/// no message of the folder below the bound at all.
pub proof fn lemma_page_complete(
    rows: Seq<RowView>,
    folder: Seq<char>,
    before: Option<u32>,
    limit: nat,
    k: int,
)
    requires
        keys_distinct(rows),
        0 <= k < rows.len(),
        rows[k].folder == folder,
        before matches Some(b) ==> rows[k].uid < b,
    ensures
        ({
            let page = page_of(rows, folder, before, limit);
            &&& page.len() < limit ==> page.contains(header_of_row(rows[k]))
            &&& page.len() > 0 && rows[k].uid >= page.last().uid ==> page.contains(
                header_of_row(rows[k]),
            )
        }),
{
    let places = top_indices(rows, folder, None, before, limit);
    let page = page_of(rows, folder, before, limit);
    lemma_top_indices_complete(rows, folder, None, before, limit, k);
    if places.contains(k) {
        let w = choose|w: int| 0 <= w < places.len() && places[w] == k;
        assert(page[w] == header_of_row(rows[k]));
    }
}

} // verus!
