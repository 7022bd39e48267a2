//! Message headers: the record kept of each message, how one is read from
//! the header block that the server returns, and how the most recent
//! messages of a mailbox are chosen and ordered.

use crate::mime::{clone_text, opt_text, MimeHeader, MimePart, MimePartView};
use crate::outside::{mime_parts_of, parse_mime_parts, parse_rfc2822, rfc2822_seconds};
use crate::text::{
    chars_of, decimal, lowered, prefix_of, push_decimal, replace_all, replaced, same_chars,
    string_of, take_chars, to_lowered,
};
use vstd::prelude::*;

verus! {

broadcast use vstd::seq_lib::group_to_multiset_ensures;

/// The mailbox that is mirrored.
pub const INBOX: &'static str = "INBOX";

/// The longest snippet taken from a header block, in characters.
pub const SNIPPET_CHARS: usize = 180;

/// How many of the newest messages a listing of the inbox covers.
pub const LISTING_SIZE: usize = 25;

/// What is kept of a message for the message list.
#[derive(Debug)]
pub struct MessageHeader {
    pub folder: String,
    pub uid: u32,
    pub uid_validity: u32,
    pub subject: String,
    pub from: String,
    /// Seconds since the Unix epoch; zero where the date could not be read.
    pub date: i64,
    pub seen: bool,
    pub flagged: bool,
    pub has_attachments: bool,
    pub thread_id: Option<String>,
    pub snippet: Option<String>,
}

/// The mathematical content of a `MessageHeader`.
pub struct MessageHeaderView {
    pub folder: Seq<char>,
    pub uid: u32,
    pub uid_validity: u32,
    pub subject: Seq<char>,
    pub from: Seq<char>,
    pub date: i64,
    pub seen: bool,
    pub flagged: bool,
    pub has_attachments: bool,
    pub thread_id: Option<Seq<char>>,
    pub snippet: Option<Seq<char>>,
}

impl View for MessageHeader {
    type V = MessageHeaderView;

    open spec fn view(&self) -> MessageHeaderView {
        MessageHeaderView {
            folder: self.folder@,
            uid: self.uid,
            uid_validity: self.uid_validity,
            subject: self.subject@,
            from: self.from@,
            date: self.date,
            seen: self.seen,
            flagged: self.flagged,
            has_attachments: self.has_attachments,
            thread_id: opt_text(self.thread_id),
            snippet: opt_text(self.snippet),
        }
    }
}

/// The views of a list of headers.
pub open spec fn messages_view(m: Seq<MessageHeader>) -> Seq<MessageHeaderView> {
    Seq::new(m.len(), |i: int| m[i]@)
}

/// A copy of a header.
pub fn clone_header(h: &MessageHeader) -> (r: MessageHeader)
    ensures
        r@ == h@,
{
    MessageHeader {
        folder: h.folder.clone(),
        uid: h.uid,
        uid_validity: h.uid_validity,
        subject: h.subject.clone(),
        from: h.from.clone(),
        date: h.date,
        seen: h.seen,
        flagged: h.flagged,
        has_attachments: h.has_attachments,
        thread_id: clone_text(&h.thread_id),
        snippet: clone_text(&h.snippet),
    }
}

/// A flag that the server reports of a message.
#[derive(Clone, Copy, Debug, PartialEq, Eq, Structural)]
pub enum MessageFlag {
    Seen,
    Answered,
    Flagged,
    Deleted,
    Draft,
    Recent,
    MayCreate,
    Custom,
}

/// What one response to a fetch holds of a message.
pub struct FetchedMessage {
    pub uid: Option<u32>,
    pub flags: Vec<MessageFlag>,
    /// The header block asked for.
    pub header: Option<Vec<u8>>,
    /// The whole message, where it was asked for.
    pub body: Option<Vec<u8>>,
    /// The text of the message, where it was asked for.
    pub text: Option<Vec<u8>>,
}

/// Whether `flag` is among `flags`.
pub fn has_flag(flags: &Vec<MessageFlag>, flag: MessageFlag) -> (r: bool)
    ensures
        r == flags@.contains(flag),
{
    let mut i: usize = 0;
    while i < flags.len()
        invariant
            i <= flags@.len(),
            forall|j: int| 0 <= j < i ==> flags@[j] != flag,
        decreases flags@.len() - i,
    {
        if flags[i] == flag {
            return true;
        }
        i += 1;
    }
    false
}

/// The value of the last header whose name is `name` when capitals are
/// disregarded; `name` itself is in lower case.
pub open spec fn last_header_value(headers: Seq<(Seq<char>, Seq<char>)>, name: Seq<char>) -> Option<
    Seq<char>,
>
    decreases headers.len(),
{
    if headers.len() == 0 {
        None
    } else if lowered(headers.last().0) == name {
        Some(headers.last().1)
    } else {
        last_header_value(headers.drop_last(), name)
    }
}

/// The text of an optional value, empty where there is none.
pub open spec fn or_empty(t: Option<Seq<char>>) -> Seq<char> {
    match t {
        Some(s) => s,
        None => Seq::empty(),
    }
}

/// Computes `last_header_value`, with the empty text for `None`.
fn last_header(headers: &Vec<MimeHeader>, name: &str) -> (r: String)
    ensures
        r@ == or_empty(last_header_value(crate::mime::headers_view(headers@), name@)),
{
    let wanted = chars_of(name);
    let ghost all = crate::mime::headers_view(headers@);
    let mut found = String::new();
    let mut i: usize = 0;
    assert(all.take(0) =~= Seq::<(Seq<char>, Seq<char>)>::empty());
    while i < headers.len()
        invariant
            i <= headers@.len(),
            all == crate::mime::headers_view(headers@),
            wanted@ == name@,
            found@ == or_empty(last_header_value(all.take(i as int), name@)),
        decreases headers@.len() - i,
    {
        let key = to_lowered(&chars_of(headers[i].name.as_str()));
        if same_chars(&key, &wanted) {
            found = headers[i].value.clone();
        }
        i += 1;
        assert(all.take(i as int).drop_last() =~= all.take(i - 1));
    }
    assert(all.take(headers@.len() as int) =~= all);
    found
}

/// The snippet taken from the text `plain`: line feeds become spaces,
/// carriage returns vanish, and no more than `SNIPPET_CHARS` characters are
/// kept. An empty text gives no snippet.
pub open spec fn snippet_text(plain: Seq<char>) -> Option<Seq<char>> {
    if plain.len() == 0 {
        None
    } else {
        Some(
            prefix_of(
                replaced(replaced(plain, seq!['\n'], seq![' ']), seq!['\r'], Seq::empty()),
                SNIPPET_CHARS as nat,
            ),
        )
    }
}

/// Computes `snippet_text`.
pub fn snippet_of(plain: &str) -> (r: Option<String>)
    ensures
        opt_text(r) == snippet_text(plain@),
{
    let chars = chars_of(plain);
    if chars.len() == 0 {
        return None;
    }
    let mut lf: Vec<char> = Vec::new();
    lf.push('\n');
    let mut sp: Vec<char> = Vec::new();
    sp.push(' ');
    let mut cr: Vec<char> = Vec::new();
    cr.push('\r');
    let none: Vec<char> = Vec::new();
    assert(lf@ =~= seq!['\n'] && sp@ =~= seq![' '] && cr@ =~= seq!['\r'] && none@ =~= Seq::<
        char,
    >::empty());
    let spaced = replace_all(&chars, &lf, &sp);
    let clean = replace_all(&spaced, &cr, &none);
    Some(string_of(&take_chars(&clean, SNIPPET_CHARS)))
}

/// The date of a message in seconds since the Unix epoch: what was read
/// from its `Date` header, or zero where nothing could be read.
pub open spec fn timestamp_or_zero(parsed: Option<i64>) -> i64 {
    match parsed {
        Some(t) => t,
        None => 0,
    }
}

/// The header made of a message whose header block parsed to `root`.
pub open spec fn header_of_root(
    uid: u32,
    flags: Seq<MessageFlag>,
    root: MimePartView,
    validity: u32,
) -> MessageHeaderView {
    MessageHeaderView {
        folder: INBOX@,
        uid: uid,
        uid_validity: validity,
        subject: or_empty(last_header_value(root.headers, "subject"@)),
        from: or_empty(last_header_value(root.headers, "from"@)),
        date: timestamp_or_zero(
            rfc2822_seconds(or_empty(last_header_value(root.headers, "date"@))),
        ),
        seen: flags.contains(MessageFlag::Seen),
        flagged: flags.contains(MessageFlag::Flagged),
        has_attachments: false,
        thread_id: None,
        snippet: snippet_text(or_empty(root.text)),
    }
}

/// Makes the header of a message from the parsed form of its header block:
/// the last `Subject`, `From` and `Date` headers, the date read as
/// RFC 2822, the flags `\Seen` and `\Flagged`, and a snippet of the text that
/// follows the headers.
pub fn header_from_root(uid: u32, flags: &Vec<MessageFlag>, root: &MimePart, validity: u32) -> (r:
    MessageHeader)
    ensures
        r@ == header_of_root(uid, flags@, root@, validity),
{
    let subject = last_header(&root.headers, "subject");
    let from = last_header(&root.headers, "from");
    let date = last_header(&root.headers, "date");
    let timestamp = match parse_rfc2822(date.as_str()) {
        Some(t) => t,
        None => 0,
    };
    let snippet = match &root.text {
        Some(plain) => snippet_of(plain.as_str()),
        None => None,
    };
    MessageHeader {
        folder: String::from_str(INBOX),
        uid,
        uid_validity: validity,
        subject,
        from,
        date: timestamp,
        seen: has_flag(flags, MessageFlag::Seen),
        flagged: has_flag(flags, MessageFlag::Flagged),
        has_attachments: false,
        thread_id: None,
        snippet,
    }
}

/// The header that a synchronisation makes of one fetched message, given what
/// its header block parses to: none where the response lacks the UID or the
/// header block, or where the block does not parse.
pub open spec fn synced_header(
    uid: Option<u32>,
    flags: Seq<MessageFlag>,
    header: Option<Seq<u8>>,
    validity: u32,
) -> Option<MessageHeaderView> {
    match (uid, header) {
        (Some(u), Some(bytes)) => match mime_parts_of(bytes) {
            Some(parts) => if parts.len() > 0 {
                Some(header_of_root(u, flags, parts[0], validity))
            } else {
                None
            },
            None => None,
        },
        _ => None,
    }
}

/// The view of an optional header.
pub open spec fn opt_header(h: Option<MessageHeader>) -> Option<MessageHeaderView> {
    match h {
        Some(m) => Some(m@),
        None => None,
    }
}

/// Reads the header of a message from one response to the header fetch of a
/// synchronisation.
pub fn parse_header_to_message(msg: &FetchedMessage, server_validity: u32) -> (r: Option<
    MessageHeader,
>)
    ensures
        opt_header(r) == synced_header(
            msg.uid,
            msg.flags@,
            crate::mime::opt_bytes(msg.header),
            server_validity,
        ),
{
    let uid = match msg.uid {
        Some(u) => u,
        None => {
            return None;
        },
    };
    let bytes = match &msg.header {
        Some(b) => b,
        None => {
            return None;
        },
    };
    match parse_mime_parts(bytes.as_slice()) {
        Some(parts) => {
            if parts.len() > 0 {
                Some(header_from_root(uid, &msg.flags, &parts[0], server_validity))
            } else {
                None
            }
        },
        None => None,
    }
}

/// The header without subject, sender, date or snippet that stands for a
/// message whose content did not parse.
pub open spec fn blank_header(uid: u32, flags: Seq<MessageFlag>, validity: u32) -> MessageHeaderView {
    MessageHeaderView {
        folder: INBOX@,
        uid: uid,
        uid_validity: validity,
        subject: Seq::empty(),
        from: Seq::empty(),
        date: 0,
        seen: flags.contains(MessageFlag::Seen),
        flagged: flags.contains(MessageFlag::Flagged),
        has_attachments: false,
        thread_id: None,
        snippet: None,
    }
}

/// The content that a listing reads a message from: the header block, else
/// the whole message, else its text.
pub open spec fn listed_content(
    header: Option<Seq<u8>>,
    body: Option<Seq<u8>>,
    text: Option<Seq<u8>>,
) -> Option<Seq<u8>> {
    if header is Some {
        header
    } else if body is Some {
        body
    } else {
        text
    }
}

/// The header that a listing makes of one fetched message: none where the
/// response has no content at all; a blank header where the content does not
/// parse. A response without UID counts as UID zero.
pub open spec fn listed_header(
    uid: Option<u32>,
    flags: Seq<MessageFlag>,
    content: Option<Seq<u8>>,
    validity: u32,
) -> Option<MessageHeaderView> {
    let u = match uid {
        Some(u) => u,
        None => 0u32,
    };
    match content {
        Some(bytes) => match mime_parts_of(bytes) {
            Some(parts) => if parts.len() > 0 {
                Some(header_of_root(u, flags, parts[0], validity))
            } else {
                Some(blank_header(u, flags, validity))
            },
            None => Some(blank_header(u, flags, validity)),
        },
        None => None,
    }
}

/// Reads the header of a message from one response to the fetch of a
/// listing.
pub fn listed_message(msg: &FetchedMessage, validity: u32) -> (r: Option<MessageHeader>)
    ensures
        opt_header(r) == listed_header(
            msg.uid,
            msg.flags@,
            listed_content(
                crate::mime::opt_bytes(msg.header),
                crate::mime::opt_bytes(msg.body),
                crate::mime::opt_bytes(msg.text),
            ),
            validity,
        ),
{
    let uid = match msg.uid {
        Some(u) => u,
        None => 0,
    };
    let content = if msg.header.is_some() {
        &msg.header
    } else if msg.body.is_some() {
        &msg.body
    } else {
        &msg.text
    };
    let bytes = match content {
        Some(b) => b,
        None => {
            return None;
        },
    };
    match parse_mime_parts(bytes.as_slice()) {
        Some(parts) => {
            if parts.len() > 0 {
                return Some(header_from_root(uid, &msg.flags, &parts[0], validity));
            }
        },
        None => {},
    }
    Some(
        MessageHeader {
            folder: String::from_str(INBOX),
            uid,
            uid_validity: validity,
            subject: String::new(),
            from: String::new(),
            date: 0,
            seen: has_flag(&msg.flags, MessageFlag::Seen),
            flagged: has_flag(&msg.flags, MessageFlag::Flagged),
            has_attachments: false,
            thread_id: None,
            snippet: None,
        },
    )
}

/// No number is followed by a greater one.
pub open spec fn descending(s: Seq<u32>) -> bool {
    forall|i: int, j: int| 0 <= i < j < s.len() ==> s[i] >= s[j]
}

/// No message is followed by one with a greater UID.
pub open spec fn uids_descending(s: Seq<MessageHeader>) -> bool {
    forall|i: int, j: int| 0 <= i < j < s.len() ==> s[i].uid >= s[j].uid
}

/// The numbers of `v` from the greatest to the least.
pub fn sort_desc(v: Vec<u32>) -> (r: Vec<u32>)
    ensures
        descending(r@),
        r@.to_multiset() == v@.to_multiset(),
{
    let mut rest = v;
    let mut out: Vec<u32> = Vec::new();
    while rest.len() > 0
        invariant
            descending(out@),
            rest@.to_multiset().add(out@.to_multiset()) == v@.to_multiset(),
        decreases rest@.len(),
    {
        let ghost before = rest@;
        let x = rest.pop().unwrap();
        assert(before =~= rest@.push(x));
        let mut pos: usize = 0;
        while pos < out.len() && out[pos] > x
            invariant
                pos <= out@.len(),
                forall|k: int| 0 <= k < pos ==> out@[k] > x,
            decreases out@.len() - pos,
        {
            pos += 1;
        }
        let ghost sorted = out@;
        out.insert(pos, x);
        assert(descending(out@)) by {
            assert forall|i: int, j: int| 0 <= i < j < out@.len() implies out@[i] >= out@[j] by {
                let i0 = if i < pos { i } else { i - 1 };
                let j0 = if j < pos { j } else { j - 1 };
                if i != pos && j != pos {
                    assert(out@[i] == sorted[i0] && out@[j] == sorted[j0]);
                } else if i == pos {
                    assert(out@[j] == sorted[j0]);
                    assert(pos < sorted.len());
                    assert(sorted[pos as int] >= sorted[j0]);
                } else {
                    assert(out@[i] == sorted[i0]);
                }
            }
        }
        assert(rest@.to_multiset().add(out@.to_multiset()) =~= v@.to_multiset());
    }
    assert(rest@.to_multiset() =~= vstd::multiset::Multiset::empty());
    assert(out@.to_multiset() =~= v@.to_multiset());
    out
}

/// The messages of `v` ordered from the greatest UID to the least.
pub fn sort_by_uid_desc(v: Vec<MessageHeader>) -> (r: Vec<MessageHeader>)
    ensures
        uids_descending(r@),
        r@.to_multiset() == v@.to_multiset(),
        messages_view(r@).to_multiset() == messages_view(v@).to_multiset(),
{
    let mut rest = v;
    let mut out: Vec<MessageHeader> = Vec::new();
    assert(messages_view(out@) =~= Seq::<MessageHeaderView>::empty());
    assert(messages_view(out@).to_multiset() =~= vstd::multiset::Multiset::empty());
    while rest.len() > 0
        invariant
            uids_descending(out@),
            rest@.to_multiset().add(out@.to_multiset()) == v@.to_multiset(),
            messages_view(rest@).to_multiset().add(messages_view(out@).to_multiset())
                == messages_view(v@).to_multiset(),
        decreases rest@.len(),
    {
        let ghost before = rest@;
        let ghost out_before = out@;
        let x = rest.pop().unwrap();
        assert(before =~= rest@.push(x));
        assert(messages_view(before) =~= messages_view(rest@).push(x@));
        let mut pos: usize = 0;
        while pos < out.len() && out[pos].uid > x.uid
            invariant
                pos <= out@.len(),
                forall|k: int| 0 <= k < pos ==> out@[k].uid > x.uid,
            decreases out@.len() - pos,
        {
            pos += 1;
        }
        let ghost sorted = out@;
        out.insert(pos, x);
        assert(uids_descending(out@)) by {
            assert forall|i: int, j: int| 0 <= i < j < out@.len() implies out@[i].uid
                >= out@[j].uid by {
                let i0 = if i < pos { i } else { i - 1 };
                let j0 = if j < pos { j } else { j - 1 };
                if i != pos && j != pos {
                    assert(out@[i] == sorted[i0] && out@[j] == sorted[j0]);
                } else if i == pos {
                    assert(out@[j] == sorted[j0]);
                    assert(pos < sorted.len());
                    assert(sorted[pos as int].uid >= sorted[j0].uid);
                } else {
                    assert(out@[i] == sorted[i0]);
                }
            }
        }
        assert(rest@.to_multiset().add(out@.to_multiset()) =~= v@.to_multiset());
        assert(messages_view(out@) =~= messages_view(out_before).insert(pos as int, x@));
        assert(messages_view(rest@).to_multiset().add(messages_view(out@).to_multiset())
            =~= messages_view(v@).to_multiset());
    }
    assert(rest@.to_multiset() =~= vstd::multiset::Multiset::empty());
    assert(out@.to_multiset() =~= v@.to_multiset());
    assert(messages_view(rest@) =~= Seq::<MessageHeaderView>::empty());
    assert(messages_view(rest@).to_multiset() =~= vstd::multiset::Multiset::empty());
    assert(messages_view(out@).to_multiset() =~= messages_view(v@).to_multiset());
    out
}

/// Why a listing of the inbox failed.
#[derive(Clone, Copy, Debug, PartialEq, Eq, Structural)]
pub enum ListError {
    /// Messages were asked for, but not one of the responses had any content
    /// to read; `fetched` tells how many responses there were.
    NothingParsed { fetched: usize },
}

/// The headers read from the responses to the fetch of a listing, in their
/// order; a response without content is passed over.
pub open spec fn listed_messages(fetched: Seq<FetchedMessage>, validity: u32) -> Seq<
    MessageHeaderView,
>
    decreases fetched.len(),
{
    if fetched.len() == 0 {
        Seq::empty()
    } else {
        let rest = listed_messages(fetched.drop_last(), validity);
        let last = fetched.last();
        match listed_header(
            last.uid,
            last.flags@,
            listed_content(
                crate::mime::opt_bytes(last.header),
                crate::mime::opt_bytes(last.body),
                crate::mime::opt_bytes(last.text),
            ),
            validity,
        ) {
            Some(h) => rest.push(h),
            None => rest,
        }
    }
}

/// Makes the listing of the inbox from the responses to the fetch of its
/// `requested` most recent messages: the headers read from the responses,
/// from the greatest UID to the least. Where messages were asked for and
/// no response had content, the listing fails.
pub fn get_inbox_messages(fetched: &Vec<FetchedMessage>, uid_validity: u32, requested: usize) -> (r:
    Result<Vec<MessageHeader>, ListError>)
    ensures
        listed_messages(fetched@, uid_validity).len() == 0 && requested > 0 ==> r == Err::<
            Vec<MessageHeader>,
            ListError,
        >(ListError::NothingParsed { fetched: fetched@.len() as usize }),
        listed_messages(fetched@, uid_validity).len() > 0 || requested == 0 ==> {
            &&& r matches Ok(messages)
            &&& uids_descending(messages@)
            &&& messages_view(messages@).to_multiset() == listed_messages(
                fetched@,
                uid_validity,
            ).to_multiset()
        },
{
    let mut out: Vec<MessageHeader> = Vec::new();
    let mut i: usize = 0;
    assert(fetched@.take(0) =~= Seq::<FetchedMessage>::empty());
    assert(messages_view(out@) =~= Seq::<MessageHeaderView>::empty());
    while i < fetched.len()
        invariant
            i <= fetched@.len(),
            messages_view(out@) == listed_messages(fetched@.take(i as int), uid_validity),
        decreases fetched@.len() - i,
    {
        let ghost had = messages_view(out@);
        match listed_message(&fetched[i], uid_validity) {
            Some(h) => {
                out.push(h);
                assert(messages_view(out@) =~= had.push(h@));
            },
            None => {},
        }
        i += 1;
        assert(fetched@.take(i as int).drop_last() =~= fetched@.take(i - 1));
    }
    assert(fetched@.take(fetched@.len() as int) =~= fetched@);
    if out.len() == 0 && requested > 0 {
        return Err(ListError::NothingParsed { fetched: fetched.len() });
    }
    Ok(sort_by_uid_desc(out))
}

/// The `LISTING_SIZE` greatest of `uids`, or all of them where they are
/// fewer, from the greatest to the least: the start of `uids` put in
/// descending order.
pub fn recent_uids(uids: Vec<u32>) -> (r: Vec<u32>)
    ensures
        r@.len() == if uids@.len() < LISTING_SIZE {
            uids@.len()
        } else {
            LISTING_SIZE as nat
        },
        exists|rest: Seq<u32>|
            descending(r@ + rest) && #[trigger] (r@ + rest).to_multiset() == uids@.to_multiset(),
{
    let ghost n = uids@.len();
    let mut sorted = sort_desc(uids);
    let ghost full = sorted@;
    assert(full.len() == n) by {
        assert(full.to_multiset().len() == uids@.to_multiset().len());
    }
    sorted.truncate(LISTING_SIZE);
    proof {
        let rest = full.subrange(sorted@.len() as int, full.len() as int);
        assert(sorted@ + rest =~= full);
    }
    sorted
}

/// The numerals of `uids` with a comma between each two.
pub open spec fn uid_set(uids: Seq<u32>) -> Seq<char>
    decreases uids.len(),
{
    if uids.len() == 0 {
        Seq::empty()
    } else if uids.len() == 1 {
        decimal(uids[0] as nat)
    } else {
        uid_set(uids.drop_last()).push(',') + decimal(uids.last() as nat)
    }
}

/// Writes `uids` as the message set of a fetch: their numerals, separated by
/// commas.
pub fn uid_set_string(uids: &Vec<u32>) -> (r: String)
    ensures
        r@ == uid_set(uids@),
{
    let mut out: Vec<char> = Vec::new();
    let mut i: usize = 0;
    assert(uids@.take(0) =~= Seq::<u32>::empty());
    while i < uids.len()
        invariant
            i <= uids@.len(),
            out@ == uid_set(uids@.take(i as int)),
        decreases uids@.len() - i,
    {
        if i > 0 {
            out.push(',');
        }
        push_decimal(&mut out, uids[i] as u64);
        i += 1;
        proof {
            let cur = uids@.take(i as int);
            assert(cur.drop_last() =~= uids@.take(i - 1));
            assert(cur.last() == uids@[i - 1]);
            if i == 1 {
                assert(Seq::<char>::empty() + decimal(uids@[0] as nat) =~= decimal(
                    uids@[0] as nat,
                ));
            }
        }
    }
    assert(uids@.take(uids@.len() as int) =~= uids@);
    string_of(&out)
}

} // verus!
