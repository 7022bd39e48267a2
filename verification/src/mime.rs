//! The parts of a MIME message, and what a walk over them collects for
//! display: the body to show and the inline images it may refer to.
//!
//! A parsed message is held as the list of its parts in depth-first
//! pre-order, the message itself first. The order in which parts are met is
//! all that the selection depends on.

use crate::text::{
    chars_of, contains_chars, has_occurrence, lowered, occurs_at, same_chars, starts_with, string_of,
    to_lowered, trim_chars, trimmed,
};
use vstd::prelude::*;

verus! {

/// One header line of a part: its name and its unfolded, decoded value.
pub struct MimeHeader {
    pub name: String,
    pub value: String,
}

/// One part of a message.
pub struct MimePart {
    /// The content type, such as `text/html`.
    pub mimetype: String,
    /// The part's own headers, in the order in which they were written.
    pub headers: Vec<MimeHeader>,
    /// How many parts this part directly contains.
    pub children: usize,
    /// The body with its transfer encoding removed, where that succeeded.
    pub raw: Option<Vec<u8>>,
    /// The body decoded to text by its character set, where that succeeded.
    pub text: Option<String>,
}

/// The mathematical content of a `MimePart`.
pub struct MimePartView {
    pub mimetype: Seq<char>,
    pub headers: Seq<(Seq<char>, Seq<char>)>,
    pub children: nat,
    pub raw: Option<Seq<u8>>,
    pub text: Option<Seq<char>>,
}

/// The view of an optional string.
pub open spec fn opt_text(t: Option<String>) -> Option<Seq<char>> {
    match t {
        Some(s) => Some(s@),
        None => None,
    }
}

/// The view of an optional byte vector.
pub open spec fn opt_bytes(t: Option<Vec<u8>>) -> Option<Seq<u8>> {
    match t {
        Some(s) => Some(s@),
        None => None,
    }
}

/// The views of a list of headers.
pub open spec fn headers_view(h: Seq<MimeHeader>) -> Seq<(Seq<char>, Seq<char>)> {
    Seq::new(h.len(), |i: int| (h[i].name@, h[i].value@))
}

impl View for MimePart {
    type V = MimePartView;

    open spec fn view(&self) -> MimePartView {
        MimePartView {
            mimetype: self.mimetype@,
            headers: headers_view(self.headers@),
            children: self.children as nat,
            raw: opt_bytes(self.raw),
            text: opt_text(self.text),
        }
    }
}

/// The views of a list of parts.
pub open spec fn parts_view(parts: Seq<MimePart>) -> Seq<MimePartView> {
    Seq::new(parts.len(), |i: int| parts[i]@)
}

/// The view of a parse result.
pub open spec fn parsed_view(parsed: Option<Vec<MimePart>>) -> Option<Seq<MimePartView>> {
    match parsed {
        Some(parts) => Some(parts_view(parts@)),
        None => None,
    }
}

/// An inline image that the displayed body may refer to by its content id.
pub struct CidCandidate {
    /// The content id, without the angle brackets around it.
    pub cid: String,
    /// The place of the part among the parts of the message.
    pub part_index: usize,
    /// The part's content type, in lower case.
    pub mime: String,
}

/// The mathematical content of a `CidCandidate`.
pub struct CidCandidateView {
    pub cid: Seq<char>,
    pub part_index: nat,
    pub mime: Seq<char>,
}

impl View for CidCandidate {
    type V = CidCandidateView;

    open spec fn view(&self) -> CidCandidateView {
        CidCandidateView { cid: self.cid@, part_index: self.part_index as nat, mime: self.mime@ }
    }
}

/// The views of a list of candidates.
pub open spec fn candidates_view(c: Seq<CidCandidate>) -> Seq<CidCandidateView> {
    Seq::new(c.len(), |i: int| c[i]@)
}

/// The views of a list of byte vectors.
pub open spec fn bodies_view(b: Seq<Vec<u8>>) -> Seq<Seq<u8>> {
    Seq::new(b.len(), |i: int| b[i]@)
}

/// What a walk over the parts of a message has collected.
pub struct MimeParts {
    /// The last acceptable HTML body met.
    pub best_html: Option<String>,
    /// The last plain-text body met that is more than white space.
    pub best_text: Option<String>,
    /// The inline images met, in the order of the walk.
    pub cid_candidates: Vec<CidCandidate>,
    /// The raw body of every part met, in the order of the walk.
    pub all_parts: Vec<Vec<u8>>,
}

/// The mathematical content of a `MimeParts`.
pub struct MimePartsView {
    pub best_html: Option<Seq<char>>,
    pub best_text: Option<Seq<char>>,
    pub cid_candidates: Seq<CidCandidateView>,
    pub all_parts: Seq<Seq<u8>>,
}

impl View for MimeParts {
    type V = MimePartsView;

    open spec fn view(&self) -> MimePartsView {
        MimePartsView {
            best_html: opt_text(self.best_html),
            best_text: opt_text(self.best_text),
            cid_candidates: candidates_view(self.cid_candidates@),
            all_parts: bodies_view(self.all_parts@),
        }
    }
}

/// The fewest bytes of trimmed text that make an HTML body worth showing.
pub const MIN_HTML_BYTES: usize = 20;

/// The number of bytes that `c` takes in UTF-8.
pub open spec fn utf8_width(c: char) -> nat {
    let n = c as u32;
    if n < 0x80 {
        1
    } else if n < 0x800 {
        2
    } else if n < 0x10000 {
        3
    } else {
        4
    }
}

/// The number of bytes that `s` takes in UTF-8.
pub open spec fn utf8_length(s: Seq<char>) -> nat
    decreases s.len(),
{
    if s.len() == 0 {
        0
    } else {
        utf8_length(s.drop_last()) + utf8_width(s.last())
    }
}

/// The value of the first header whose name is `name` when capitals are
/// disregarded; `name` itself is in lower case.
pub open spec fn header_value(headers: Seq<(Seq<char>, Seq<char>)>, name: Seq<char>) -> Option<
    Seq<char>,
>
    decreases headers.len(),
{
    if headers.len() == 0 {
        None
    } else if lowered(headers[0].0) == name {
        Some(headers[0].1)
    } else {
        header_value(headers.drop_first(), name)
    }
}

/// Whether the part is marked as an attachment by its disposition.
pub open spec fn is_attachment(part: MimePartView) -> bool {
    match header_value(part.headers, "content-disposition"@) {
        Some(value) => has_occurrence(lowered(value), "attachment"@),
        None => false,
    }
}

/// A content id without the angle brackets that may enclose it.
pub open spec fn strip_angles(value: Seq<char>) -> Seq<char> {
    if value.len() >= 2 && value[0] == '<' && value.last() == '>' {
        value.subrange(1, value.len() - 1)
    } else {
        value
    }
}

/// The inline image that the part at place `index` offers, if it offers one:
/// an image that is no attachment and carries a content id.
pub open spec fn candidate_of(part: MimePartView, index: nat) -> Option<CidCandidateView> {
    if !is_attachment(part) && occurs_at(lowered(part.mimetype), 0, "image/"@) {
        match header_value(part.headers, "content-id"@) {
            Some(value) => Some(
                CidCandidateView {
                    cid: strip_angles(value),
                    part_index: index,
                    mime: lowered(part.mimetype),
                },
            ),
            None => None,
        }
    } else {
        None
    }
}

/// Whether the part is an HTML body worth showing: a part without parts of
/// its own, of type `text/html`, whose text is at least `MIN_HTML_BYTES`
/// bytes long once trimmed.
pub open spec fn is_acceptable_html(part: MimePartView) -> bool {
    &&& part.children == 0
    &&& lowered(part.mimetype) == "text/html"@
    &&& part.text matches Some(body)
    &&& utf8_length(trimmed(body)) >= MIN_HTML_BYTES
}

/// Whether the part is a plain-text body worth showing: a part without parts
/// of its own, of type `text/plain`, whose text is more than white space.
pub open spec fn is_acceptable_text(part: MimePartView) -> bool {
    &&& part.children == 0
    &&& lowered(part.mimetype) == "text/plain"@
    &&& part.text matches Some(body)
    &&& trimmed(body).len() > 0
}

/// The state of a walk after `part` was met.
pub open spec fn visited(state: MimePartsView, part: MimePartView) -> MimePartsView {
    MimePartsView {
        best_html: if is_acceptable_html(part) {
            part.text
        } else {
            state.best_html
        },
        best_text: if is_acceptable_text(part) {
            part.text
        } else {
            state.best_text
        },
        cid_candidates: match candidate_of(part, state.all_parts.len()) {
            Some(c) => state.cid_candidates.push(c),
            None => state.cid_candidates,
        },
        all_parts: state.all_parts.push(
            match part.raw {
                Some(bytes) => bytes,
                None => Seq::empty(),
            },
        ),
    }
}

/// The state of a walk that has met nothing.
pub open spec fn nothing_visited() -> MimePartsView {
    MimePartsView {
        best_html: None,
        best_text: None,
        cid_candidates: Seq::empty(),
        all_parts: Seq::empty(),
    }
}

/// The state of a walk over `parts` from the first to the last.
pub open spec fn collected(parts: Seq<MimePartView>) -> MimePartsView
    decreases parts.len(),
{
    if parts.len() == 0 {
        nothing_visited()
    } else {
        visited(collected(parts.drop_last()), parts.last())
    }
}

/// Computes `utf8_length`, counting no further than `cap`.
fn utf8_length_capped(s: &Vec<char>, cap: usize) -> (n: usize)
    ensures
        n == if utf8_length(s@) < cap {
            utf8_length(s@)
        } else {
            cap as nat
        },
{
    let mut n: usize = 0;
    let mut i: usize = 0;
    assert(s@.take(0) =~= Seq::<char>::empty());
    while i < s.len() && n < cap
        invariant
            i <= s@.len(),
            n <= cap,
            n < cap ==> n == utf8_length(s@.take(i as int)),
            n == cap ==> utf8_length(s@.take(i as int)) >= cap,
        decreases s@.len() - i,
    {
        let code: u32 = s[i] as u32;
        let w: usize = if code < 0x80 {
            1
        } else if code < 0x800 {
            2
        } else if code < 0x10000 {
            3
        } else {
            4
        };
        assert(s@.take(i + 1).drop_last() =~= s@.take(i as int));
        n = if cap - n <= w {
            cap
        } else {
            n + w
        };
        i += 1;
    }
    proof {
        if i < s@.len() {
            lemma_utf8_length_grows(s@, i as int);
        } else {
            assert(s@.take(s@.len() as int) =~= s@);
        }
    }
    n
}

proof fn lemma_utf8_length_grows(s: Seq<char>, i: int)
    requires
        0 <= i <= s.len(),
    ensures
        utf8_length(s.take(i)) <= utf8_length(s),
    decreases s.len() - i,
{
    if i < s.len() {
        lemma_utf8_length_grows(s, i + 1);
        assert(s.take(i + 1).drop_last() =~= s.take(i));
    } else {
        assert(s.take(i) =~= s);
    }
}

/// Computes `header_value`.
fn find_header<'a>(headers: &'a Vec<MimeHeader>, name: &str) -> (r: Option<&'a String>)
    ensures
        opt_ref_text(r) == header_value(headers_view(headers@), name@),
{
    let wanted = chars_of(name);
    let ghost all = headers_view(headers@);
    let mut i: usize = 0;
    assert(all.subrange(0, all.len() as int) =~= all);
    while i < headers.len()
        invariant
            i <= headers@.len(),
            all == headers_view(headers@),
            wanted@ == name@,
            header_value(all, name@) == header_value(all.subrange(i as int, all.len() as int), name@),
        decreases headers@.len() - i,
    {
        let ghost rest = all.subrange(i as int, all.len() as int);
        let key = to_lowered(&chars_of(headers[i].name.as_str()));
        assert(rest[0] == all[i as int]);
        if same_chars(&key, &wanted) {
            return Some(&headers[i].value);
        }
        assert(rest.drop_first() =~= all.subrange(i + 1, all.len() as int));
        i += 1;
    }
    None
}

/// The view of an optional borrowed string.
pub open spec fn opt_ref_text(t: Option<&String>) -> Option<Seq<char>> {
    match t {
        Some(s) => Some(s@),
        None => None,
    }
}

/// Whether the text is `lit` when capitals are disregarded; `lit` itself is
/// in lower case.
fn lowered_is(s: &String, lit: &str) -> (r: bool)
    ensures
        r == (lowered(s@) == lit@),
{
    let low = to_lowered(&chars_of(s.as_str()));
    let want = chars_of(lit);
    same_chars(&low, &want)
}

/// Computes `is_attachment`.
fn part_is_attachment(part: &MimePart) -> (r: bool)
    ensures
        r == is_attachment(part@),
{
    match find_header(&part.headers, "content-disposition") {
        Some(value) => {
            let low = to_lowered(&chars_of(value.as_str()));
            let needle = chars_of("attachment");
            contains_chars(&low, &needle)
        },
        None => false,
    }
}

/// Computes `strip_angles`.
fn strip_angle_brackets(value: &String) -> (r: String)
    ensures
        r@ == strip_angles(value@),
{
    let chars = chars_of(value.as_str());
    let n = chars.len();
    if n >= 2 && chars[0] == '<' && chars[n - 1] == '>' {
        let mut inner: Vec<char> = Vec::new();
        let mut i: usize = 1;
        while i < n - 1
            invariant
                1 <= i <= n - 1,
                n == chars@.len(),
                inner@ == chars@.subrange(1, i as int),
            decreases n - i,
        {
            inner.push(chars[i]);
            i += 1;
            assert(chars@.subrange(1, i as int) =~= chars@.subrange(1, i - 1).push(chars@[i - 1]));
        }
        string_of(&inner)
    } else {
        value.clone()
    }
}

/// Computes `candidate_of`.
fn part_candidate(part: &MimePart, index: usize) -> (r: Option<CidCandidate>)
    ensures
        match r {
            Some(c) => candidate_of(part@, index as nat) == Some(c@),
            None => candidate_of(part@, index as nat) is None,
        },
{
    let ctype = to_lowered(&chars_of(part.mimetype.as_str()));
    let image = chars_of("image/");
    if !part_is_attachment(part) && starts_with(&ctype, &image) {
        match find_header(&part.headers, "content-id") {
            Some(value) => Some(
                CidCandidate {
                    cid: strip_angle_brackets(value),
                    part_index: index,
                    mime: string_of(&ctype),
                },
            ),
            None => None,
        }
    } else {
        None
    }
}

/// Computes `is_acceptable_html`.
fn part_is_acceptable_html(part: &MimePart) -> (r: bool)
    ensures
        r == is_acceptable_html(part@),
{
    if part.children != 0 || !lowered_is(&part.mimetype, "text/html") {
        return false;
    }
    match &part.text {
        Some(body) => {
            let t = trim_chars(&chars_of(body.as_str()));
            utf8_length_capped(&t, MIN_HTML_BYTES) >= MIN_HTML_BYTES
        },
        None => false,
    }
}

/// Computes `is_acceptable_text`.
fn part_is_acceptable_text(part: &MimePart) -> (r: bool)
    ensures
        r == is_acceptable_text(part@),
{
    if part.children != 0 || !lowered_is(&part.mimetype, "text/plain") {
        return false;
    }
    match &part.text {
        Some(body) => {
            let t = trim_chars(&chars_of(body.as_str()));
            t.len() > 0
        },
        None => false,
    }
}

/// A copy of an optional text.
pub fn clone_text(t: &Option<String>) -> (r: Option<String>)
    ensures
        opt_text(r) == opt_text(*t),
{
    match t {
        Some(s) => Some(s.clone()),
        None => None,
    }
}

/// A copy of `bytes`.
pub fn copy_bytes(bytes: &Vec<u8>) -> (r: Vec<u8>)
    ensures
        r@ == bytes@,
{
    let mut r: Vec<u8> = Vec::new();
    let mut i: usize = 0;
    while i < bytes.len()
        invariant
            i <= bytes@.len(),
            r@ == bytes@.take(i as int),
        decreases bytes@.len() - i,
    {
        r.push(bytes[i]);
        i += 1;
        assert(bytes@.take(i as int) =~= bytes@.take(i - 1).push(bytes@[i - 1]));
    }
    assert(bytes@.take(bytes@.len() as int) =~= bytes@);
    r
}

impl MimeParts {
    /// The state of a walk that has met nothing.
    pub fn new() -> (r: Self)
        ensures
            r@ == nothing_visited(),
    {
        let r = MimeParts {
            best_html: None,
            best_text: None,
            cid_candidates: Vec::new(),
            all_parts: Vec::new(),
        };
        assert(r@.cid_candidates =~= Seq::empty());
        assert(r@.all_parts =~= Seq::empty());
        r
    }

    /// Meets one part: records its raw body, notes it as an inline image if
    /// it is one, and lets it replace the body chosen so far if it is an
    /// acceptable body of that kind.
    pub fn traverse(&mut self, part: &MimePart)
        ensures
            final(self)@ == visited(old(self)@, part@),
    {
        let index = self.all_parts.len();
        let raw = match &part.raw {
            Some(bytes) => copy_bytes(bytes),
            None => Vec::new(),
        };
        self.all_parts.push(raw);
        match part_candidate(part, index) {
            Some(c) => {
                self.cid_candidates.push(c);
            },
            None => {},
        }
        if part_is_acceptable_html(part) {
            self.best_html = clone_text(&part.text);
        } else if part_is_acceptable_text(part) {
            self.best_text = clone_text(&part.text);
        }
        proof {
            reveal_strlit("text/html");
            reveal_strlit("text/plain");
            assert("text/html"@.len() != "text/plain"@.len());
            assert(self@.all_parts =~= visited(old(self)@, part@).all_parts);
            assert(self@.cid_candidates =~= visited(old(self)@, part@).cid_candidates);
        }
    }
}

/// Walks over the parts of a message, given in depth-first pre-order, and
/// collects what is needed to display it.
pub fn collect_parts(parts: &Vec<MimePart>) -> (r: MimeParts)
    ensures
        r@ == collected(parts_view(parts@)),
{
    let mut state = MimeParts::new();
    let ghost all = parts_view(parts@);
    let mut i: usize = 0;
    assert(all.take(0) =~= Seq::<MimePartView>::empty());
    while i < parts.len()
        invariant
            i <= parts@.len(),
            all == parts_view(parts@),
            state@ == collected(all.take(i as int)),
        decreases parts@.len() - i,
    {
        state.traverse(&parts[i]);
        i += 1;
        assert(all.take(i as int).drop_last() =~= all.take(i - 1));
    }
    assert(all.take(parts@.len() as int) =~= all);
    state
}


/// The HTML body chosen is that of the last acceptable HTML part: later
/// parts take precedence over earlier ones.
pub proof fn lemma_last_html_wins(parts: Seq<MimePartView>, i: int)
    requires
        0 <= i < parts.len(),
        is_acceptable_html(parts[i]),
        forall|j: int| i < j < parts.len() ==> !is_acceptable_html(parts[j]),
    ensures
        collected(parts).best_html == parts[i].text,
    decreases parts.len(),
{
    if i < parts.len() - 1 {
        lemma_last_html_wins(parts.drop_last(), i);
    }
}

/// The plain-text body chosen is that of the last acceptable plain-text
/// part.
pub proof fn lemma_last_text_wins(parts: Seq<MimePartView>, i: int)
    requires
        0 <= i < parts.len(),
        is_acceptable_text(parts[i]),
        forall|j: int| i < j < parts.len() ==> !is_acceptable_text(parts[j]),
    ensures
        collected(parts).best_text == parts[i].text,
    decreases parts.len(),
{
    if i < parts.len() - 1 {
        lemma_last_text_wins(parts.drop_last(), i);
    }
}

/// Without an acceptable part of a kind no body of that kind is chosen; the
/// raw body of every part is recorded; and every inline image names the
/// part it came from.
pub proof fn lemma_collected_shape(parts: Seq<MimePartView>)
    ensures
        (forall|j: int| 0 <= j < parts.len() ==> !is_acceptable_html(parts[j])) ==> collected(
            parts,
        ).best_html is None,
        (forall|j: int| 0 <= j < parts.len() ==> !is_acceptable_text(parts[j])) ==> collected(
            parts,
        ).best_text is None,
        collected(parts).all_parts.len() == parts.len(),
        forall|k: int|
            0 <= k < collected(parts).cid_candidates.len() ==> (#[trigger] collected(
                parts,
            ).cid_candidates[k]).part_index < parts.len(),
    decreases parts.len(),
{
    if parts.len() > 0 {
        let rest = parts.drop_last();
        lemma_collected_shape(rest);
        assert forall|j: int| 0 <= j < rest.len() implies rest[j] == parts[j] by {}
        let before = collected(rest);
        let after = collected(parts);
        assert forall|k: int| 0 <= k < after.cid_candidates.len() implies (
        #[trigger] after.cid_candidates[k]).part_index < parts.len() by {
            if k < before.cid_candidates.len() {
                assert(after.cid_candidates[k] == before.cid_candidates[k]);
            }
        }
    }
}

} // verus!
