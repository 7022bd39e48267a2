//! The part of a message that is fetched for display: how it is chosen from
//! the structure that the server describes, how it is asked for, and how the
//! answer is put together.

use crate::mime::opt_bytes;
use crate::text::{chars_of, decimal, lowered, push_decimal, same_chars, string_of, to_lowered, append_str, append_chars};
use vstd::prelude::*;

verus! {

/// The item asked of the server to learn the structure of a message.
pub const STRUCTURE_QUERY: &'static str = "(BODYSTRUCTURE)";

/// The items asked of the server where no part was chosen.
pub const WHOLE_QUERY: &'static str = "(BODY.PEEK[TEXT] BODY.PEEK[HEADER])";

/// The structure of a message as the server describes it.
pub enum BodyNode {
    /// A part of type `text`, with its subtype.
    Text { subtype: String },
    /// A part made of parts.
    Multipart { bodies: Vec<BodyNode> },
    /// Any other part.
    Other,
}

/// The number of parts that a node directly contains.
pub open spec fn child_count(node: BodyNode) -> nat {
    match node {
        BodyNode::Multipart { bodies } => bodies@.len(),
        _ => 0,
    }
}

/// The section path of the last text part of subtype `wanted` that a walk
/// over `node` meets, capitals in subtypes disregarded; `wanted` itself is
/// in lower case. The path of `node` is `prefix`, and the parts of a
/// multipart are numbered from one.
pub open spec fn last_text_part(node: BodyNode, prefix: Seq<usize>, wanted: Seq<char>) -> Option<
    Seq<usize>,
>
    decreases node, child_count(node) + 1,
{
    match node {
        BodyNode::Text { subtype } => if lowered(subtype@) == wanted {
            Some(prefix)
        } else {
            None
        },
        BodyNode::Multipart { bodies } => last_text_among(node, prefix, wanted, bodies@.len()),
        BodyNode::Other => None,
    }
}

/// The answer of `last_text_part` among the first `n` parts of the
/// multipart `node`.
pub open spec fn last_text_among(
    node: BodyNode,
    prefix: Seq<usize>,
    wanted: Seq<char>,
    n: nat,
) -> Option<Seq<usize>>
    decreases node, n,
{
    match node {
        BodyNode::Multipart { bodies } => if n == 0 || n > bodies@.len() {
            None
        } else {
            match last_text_part(bodies@[n - 1], prefix.push(n as usize), wanted) {
                Some(path) => Some(path),
                None => last_text_among(node, prefix, wanted, (n - 1) as nat),
            }
        },
        _ => None,
    }
}

/// The section path of the part to display within `node`, whose own path is
/// `prefix`: the last part of type `text/html`; only where there is none,
/// the last part of type `text/plain`. A text part of any other subtype is
/// never chosen.
pub open spec fn best_part(node: BodyNode, prefix: Seq<usize>) -> Option<Seq<usize>> {
    match last_text_part(node, prefix, "html"@) {
        Some(path) => Some(path),
        None => last_text_part(node, prefix, "plain"@),
    }
}

/// The view of an optional path.
pub open spec fn opt_path(p: Option<Vec<usize>>) -> Option<Seq<usize>> {
    match p {
        Some(v) => Some(v@),
        None => None,
    }
}

fn child_path(prefix: &Vec<usize>, number: usize) -> (r: Vec<usize>)
    ensures
        r@ == prefix@.push(number),
{
    let mut r = copy_path(prefix);
    r.push(number);
    r
}

fn copy_path(path: &Vec<usize>) -> (r: Vec<usize>)
    ensures
        r@ == path@,
{
    let mut r: Vec<usize> = Vec::new();
    let mut i: usize = 0;
    while i < path.len()
        invariant
            i <= path@.len(),
            r@ == path@.take(i as int),
        decreases path@.len() - i,
    {
        r.push(path[i]);
        i += 1;
        assert(path@.take(i as int) =~= path@.take(i - 1).push(path@[i - 1]));
    }
    assert(path@.take(path@.len() as int) =~= path@);
    r
}

/// Computes `last_text_part`.
fn find_last_text_part(bs: &BodyNode, prefix: &Vec<usize>, wanted: &Vec<char>) -> (r: Option<
    Vec<usize>,
>)
    ensures
        opt_path(r) == last_text_part(*bs, prefix@, wanted@),
    decreases bs,
{
    match bs {
        BodyNode::Text { subtype } => {
            let low = to_lowered(&chars_of(subtype.as_str()));
            if same_chars(&low, wanted) {
                Some(copy_path(prefix))
            } else {
                None
            }
        },
        BodyNode::Multipart { bodies } => {
            let mut best: Option<Vec<usize>> = None;
            let mut i: usize = 0;
            while i < bodies.len()
                invariant
                    i <= bodies@.len(),
                    *bs == (BodyNode::Multipart { bodies: *bodies }),
                    opt_path(best) == last_text_among(*bs, prefix@, wanted@, i as nat),
                decreases bodies@.len() - i,
            {
                let path = child_path(prefix, i + 1);
                proof {
                    vstd::std_specs::vec::axiom_vec_index_decreases(*bodies, i as int);
                }
                match find_last_text_part(&bodies[i], &path, wanted) {
                    Some(found) => {
                        best = Some(found);
                    },
                    None => {},
                }
                i += 1;
            }
            best
        },
        BodyNode::Other => None,
    }
}

/// Chooses the part to display from the structure `bs`, whose own section
/// path is `prefix`, and gives its section path: HTML is preferred, and
/// plain text is fallen back on; among parts of the same kind the last one
/// wins.
pub fn find_best_part(bs: &BodyNode, prefix: &Vec<usize>) -> (r: Option<Vec<usize>>)
    ensures
        opt_path(r) == best_part(*bs, prefix@),
{
    let html = chars_of("html");
    match find_last_text_part(bs, prefix, &html) {
        Some(path) => Some(path),
        None => {
            let plain = chars_of("plain");
            find_last_text_part(bs, prefix, &plain)
        },
    }
}

/// A section path in writing: its numbers with a dot between each two.
pub open spec fn section_text(path: Seq<usize>) -> Seq<char>
    decreases path.len(),
{
    if path.len() == 0 {
        Seq::empty()
    } else if path.len() == 1 {
        decimal(path[0] as nat)
    } else {
        section_text(path.drop_last()).push('.') + decimal(path.last() as nat)
    }
}

/// The items asked of the server to display a message: the chosen part and
/// its MIME headers where a part with a section path was chosen, the text
/// and the header of the whole message where none was.
pub open spec fn body_query(target: Option<Seq<usize>>) -> Seq<char> {
    match target {
        Some(path) => if path.len() > 0 {
            "(BODY.PEEK["@ + section_text(path) + ".MIME] BODY.PEEK["@ + section_text(path) + "])"@
        } else {
            WHOLE_QUERY@
        },
        None => WHOLE_QUERY@,
    }
}

fn section_chars(path: &Vec<usize>) -> (r: Vec<char>)
    ensures
        r@ == section_text(path@),
{
    let mut out: Vec<char> = Vec::new();
    let mut i: usize = 0;
    assert(path@.take(0) =~= Seq::<usize>::empty());
    while i < path.len()
        invariant
            i <= path@.len(),
            out@ == section_text(path@.take(i as int)),
        decreases path@.len() - i,
    {
        if i > 0 {
            out.push('.');
        }
        push_decimal(&mut out, path[i] as u64);
        i += 1;
        proof {
            let cur = path@.take(i as int);
            assert(cur.drop_last() =~= path@.take(i - 1));
            assert(cur.last() == path@[i - 1]);
            if i == 1 {
                assert(Seq::<char>::empty() + decimal(path@[0] as nat) =~= decimal(
                    path@[0] as nat,
                ));
            }
        }
    }
    assert(path@.take(path@.len() as int) =~= path@);
    out
}

/// Writes the section path as the server reads it.
pub fn section_path_string(path: &Vec<usize>) -> (r: String)
    ensures
        r@ == section_text(path@),
{
    string_of(&section_chars(path))
}

/// Writes the items to ask of the server for the chosen part.
pub fn body_fetch_query(target: &Option<Vec<usize>>) -> (r: String)
    ensures
        r@ == body_query(opt_path(*target)),
{
    match target {
        Some(path) => {
            if path.len() > 0 {
                let section = section_chars(path);
                let mut out = chars_of("(BODY.PEEK[");
                append_chars(&mut out, &section);
                append_str(&mut out, ".MIME] BODY.PEEK[");
                append_chars(&mut out, &section);
                append_str(&mut out, "])");
                string_of(&out)
            } else {
                String::from_str(WHOLE_QUERY)
            }
        },
        None => String::from_str(WHOLE_QUERY),
    }
}

/// What the server returned for the items of a body fetch.
pub struct FetchedBody {
    /// The header of the whole message.
    pub header: Option<Vec<u8>>,
    /// The text of the whole message.
    pub text: Option<Vec<u8>>,
    /// The whole message.
    pub body: Option<Vec<u8>>,
    /// The MIME headers of the chosen part.
    pub part_mime: Option<Vec<u8>>,
    /// The chosen part.
    pub part: Option<Vec<u8>>,
}

/// The bytes of an optional item, none where it is missing.
pub open spec fn or_no_bytes(b: Option<Seq<u8>>) -> Seq<u8> {
    match b {
        Some(s) => s,
        None => Seq::empty(),
    }
}

/// The bytes that are parsed for display. Where a part was chosen these are
/// its MIME headers, the part, and the text of the message if that came too;
/// where none was, the header and the text. Where all of these are missing
/// or empty, the whole message stands in, or else its text.
pub open spec fn payload_of(
    chosen: bool,
    header: Option<Seq<u8>>,
    text: Option<Seq<u8>>,
    body: Option<Seq<u8>>,
    part_mime: Option<Seq<u8>>,
    part: Option<Seq<u8>>,
) -> Seq<u8> {
    let first = if chosen {
        or_no_bytes(part_mime) + or_no_bytes(part) + or_no_bytes(text)
    } else {
        or_no_bytes(header) + or_no_bytes(text)
    };
    if first.len() > 0 {
        first
    } else if body is Some {
        or_no_bytes(body)
    } else {
        or_no_bytes(text)
    }
}

fn append_bytes(out: &mut Vec<u8>, item: &Option<Vec<u8>>)
    ensures
        final(out)@ == old(out)@ + or_no_bytes(opt_bytes(*item)),
{
    match item {
        Some(bytes) => {
            let mut i: usize = 0;
            while i < bytes.len()
                invariant
                    i <= bytes@.len(),
                    out@ == old(out)@ + bytes@.take(i as int),
                decreases bytes@.len() - i,
            {
                out.push(bytes[i]);
                i += 1;
                assert(bytes@.take(i as int) =~= bytes@.take(i - 1).push(bytes@[i - 1]));
            }
            assert(bytes@.take(bytes@.len() as int) =~= bytes@);
        },
        None => {
            assert(out@ + Seq::<u8>::empty() =~= out@);
        },
    }
}

/// Puts together the bytes to parse from what a body fetch returned.
/// `target` is the part that was chosen, if one was.
pub fn assemble_payload(target: &Option<Vec<usize>>, fetched: &FetchedBody) -> (r: Vec<u8>)
    ensures
        r@ == payload_of(
            opt_path(*target) matches Some(p) && p.len() > 0,
            opt_bytes(fetched.header),
            opt_bytes(fetched.text),
            opt_bytes(fetched.body),
            opt_bytes(fetched.part_mime),
            opt_bytes(fetched.part),
        ),
{
    let chosen = match target {
        Some(path) => path.len() > 0,
        None => false,
    };
    let mut out: Vec<u8> = Vec::new();
    if chosen {
        append_bytes(&mut out, &fetched.part_mime);
        append_bytes(&mut out, &fetched.part);
        append_bytes(&mut out, &fetched.text);
    } else {
        append_bytes(&mut out, &fetched.header);
        append_bytes(&mut out, &fetched.text);
    }
    if out.len() == 0 {
        if fetched.body.is_some() {
            append_bytes(&mut out, &fetched.body);
        } else {
            append_bytes(&mut out, &fetched.text);
        }
    }
    assert(out@ =~= payload_of(
        chosen,
        opt_bytes(fetched.header),
        opt_bytes(fetched.text),
        opt_bytes(fetched.body),
        opt_bytes(fetched.part_mime),
        opt_bytes(fetched.part),
    ));
    out
}

} // verus!
