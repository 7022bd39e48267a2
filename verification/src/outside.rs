//! The calls that the library makes into other crates.
//!
//! Nothing in this file is proved. Each function states what the library
//! relies on from the code it calls; where that code's result cannot be
//! written down in a few lines, it is given a name, and the rest of the
//! library speaks of the result by that name.

use crate::mime::{parsed_view, opt_text, MimeHeader, MimePart, MimePartView};
use vstd::prelude::*;

verus! {

/// The parts that `mailparse` finds in the message `raw`, in depth-first
/// pre-order with the message itself first, or `None` where it cannot parse
/// the message.
pub uninterp spec fn mime_parts_of(raw: Seq<u8>) -> Option<Seq<MimePartView>>;

/// Calls `mailparse::parse_mail` and lists the parts that
/// `ParsedMail::parts` yields. Of each part it takes `ctype.mimetype`, the
/// name and value of each header (`MailHeader::get_key`, `get_value`), the
/// number of its subparts, and the results of `get_body_raw` and `get_body`,
/// each `None` where the call failed. The contract claims only that the
/// outcome is a function of the bytes.
#[verifier::external_body]
pub(crate) fn parse_mime_parts(raw: &[u8]) -> (r: Option<Vec<MimePart>>)
    ensures
        parsed_view(r) == mime_parts_of(raw@),
{
    let mail = mailparse::parse_mail(raw).ok()?;
    let part = |p: &mailparse::ParsedMail| MimePart {
        mimetype: p.ctype.mimetype.clone(),
        headers: p.headers.iter().map(|h| MimeHeader { name: h.get_key(), value: h.get_value() }).collect(),
        children: p.subparts.len(),
        raw: p.get_body_raw().ok(),
        text: p.get_body().ok(),
    };
    Some(mail.parts().map(part).collect())
}

/// The text that `regex` makes of `text` by replacing every match of
/// `pattern` with `rep`, or `None` where `pattern` is no regular expression
/// that `regex` accepts.
pub uninterp spec fn regex_replaced(pattern: Seq<char>, text: Seq<char>, rep: Seq<char>) -> Option<
    Seq<char>,
>;

/// Compiles `pattern` with `regex::Regex::new` and calls
/// `Regex::replace_all` on `text` with the replacement `rep`. The contract
/// claims only that the outcome is a function of the three texts.
#[verifier::external_body]
pub(crate) fn regex_replace_all(pattern: &str, text: &str, rep: &str) -> (r: Option<String>)
    ensures
        opt_text(r) == regex_replaced(pattern@, text@, rep@),
{
    let re = regex::Regex::new(pattern).ok()?;
    Some(re.replace_all(text, rep).into_owned())
}

/// For each match of `pattern` that `regex` finds in `text`, from left to
/// right, what capture group `group` matched, or `None` where the group took
/// no part in the match; `None` as a whole where `pattern` is no regular
/// expression that `regex` accepts.
pub uninterp spec fn regex_groups(pattern: Seq<char>, text: Seq<char>, group: nat) -> Option<
    Seq<Option<Seq<char>>>,
>;

/// The views of the outcome of a capture search.
pub open spec fn groups_view(found: Option<Vec<Option<String>>>) -> Option<Seq<Option<Seq<char>>>> {
    match found {
        Some(v) => Some(Seq::new(v@.len(), |i: int| opt_text(v@[i]))),
        None => None,
    }
}

/// Compiles `pattern` with `regex::Regex::new`, walks over
/// `Regex::captures_iter` on `text` and takes `Captures::get(group)` of each
/// match as a string. The contract claims only that the outcome is a
/// function of the arguments.
#[verifier::external_body]
pub(crate) fn regex_capture_groups(pattern: &str, text: &str, group: usize) -> (r: Option<
    Vec<Option<String>>,
>)
    ensures
        groups_view(r) == regex_groups(pattern@, text@, group as nat),
{
    let re = regex::Regex::new(pattern).ok()?;
    Some(re.captures_iter(text).map(|c| c.get(group).map(|m| m.as_str().to_string())).collect())
}

/// The seconds since the Unix epoch that `chrono` reads from the RFC 2822
/// date `date`, or `None` where it cannot read one.
pub uninterp spec fn rfc2822_seconds(date: Seq<char>) -> Option<i64>;

/// Calls `chrono::DateTime::parse_from_rfc2822` and takes
/// `DateTime::timestamp` of the result. The contract claims only that the
/// outcome is a function of the text.
#[verifier::external_body]
pub(crate) fn parse_rfc2822(date: &str) -> (r: Option<i64>)
    ensures
        r == rfc2822_seconds(date@),
{
    chrono::DateTime::parse_from_rfc2822(date).ok().map(|d| d.timestamp())
}

/// The string member `key` of the JSON object written in `body`, or `None`
/// where `body` is no JSON text, no object, or has no string under `key`.
pub uninterp spec fn json_text_member(body: Seq<char>, key: Seq<char>) -> Option<Seq<char>>;

/// Parses `body` with `serde_json::from_str` into a `Value`, indexes it by
/// `key` and takes `Value::as_str`. The contract claims only that the
/// outcome is a function of the two texts.
#[verifier::external_body]
pub(crate) fn json_text_field(body: &str, key: &str) -> (r: Option<String>)
    ensures
        opt_text(r) == json_text_member(body@, key@),
{
    let value: serde_json::Value = serde_json::from_str(body).ok()?;
    value[key].as_str().map(|s| s.to_string())
}

/// The integer member `key` of the JSON object written in `body`, or `None`
/// where `body` is no JSON text, no object, or has no integer that fits
/// `i64` under `key`.
pub uninterp spec fn json_int_member(body: Seq<char>, key: Seq<char>) -> Option<i64>;

/// Parses `body` with `serde_json::from_str` into a `Value`, indexes it by
/// `key` and takes `Value::as_i64`. The contract claims only that the
/// outcome is a function of the two texts.
#[verifier::external_body]
pub(crate) fn json_int_field(body: &str, key: &str) -> (r: Option<i64>)
    ensures
        r == json_int_member(body@, key@),
{
    let value: serde_json::Value = serde_json::from_str(body).ok()?;
    value[key].as_i64()
}

/// The upper-case hexadecimal digit for `d`, which is below sixteen.
pub open spec fn hex_digit(d: nat) -> char {
    if d < 10 {
        (('0' as u8) + (d as u8)) as char
    } else {
        (('A' as u8) + ((d - 10) as u8)) as char
    }
}

/// One byte in the `application/x-www-form-urlencoded` syntax: letters,
/// digits and `*-._` stand for themselves, a space becomes `+`, and any
/// other byte becomes `%` and its two hexadecimal digits.
pub open spec fn form_encoded_byte(b: u8) -> Seq<char> {
    if b == 0x2A || b == 0x2D || b == 0x2E || b == 0x5F || (0x30 <= b <= 0x39) || (0x41 <= b
        <= 0x5A) || (0x61 <= b <= 0x7A) {
        seq![b as char]
    } else if b == 0x20 {
        seq!['+']
    } else {
        seq!['%', hex_digit((b / 16) as nat), hex_digit((b % 16) as nat)]
    }
}

/// A byte string in the `application/x-www-form-urlencoded` syntax.
pub open spec fn form_encoded(input: Seq<u8>) -> Seq<char>
    decreases input.len(),
{
    if input.len() == 0 {
        Seq::empty()
    } else {
        form_encoded(input.drop_last()) + form_encoded_byte(input.last())
    }
}

/// Joins the pieces that `url::form_urlencoded::byte_serialize` yields for
/// `input`. The contract states the serializer's rule byte by byte.
#[verifier::external_body]
pub(crate) fn form_encode(input: &[u8]) -> (r: String)
    ensures
        r@ == form_encoded(input@),
{
    url::form_urlencoded::byte_serialize(input).collect()
}

/// The text that std makes of `bytes` read as UTF-8, with the replacement
/// character in place of what is no UTF-8.
pub uninterp spec fn utf8_lossy(bytes: Seq<u8>) -> Seq<char>;

/// Calls `String::from_utf8_lossy`. The contract claims only that the
/// outcome is a function of the bytes.
#[verifier::external_body]
pub(crate) fn text_of_bytes(bytes: &[u8]) -> (r: String)
    ensures
        r@ == utf8_lossy(bytes@),
{
    String::from_utf8_lossy(bytes).into_owned()
}

} // verus!
