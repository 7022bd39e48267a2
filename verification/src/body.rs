//! Fetching a message body through the two tiers of cache: the in-memory
//! cache first, the store second, the server last.
//!
//! The caller talks to the server between the two functions of this module;
//! `crate::bodystructure` tells it what to ask for.

use crate::body_cache::{
    cache_valid, get_cached_body, has_uid, insert_cached_body, inserted, position_of, touched,
    BodyCache,
};
use crate::message::INBOX;
use crate::mime::opt_text;
use crate::outside::{mime_parts_of, utf8_lossy};
use crate::render::{
    assets_view, displayed_assets, displayed_html, extract_displayable_body, generate_preview,
    preview_of, InlineAsset,
};
use crate::store::{
    find_row, get_message_body_cache, row_with_body, update_message_body,
    with_row_changed, RowView, Store,
};
use vstd::prelude::*;

verus! {

/// How many bodies may be fetched from the server at the same time.
pub const BODY_FETCH_PERMITS: usize = 3;

/// Why a body could not be had.
#[derive(Clone, Copy, Debug, PartialEq, Eq, Structural)]
pub enum BodyError {
    /// The server returned nothing to display.
    NotRetrieved,
}

impl BodyError {
    /// The error in words.
    pub fn message(&self) -> (r: String)
        ensures
            r@ == "Could not retrieve message body."@,
    {
        String::from_str("Could not retrieve message body.")
    }
}

/// What a fetch has made of a message.
pub struct FetchedDisplay {
    /// The body as it is shown.
    pub html: String,
    /// The preview that stands for the message in the list.
    pub snippet: String,
    /// The inline images to write to disk, each unless its file exists.
    pub assets: Vec<InlineAsset>,
}

/// The body that the store holds for the message `uid` of the inbox.
pub open spec fn stored_body(rows: Seq<RowView>, uid: u32) -> Option<Seq<char>> {
    match find_row(rows, INBOX@, uid) {
        Some(row) => if row.body_fetched {
            row.body
        } else {
            None
        },
        None => None,
    }
}

/// The body of the message `uid` as far as it can be had without the
/// server. A body in the in-memory cache is returned and counts as accessed;
/// else a body in the store is returned and enters the in-memory cache; else
/// there is none, and both stay as they are.
pub fn get_message_body(cache: &mut BodyCache, store: &Store, uid: u32) -> (r: Option<String>)
    ensures
        has_uid(old(cache)@, uid) ==> {
            &&& opt_text(r) == Some(old(cache)@[position_of(old(cache)@, uid)].1)
            &&& final(cache)@ == touched(old(cache)@, uid)
        },
        !has_uid(old(cache)@, uid) ==> {
            &&& opt_text(r) == stored_body(store@.rows, uid)
            &&& final(cache)@ == match stored_body(store@.rows, uid) {
                Some(body) => inserted(old(cache)@, uid, body),
                None => old(cache)@,
            }
        },
        cache_valid(final(cache)@),
{
    match get_cached_body(cache, uid) {
        Some(body) => Some(body),
        None => {
            match get_message_body_cache(store, INBOX, uid) {
                Some(body) => {
                    insert_cached_body(cache, uid, body.clone());
                    Some(body)
                },
                None => None,
            }
        },
    }
}

/// Renders the bytes fetched for the message `uid`, stores the rendered body
/// and its preview in the store, and seeds the in-memory cache with it.
/// `dir` is the directory for the inline images of this session; the files
/// listed in the answer are to be written there unless they exist. Where
/// the server returned no bytes, nothing changes and the answer is
/// `NotRetrieved`.
pub fn fetch_and_cache_body_internal(
    cache: &mut BodyCache,
    store: &mut Store,
    uid: u32,
    payload: &[u8],
    dir: &str,
) -> (r: Result<FetchedDisplay, BodyError>)
    ensures
        payload@.len() == 0 ==> {
            &&& r is Err
            &&& r->Err_0 == BodyError::NotRetrieved
            &&& final(cache)@ == old(cache)@
            &&& final(store)@ == old(store)@
        },
        payload@.len() > 0 ==> {
            let html = displayed_html(mime_parts_of(payload@), utf8_lossy(payload@), uid, dir@);
            &&& r is Ok
            &&& r->Ok_0.html@ == html
            &&& r->Ok_0.snippet@ == preview_of(html)
            &&& assets_view(r->Ok_0.assets@) == displayed_assets(
                mime_parts_of(payload@),
                utf8_lossy(payload@),
                uid,
                dir@,
            )
            &&& final(store)@.rows == with_row_changed(
                old(store)@.rows,
                INBOX@,
                uid,
                |row: RowView| row_with_body(row, html, preview_of(html)),
            )
            &&& final(store)@.validity == old(store)@.validity
            &&& final(cache)@ == inserted(old(cache)@, uid, html)
        },
{
    if payload.len() == 0 {
        return Err(BodyError::NotRetrieved);
    }
    let shown = extract_displayable_body(uid, payload, dir);
    let preview = generate_preview(shown.html.as_str());
    update_message_body(store, INBOX, uid, shown.html.as_str(), preview.as_str());
    insert_cached_body(cache, uid, shown.html.clone());
    Ok(FetchedDisplay { html: shown.html, snippet: preview, assets: shown.assets })
}

} // verus!
