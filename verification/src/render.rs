//! From the raw bytes of a message to what is shown of it: the HTML body
//! with its inline images redirected to local files, and the short preview
//! that stands for the message in the list.

use crate::mime::{
    collect_parts, collected, copy_bytes, parsed_view,
    CidCandidate, CidCandidateView, MimePart, MimeParts, MimePartView, };
use crate::outside::{
    groups_view, mime_parts_of, parse_mime_parts, regex_capture_groups, regex_groups,
    regex_replace_all, regex_replaced, text_of_bytes, utf8_lossy,
};
use crate::text::{
    append_chars, append_str, chars_of, decimal, is_ascii_alnum, is_ascii_alnum_char,
    lemma_trimmed_twice, push_decimal, replace_all, replaced, same_chars, string_of,
    take_chars, trim_chars, trimmed,
};
use vstd::prelude::*;

verus! {

/// The longest preview, in characters, before the ellipsis.
pub const PREVIEW_CHARS: usize = 160;

/// The largest inline image that is written to disk, in bytes.
pub const MAX_INLINE_BYTES: usize = 5 * 1024 * 1024;

/// The directory, below the application's cache directory, that holds the
/// inline images of all sessions.
pub const INLINE_ROOT: &'static str = "orbitmail_inline";

/// Matches a `src` attribute that refers to a content id, and captures the
/// id.
pub const CID_PATTERN: &'static str = "(?i)src\\s*=\\s*[\"']?\\s*cid:([^\"'\\s>]+)";

/// Matches a `style` element with its content.
pub const STYLE_PATTERN: &'static str = "(?si)<style[^>]*>.*?</style>";

/// Matches a `script` element with its content.
pub const SCRIPT_PATTERN: &'static str = "(?si)<script[^>]*>.*?</script>";

/// Matches an element hidden by an inline `display:none`, with its content.
pub const HIDDEN_PATTERN: &'static str = "(?si)<[^>]*display\\s*:\\s*none[^>]*>.*?</[^>]+>";

/// Matches a tag.
pub const TAG_PATTERN: &'static str = "(?si)<[^>]+>";

/// Matches the words of mailing-list boilerplate.
pub const BOILERPLATE_PATTERN: &'static str =
    "(?i)\\b(unsubscribe|subscribe|view in browser|click here)\\b";

/// Matches a run of white space.
pub const SPACE_PATTERN: &'static str = "\\s+";

/// `text` with the characters `&`, `<` and `>` written as HTML entities.
pub open spec fn html_escaped(text: Seq<char>) -> Seq<char> {
    replaced(replaced(replaced(text, "&"@, "&amp;"@), "<"@, "&lt;"@), ">"@, "&gt;"@)
}

/// `text` as preformatted HTML: escaped, and wrapped in a `pre` element that
/// keeps its line breaks.
pub open spec fn preformatted(text: Seq<char>) -> Seq<char> {
    "<pre style=\"white-space:pre-wrap;font-family:system-ui\">"@ + html_escaped(text) + "</pre>"@
}

fn replace_literal(text: &Vec<char>, from: &str, to: &str) -> (r: Vec<char>)
    ensures
        r@ == replaced(text@, from@, to@),
{
    let f = chars_of(from);
    let t = chars_of(to);
    replace_all(text, &f, &t)
}

/// Computes `preformatted`.
pub fn preformat(text: &str) -> (r: String)
    ensures
        r@ == preformatted(text@),
{
    let chars = chars_of(text);
    let a = replace_literal(&chars, "&", "&amp;");
    let b = replace_literal(&a, "<", "&lt;");
    let c = replace_literal(&b, ">", "&gt;");
    let mut out = chars_of("<pre style=\"white-space:pre-wrap;font-family:system-ui\">");
    append_chars(&mut out, &c);
    append_str(&mut out, "</pre>");
    string_of(&out)
}

/// The HTML shown for a message before its inline images are redirected:
/// the chosen HTML part; else the chosen plain-text part, preformatted; else
/// the text of the message as a whole, preformatted; and where the message
/// did not parse or has no text, its bytes read as text, preformatted.
pub open spec fn base_html(parsed: Option<Seq<MimePartView>>, lossy: Seq<char>) -> Seq<char> {
    match parsed {
        Some(parts) => {
            let found = collected(parts);
            match found.best_html {
                Some(html) => html,
                None => match found.best_text {
                    Some(text) => preformatted(text),
                    None => if parts.len() > 0 && parts[0].text is Some {
                        preformatted(parts[0].text->0)
                    } else {
                        preformatted(lossy)
                    },
                },
            }
        },
        None => preformatted(lossy),
    }
}

/// `cid` with every character that is no ASCII letter or digit turned into
/// an underscore.
pub open spec fn sanitized(cid: Seq<char>) -> Seq<char> {
    Seq::new(
        cid.len(),
        |i: int|
            if is_ascii_alnum(cid[i]) {
                cid[i]
            } else {
                '_'
            },
    )
}

/// The file extension for an image of type `mime`.
pub open spec fn image_ext(mime: Seq<char>) -> Seq<char> {
    if mime == "image/png"@ {
        "png"@
    } else if mime == "image/jpeg"@ || mime == "image/jpg"@ {
        "jpg"@
    } else if mime == "image/gif"@ {
        "gif"@
    } else if mime == "image/webp"@ {
        "webp"@
    } else {
        "bin"@
    }
}

/// The name of the file that holds the inline image `cid` of message `uid`.
pub open spec fn asset_file_name(uid: u32, cid: Seq<char>, mime: Seq<char>) -> Seq<char> {
    "uid_"@ + decimal(uid as nat) + "_cid_"@ + sanitized(cid) + "."@ + image_ext(mime)
}

/// The path of the file `name` in the directory `dir`.
pub open spec fn joined(dir: Seq<char>, name: Seq<char>) -> Seq<char> {
    if dir.len() == 0 {
        name
    } else if dir.last() == '/' || dir.last() == '\\' {
        dir + name
    } else {
        dir.push('/') + name
    }
}

/// The URL under which the embedded view is served the file at `path`: the
/// path with forward slashes, behind `asset://localhost/`.
pub open spec fn asset_url(path: Seq<char>) -> Seq<char> {
    "asset://localhost/"@ + replaced(path, "\\"@, "/"@)
}

/// The name of the directory that holds the inline images of the session
/// that began at `now` seconds in the process `pid`.
pub open spec fn session_dir(now: u64, pid: u32) -> Seq<char> {
    "session_"@ + decimal(now as nat) + "_"@ + decimal(pid as nat)
}

/// Computes `session_dir`.
pub fn get_session_dir_name(now: u64, pid: u32) -> (r: String)
    ensures
        r@ == session_dir(now, pid),
{
    let mut out = chars_of("session_");
    push_decimal(&mut out, now);
    append_str(&mut out, "_");
    push_decimal(&mut out, pid as u64);
    string_of(&out)
}

/// An inline image to be written to disk, unless the file is there already.
pub struct InlineAsset {
    pub path: String,
    pub bytes: Vec<u8>,
}

/// The mathematical content of an `InlineAsset`.
pub struct InlineAssetView {
    pub path: Seq<char>,
    pub bytes: Seq<u8>,
}

impl View for InlineAsset {
    type V = InlineAssetView;

    open spec fn view(&self) -> InlineAssetView {
        InlineAssetView { path: self.path@, bytes: self.bytes@ }
    }
}

/// The views of a list of assets.
pub open spec fn assets_view(a: Seq<InlineAsset>) -> Seq<InlineAssetView> {
    Seq::new(a.len(), |i: int| a[i]@)
}

/// Whether the content id `cid` is among the ids that the HTML refers to.
pub open spec fn is_referenced(groups: Seq<Option<Seq<char>>>, cid: Seq<char>) -> bool {
    groups.contains(Some(cid))
}

/// The path of the file for the candidate `c` of message `uid`.
pub open spec fn asset_path(uid: u32, c: CidCandidateView, dir: Seq<char>) -> Seq<char> {
    joined(dir, asset_file_name(uid, c.cid, c.mime))
}

/// `html` with the references to the inline images redirected: for each
/// candidate in turn whose id is referred to, every `cid:` followed by that
/// id becomes the URL of the candidate's file.
pub open spec fn cid_rewritten(
    html: Seq<char>,
    candidates: Seq<CidCandidateView>,
    groups: Seq<Option<Seq<char>>>,
    uid: u32,
    dir: Seq<char>,
) -> Seq<char>
    decreases candidates.len(),
{
    if candidates.len() == 0 {
        html
    } else {
        let prev = cid_rewritten(html, candidates.drop_last(), groups, uid, dir);
        let c = candidates.last();
        if is_referenced(groups, c.cid) {
            replaced(prev, "cid:"@ + c.cid, asset_url(asset_path(uid, c, dir)))
        } else {
            prev
        }
    }
}

/// The files to write for the inline images: one for each candidate whose
/// id is referred to and whose body is no larger than `MAX_INLINE_BYTES`.
pub open spec fn inline_assets(
    candidates: Seq<CidCandidateView>,
    groups: Seq<Option<Seq<char>>>,
    bodies: Seq<Seq<u8>>,
    uid: u32,
    dir: Seq<char>,
) -> Seq<InlineAssetView>
    decreases candidates.len(),
{
    if candidates.len() == 0 {
        Seq::empty()
    } else {
        let prev = inline_assets(candidates.drop_last(), groups, bodies, uid, dir);
        let c = candidates.last();
        if is_referenced(groups, c.cid) && c.part_index < bodies.len() && bodies[c.part_index as int].len()
            <= MAX_INLINE_BYTES {
            prev.push(
                InlineAssetView {
                    path: asset_path(uid, c, dir),
                    bytes: bodies[c.part_index as int],
                },
            )
        } else {
            prev
        }
    }
}

fn is_literal(s: &Vec<char>, lit: &str) -> (r: bool)
    ensures
        r == (s@ == lit@),
{
    let l = chars_of(lit);
    same_chars(s, &l)
}

/// Computes `sanitized`.
pub fn sanitize_cid(cid: &Vec<char>) -> (r: Vec<char>)
    ensures
        r@ == sanitized(cid@),
{
    let mut r: Vec<char> = Vec::new();
    let mut i: usize = 0;
    while i < cid.len()
        invariant
            i <= cid@.len(),
            r@ == sanitized(cid@).take(i as int),
        decreases cid@.len() - i,
    {
        let c = cid[i];
        r.push(if is_ascii_alnum_char(c) { c } else { '_' });
        i += 1;
        assert(sanitized(cid@).take(i as int) =~= sanitized(cid@).take(i - 1).push(
            sanitized(cid@)[i - 1],
        ));
    }
    assert(sanitized(cid@).take(cid@.len() as int) =~= sanitized(cid@));
    r
}

/// Computes `image_ext`.
pub fn ext_for_mime(mime: &str) -> (r: &'static str)
    ensures
        r@ == image_ext(mime@),
{
    let m = chars_of(mime);
    if is_literal(&m, "image/png") {
        "png"
    } else if is_literal(&m, "image/jpeg") || is_literal(&m, "image/jpg") {
        "jpg"
    } else if is_literal(&m, "image/gif") {
        "gif"
    } else if is_literal(&m, "image/webp") {
        "webp"
    } else {
        "bin"
    }
}

fn candidate_path(uid: u32, c: &CidCandidate, dir: &Vec<char>) -> (r: Vec<char>)
    ensures
        r@ == asset_path(uid, c@, dir@),
{
    let mut name = chars_of("uid_");
    push_decimal(&mut name, uid as u64);
    append_str(&mut name, "_cid_");
    let safe = sanitize_cid(&chars_of(c.cid.as_str()));
    append_chars(&mut name, &safe);
    append_str(&mut name, ".");
    append_str(&mut name, ext_for_mime(c.mime.as_str()));
    let n = dir.len();
    let mut path: Vec<char> = Vec::new();
    append_chars(&mut path, dir);
    if n > 0 && !(dir[n - 1] == '/' || dir[n - 1] == '\\') {
        path.push('/');
    }
    append_chars(&mut path, &name);
    assert(path@ =~= asset_path(uid, c@, dir@));
    path
}

fn url_of_path(path: &Vec<char>) -> (r: Vec<char>)
    ensures
        r@ == asset_url(path@),
{
    let slashed = replace_literal(path, "\\", "/");
    let mut url = chars_of("asset://localhost/");
    append_chars(&mut url, &slashed);
    url
}

fn group_has(groups: &Vec<Option<String>>, cid: &String) -> (r: bool)
    ensures
        r == is_referenced(groups_view(Some(*groups))->0, cid@),
{
    let ghost views = groups_view(Some(*groups))->0;
    let mut i: usize = 0;
    while i < groups.len()
        invariant
            i <= groups@.len(),
            views == groups_view(Some(*groups))->0,
            forall|j: int| 0 <= j < i ==> views[j] != Some(cid@),
        decreases groups@.len() - i,
    {
        match &groups[i] {
            Some(g) => {
                if *g == *cid {
                    assert(views[i as int] == Some(cid@));
                    return true;
                }
            },
            None => {},
        }
        i += 1;
    }
    false
}

/// What is shown of a message, and what has to be on disk for it.
pub struct Displayable {
    pub html: String,
    pub assets: Vec<InlineAsset>,
}

/// Redirects the references that `html` makes to the inline images of
/// `parts`, given what the search for `CID_PATTERN` found in `html`, and
/// lists the files that the redirected references need. `dir` is the
/// directory for the files of this session.
pub fn apply_cid_rewrites(
    uid: u32,
    html: String,
    parts: &MimeParts,
    groups: &Vec<Option<String>>,
    dir: &str,
) -> (r: Displayable)
    ensures
        r.html@ == cid_rewritten(
            html@,
            parts@.cid_candidates,
            groups_view(Some(*groups))->0,
            uid,
            dir@,
        ),
        assets_view(r.assets@) == inline_assets(
            parts@.cid_candidates,
            groups_view(Some(*groups))->0,
            parts@.all_parts,
            uid,
            dir@,
        ),
{
    let ghost found = groups_view(Some(*groups))->0;
    let ghost cands = parts@.cid_candidates;
    let ghost bodies = parts@.all_parts;
    let dir_chars = chars_of(dir);
    let mut text = chars_of(html.as_str());
    let mut assets: Vec<InlineAsset> = Vec::new();
    let mut i: usize = 0;
    assert(cands.take(0) =~= Seq::<CidCandidateView>::empty());
    assert(assets_view(assets@) =~= Seq::<InlineAssetView>::empty());
    while i < parts.cid_candidates.len()
        invariant
            i <= parts.cid_candidates@.len(),
            found == groups_view(Some(*groups))->0,
            cands == parts@.cid_candidates,
            bodies == parts@.all_parts,
            dir_chars@ == dir@,
            text@ == cid_rewritten(html@, cands.take(i as int), found, uid, dir@),
            assets_view(assets@) == inline_assets(cands.take(i as int), found, bodies, uid, dir@),
        decreases parts.cid_candidates@.len() - i,
    {
        let c = &parts.cid_candidates[i];
        assert(cands[i as int] == c@);
        assert(cands.take(i + 1).drop_last() =~= cands.take(i as int));
        assert(cands.take(i + 1).last() == c@);
        if group_has(groups, &c.cid) {
            let path = candidate_path(uid, c, &dir_chars);
            let url = url_of_path(&path);
            let mut pattern = chars_of("cid:");
            append_chars(&mut pattern, &chars_of(c.cid.as_str()));
            text = replace_all(&text, &pattern, &url);
            if c.part_index < parts.all_parts.len() {
                let body = &parts.all_parts[c.part_index];
                assert(bodies[c.part_index as int] == body@);
                if body.len() <= MAX_INLINE_BYTES {
                    let ghost had = assets_view(assets@);
                    let asset = InlineAsset { path: string_of(&path), bytes: copy_bytes(body) };
                    assets.push(asset);
                    assert(assets_view(assets@) =~= had.push(asset@));
                }
            }
        }
        i += 1;
    }
    assert(cands.take(parts.cid_candidates@.len() as int) =~= cands);
    Displayable { html: string_of(&text), assets }
}

/// What the search for `CID_PATTERN` in `html` found, as far as the
/// redirection goes: nothing where the pattern was refused.
pub open spec fn cid_groups(html: Seq<char>) -> Seq<Option<Seq<char>>> {
    match regex_groups(CID_PATTERN@, html, 1) {
        Some(groups) => groups,
        None => Seq::empty(),
    }
}

/// Redirects the references that `html` makes to the inline images of
/// `parts` to files in `dir`, and lists the files to write.
pub fn rewrite_cid_images(uid: u32, html: String, parts: &MimeParts, dir: &str) -> (r: Displayable)
    ensures
        r.html@ == cid_rewritten(html@, parts@.cid_candidates, cid_groups(html@), uid, dir@),
        assets_view(r.assets@) == inline_assets(
            parts@.cid_candidates,
            cid_groups(html@),
            parts@.all_parts,
            uid,
            dir@,
        ),
{
    let groups = match regex_capture_groups(CID_PATTERN, html.as_str(), 1) {
        Some(g) => g,
        None => Vec::new(),
    };
    assert(groups_view(Some(groups))->0 =~= cid_groups(html@));
    apply_cid_rewrites(uid, html, parts, &groups, dir)
}

/// The HTML shown for the message of `uid` whose bytes parsed to `parsed`
/// and read as text give `lossy`.
pub open spec fn displayed_html(
    parsed: Option<Seq<MimePartView>>,
    lossy: Seq<char>,
    uid: u32,
    dir: Seq<char>,
) -> Seq<char> {
    let base = base_html(parsed, lossy);
    match parsed {
        Some(parts) => cid_rewritten(base, collected(parts).cid_candidates, cid_groups(base), uid, dir),
        None => base,
    }
}

/// The files to write for the message of `uid` whose bytes parsed to
/// `parsed` and read as text give `lossy`.
pub open spec fn displayed_assets(
    parsed: Option<Seq<MimePartView>>,
    lossy: Seq<char>,
    uid: u32,
    dir: Seq<char>,
) -> Seq<InlineAssetView> {
    let base = base_html(parsed, lossy);
    match parsed {
        Some(parts) => inline_assets(
            collected(parts).cid_candidates,
            cid_groups(base),
            collected(parts).all_parts,
            uid,
            dir,
        ),
        None => Seq::empty(),
    }
}

/// Makes what is shown of a message from the outcome of parsing it.
/// `lossy` is the message's bytes read as text, for the case that nothing
/// better is found.
pub fn display_parsed(uid: u32, parsed: &Option<Vec<MimePart>>, lossy: &str, dir: &str) -> (r:
    Displayable)
    ensures
        r.html@ == displayed_html(parsed_view(*parsed), lossy@, uid, dir@),
        assets_view(r.assets@) == displayed_assets(parsed_view(*parsed), lossy@, uid, dir@),
{
    match parsed {
        Some(parts) => {
            let found = collect_parts(parts);
            let base = match &found.best_html {
                Some(html) => html.clone(),
                None => match &found.best_text {
                    Some(text) => preformat(text.as_str()),
                    None => {
                        if parts.len() > 0 && parts[0].text.is_some() {
                            match &parts[0].text {
                                Some(text) => preformat(text.as_str()),
                                None => preformat(lossy),
                            }
                        } else {
                            preformat(lossy)
                        }
                    },
                },
            };
            rewrite_cid_images(uid, base, &found, dir)
        },
        None => {
            let r = Displayable { html: preformat(lossy), assets: Vec::new() };
            assert(assets_view(r.assets@) =~= Seq::<InlineAssetView>::empty());
            r
        },
    }
}

/// Makes what is shown of the message `uid` from its raw bytes.
pub fn extract_displayable_body(uid: u32, raw_email: &[u8], dir: &str) -> (r: Displayable)
    ensures
        r.html@ == displayed_html(mime_parts_of(raw_email@), utf8_lossy(raw_email@), uid, dir@),
        assets_view(r.assets@) == displayed_assets(
            mime_parts_of(raw_email@),
            utf8_lossy(raw_email@),
            uid,
            dir@,
        ),
{
    let parsed = parse_mime_parts(raw_email);
    let lossy = text_of_bytes(raw_email);
    display_parsed(uid, &parsed, lossy.as_str(), dir)
}

/// What a replacement by pattern makes of `text`; `text` itself where the
/// pattern was refused.
pub open spec fn regex_step(pattern: Seq<char>, text: Seq<char>, rep: Seq<char>) -> Seq<char> {
    match regex_replaced(pattern, text, rep) {
        Some(t) => t,
        None => text,
    }
}

fn regex_pass(pattern: &str, text: String, rep: &str) -> (r: String)
    ensures
        r@ == regex_step(pattern@, text@, rep@),
{
    match regex_replace_all(pattern, text.as_str(), rep) {
        Some(t) => t,
        None => text,
    }
}

/// `html` with its markup turned into spaces: `style` and `script`
/// elements, elements hidden by `display:none`, and then every tag that is
/// left.
pub open spec fn markup_stripped(html: Seq<char>) -> Seq<char> {
    regex_step(
        TAG_PATTERN@,
        regex_step(
            HIDDEN_PATTERN@,
            regex_step(SCRIPT_PATTERN@, regex_step(STYLE_PATTERN@, html, " "@), " "@),
            " "@,
        ),
        " "@,
    )
}

/// `text` with the common HTML entities replaced by the characters they
/// stand for.
pub open spec fn entities_replaced(text: Seq<char>) -> Seq<char> {
    replaced(
        replaced(
            replaced(
                replaced(replaced(replaced(text, "&nbsp;"@, " "@), "&amp;"@, "&"@), "&lt;"@, "<"@),
                "&gt;"@,
                ">"@,
            ),
            "&quot;"@,
            "\""@,
        ),
        "&#39;"@,
        "'"@,
    )
}

/// Computes `entities_replaced`.
pub fn replace_entities(text: &str) -> (r: String)
    ensures
        r@ == entities_replaced(text@),
{
    let t0 = chars_of(text);
    let t1 = replace_literal(&t0, "&nbsp;", " ");
    let t2 = replace_literal(&t1, "&amp;", "&");
    let t3 = replace_literal(&t2, "&lt;", "<");
    let t4 = replace_literal(&t3, "&gt;", ">");
    let t5 = replace_literal(&t4, "&quot;", "\"");
    let t6 = replace_literal(&t5, "&#39;", "'");
    string_of(&t6)
}

/// The preview made of a text whose white space is already collapsed: the
/// text trimmed, and cut to `PREVIEW_CHARS` characters with an ellipsis
/// where it is longer.
pub open spec fn preview_finished(text: Seq<char>) -> Seq<char> {
    let t = trimmed(text);
    if t.len() > PREVIEW_CHARS {
        t.take(PREVIEW_CHARS as int) + "..."@
    } else {
        t
    }
}

/// Computes `preview_finished`.
pub fn finish_preview(text: &str) -> (r: String)
    ensures
        r@ == preview_finished(text@),
{
    let t = trim_chars(&chars_of(text));
    if t.len() > PREVIEW_CHARS {
        let mut cut = take_chars(&t, PREVIEW_CHARS);
        append_str(&mut cut, "...");
        string_of(&cut)
    } else {
        string_of(&t)
    }
}

/// The preview of the HTML body `html`.
pub open spec fn preview_of(html: Seq<char>) -> Seq<char> {
    preview_finished(
        regex_step(
            SPACE_PATTERN@,
            regex_step(BOILERPLATE_PATTERN@, entities_replaced(markup_stripped(html)), ""@),
            " "@,
        ),
    )
}

/// Makes the preview of an HTML body: markup is stripped, entities are
/// replaced, boilerplate words are dropped, white space is collapsed, and
/// the result is trimmed and cut.
pub fn generate_preview(html: &str) -> (r: String)
    ensures
        r@ == preview_of(html@),
{
    let mut text = String::from_str(html);
    text = regex_pass(STYLE_PATTERN, text, " ");
    text = regex_pass(SCRIPT_PATTERN, text, " ");
    text = regex_pass(HIDDEN_PATTERN, text, " ");
    text = regex_pass(TAG_PATTERN, text, " ");
    text = replace_entities(text.as_str());
    text = regex_pass(BOILERPLATE_PATTERN, text, "");
    text = regex_pass(SPACE_PATTERN, text, " ");
    finish_preview(text.as_str())
}

/// Finishing a preview twice is finishing it once, for every text that is
/// no longer than `PREVIEW_CHARS` characters once trimmed.
pub proof fn lemma_finish_preview_idempotent(text: Seq<char>)
    requires
        trimmed(text).len() <= PREVIEW_CHARS,
    ensures
        preview_finished(preview_finished(text)) == preview_finished(text),
{
    lemma_trimmed_twice(text);
}

} // verus!
