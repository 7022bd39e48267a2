//! Keeping the access token of the active account fresh: when to ask the
//! provider for a new one, what to send, and what to make of the answer.

use crate::outside::{
    form_encode, form_encoded, json_int_field, json_int_member, json_text_field, json_text_member,
};
use crate::text::{append_str, chars_of, string_of};
use vstd::prelude::*;
use vstd::string::StringSliceAdditionalSpecFns;

verus! {

/// Where a new access token is asked for.
pub const TOKEN_ENDPOINT: &'static str = "https://oauth2.googleapis.com/token";

/// The content type of the request for a new access token.
pub const FORM_CONTENT_TYPE: &'static str = "application/x-www-form-urlencoded";

/// The life of an access token, in seconds, where the provider names none.
pub const DEFAULT_EXPIRES_IN: i64 = 3600;

/// An account and its tokens.
#[derive(Debug)]
pub struct Account {
    pub id: String,
    pub email: String,
    pub access_token: String,
    pub refresh_token: String,
    /// When the access token expires, in seconds since the Unix epoch.
    pub expires_at: i64,
}

/// What the user interface is told of an account.
#[derive(Debug)]
pub struct UserProfile {
    pub id: String,
    pub email: String,
}

/// The outcome of a bootstrap.
#[derive(Debug)]
pub struct BootstrapResult {
    /// The active account, if there is one.
    pub user: Option<UserProfile>,
    /// Whether the user has to sign in again: the access token is missing or
    /// has expired.
    pub needs_refresh: bool,
}

/// Whether a new access token is to be asked for at time `now`: the token
/// has expired and there is a refresh token.
pub fn should_refresh(account: &Account, now: i64) -> (r: bool)
    ensures
        r == (account.expires_at <= now && account.refresh_token@.len() > 0),
{
    account.expires_at <= now && !account.refresh_token.as_str().is_empty()
}

/// The body of the request for a new access token.
pub open spec fn refresh_body(client_id: Seq<u8>, client_secret: Seq<u8>, refresh_token: Seq<u8>) -> Seq<
    char,
> {
    "client_id="@ + form_encoded(client_id) + "&client_secret="@ + form_encoded(client_secret)
        + "&refresh_token="@ + form_encoded(refresh_token) + "&grant_type=refresh_token"@
}

/// Writes the body of the request for a new access token, each value in the
/// form encoding of its UTF-8 bytes.
pub fn refresh_request_body(client_id: &str, client_secret: &str, refresh_token: &str) -> (r: String)
    ensures
        r@ == refresh_body(
            client_id.spec_bytes(),
            client_secret.spec_bytes(),
            refresh_token.spec_bytes(),
        ),
{
    let mut out = chars_of("client_id=");
    append_str(&mut out, form_encode(client_id.as_bytes()).as_str());
    append_str(&mut out, "&client_secret=");
    append_str(&mut out, form_encode(client_secret.as_bytes()).as_str());
    append_str(&mut out, "&refresh_token=");
    append_str(&mut out, form_encode(refresh_token.as_bytes()).as_str());
    append_str(&mut out, "&grant_type=refresh_token");
    string_of(&out)
}

/// The life of a token in seconds: what the provider named, or
/// `DEFAULT_EXPIRES_IN`.
pub open spec fn lifetime(expires_in: Option<i64>) -> i64 {
    match expires_in {
        Some(secs) => secs,
        None => DEFAULT_EXPIRES_IN,
    }
}

/// Whether the time at which a token granted at `now` expires can be
/// written down.
pub open spec fn expiry_fits(now: i64, expires_in: Option<i64>) -> bool {
    i64::MIN <= now + lifetime(expires_in) <= i64::MAX
}

/// Takes over a granted access token: the account gets the token, and
/// expires `expires_in` seconds after `now`.
pub fn apply_token_grant(account: &mut Account, access_token: &str, expires_in: Option<i64>, now: i64)
    requires
        expiry_fits(now, expires_in),
    ensures
        final(account).access_token@ == access_token@,
        final(account).expires_at == now + lifetime(expires_in),
        final(account).id == old(account).id,
        final(account).email == old(account).email,
        final(account).refresh_token == old(account).refresh_token,
{
    let secs = match expires_in {
        Some(s) => s,
        None => DEFAULT_EXPIRES_IN,
    };
    account.access_token = String::from_str(access_token);
    account.expires_at = now + secs;
}

/// Reads the provider's answer to a request for a new access token, which
/// came at time `now`. Where the answer holds an access token, and the time
/// at which it expires can be written down, the account takes it over and is
/// to be saved; in every other case the account stays as it is.
pub fn apply_token_response(account: &mut Account, body: &str, now: i64) -> (updated: bool)
    ensures
        updated == (json_text_member(body@, "access_token"@) is Some && expiry_fits(
            now,
            json_int_member(body@, "expires_in"@),
        )),
        updated ==> {
            &&& final(account).access_token@ == json_text_member(body@, "access_token"@)->0
            &&& final(account).expires_at == now + lifetime(json_int_member(body@, "expires_in"@))
            &&& final(account).id == old(account).id
            &&& final(account).email == old(account).email
            &&& final(account).refresh_token == old(account).refresh_token
        },
        !updated ==> *final(account) == *old(account),
{
    let token = match json_text_field(body, "access_token") {
        Some(t) => t,
        None => {
            return false;
        },
    };
    let expires_in = json_int_field(body, "expires_in");
    let secs = match expires_in {
        Some(s) => s,
        None => DEFAULT_EXPIRES_IN,
    };
    match now.checked_add(secs) {
        Some(_) => {
            apply_token_grant(account, token.as_str(), expires_in, now);
            true
        },
        None => false,
    }
}

/// What the user interface is told of `account`.
pub fn profile_of(account: &Account) -> (r: UserProfile)
    ensures
        r.id == account.id,
        r.email == account.email,
{
    UserProfile { id: account.id.clone(), email: account.email.clone() }
}

/// The outcome of a bootstrap at time `now`, after the attempt to refresh
/// the token of the active account, if there was one. Without an active
/// account there is nothing to refresh. With one, the user has to sign in
/// again exactly when the access token is empty or expired.
pub fn bootstrap_accounts(active: Option<&Account>, now: i64) -> (r: BootstrapResult)
    ensures
        active is None ==> r.user is None && !r.needs_refresh,
        active matches Some(account) ==> {
            &&& r.user matches Some(profile)
            &&& profile.id == account.id
            &&& profile.email == account.email
            &&& r.needs_refresh == (account.access_token@.len() == 0 || account.expires_at <= now)
        },
{
    match active {
        Some(account) => {
            let has_token = !account.access_token.as_str().is_empty();
            let is_expired = account.expires_at <= now;
            BootstrapResult {
                user: Some(profile_of(account)),
                needs_refresh: !has_token || is_expired,
            }
        },
        None => BootstrapResult { user: None, needs_refresh: false },
    }
}

} // verus!
