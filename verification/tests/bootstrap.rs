use orbitmail::bootstrap::{
    apply_token_grant, apply_token_response, bootstrap_accounts, profile_of, refresh_request_body,
    should_refresh, Account, DEFAULT_EXPIRES_IN, TOKEN_ENDPOINT,
};

fn account(access: &str, refresh: &str, expires_at: i64) -> Account {
    Account {
        id: "id-1".to_string(),
        email: "me@example.com".to_string(),
        access_token: access.to_string(),
        refresh_token: refresh.to_string(),
        expires_at,
    }
}

#[test]
fn refresh_is_due_when_expired_and_possible() {
    assert!(should_refresh(&account("t", "r", 100), 100));
    assert!(should_refresh(&account("t", "r", 100), 101));
    assert!(!should_refresh(&account("t", "r", 100), 99));
    assert!(!should_refresh(&account("t", "", 100), 200));
}

#[test]
fn request_body_is_form_encoded() {
    assert_eq!(
        refresh_request_body("id 1", "s&c=d", "r/t~é*-._"),
        "client_id=id+1&client_secret=s%26c%3Dd&refresh_token=r%2Ft%7E%C3%A9*-._&grant_type=refresh_token"
    );
    assert_eq!(
        refresh_request_body("", "", ""),
        "client_id=&client_secret=&refresh_token=&grant_type=refresh_token"
    );
    assert_eq!(
        refresh_request_body("AZaz09", "\u{0}\n", "%+"),
        "client_id=AZaz09&client_secret=%00%0A&refresh_token=%25%2B&grant_type=refresh_token"
    );
    assert_eq!(TOKEN_ENDPOINT, "https://oauth2.googleapis.com/token");
}

#[test]
fn granted_token_is_taken_over() {
    let mut a = account("old", "r", 5);
    assert!(apply_token_response(&mut a, "{\"access_token\":\"new-token\",\"expires_in\":120}", 1000));
    assert_eq!(a.access_token, "new-token");
    assert_eq!(a.expires_at, 1120);
    assert_eq!(a.refresh_token, "r");
    assert_eq!(a.email, "me@example.com");
    assert_eq!(a.id, "id-1");
}

#[test]
fn missing_lifetime_counts_as_an_hour() {
    let mut a = account("old", "r", 5);
    assert!(apply_token_response(&mut a, "{\"access_token\":\"n\"}", 1000));
    assert_eq!(a.expires_at, 4600);
    let mut b = account("old", "r", 5);
    assert!(apply_token_response(&mut b, "{\"access_token\":\"n\",\"expires_in\":\"soon\"}", 10));
    assert_eq!(b.expires_at, 3610);
    assert_eq!(DEFAULT_EXPIRES_IN, 3600);
}

#[test]
fn answer_without_token_changes_nothing() {
    let bodies = [
        "{\"error\":\"invalid_grant\"}",
        "{\"access_token\":17}",
        "not json at all",
        "",
        "[1,2,3]",
        "{\"access_token\":\"x\"",
    ];
    for body in bodies {
        let mut a = account("old", "r", 5);
        assert!(!apply_token_response(&mut a, body, 1000));
        assert_eq!(a.access_token, "old");
        assert_eq!(a.expires_at, 5);
    }
}

#[test]
fn expiry_beyond_the_clock_changes_nothing() {
    let mut a = account("old", "r", 5);
    assert!(!apply_token_response(
        &mut a,
        "{\"access_token\":\"n\",\"expires_in\":3600}",
        i64::MAX - 10
    ));
    assert_eq!(a.access_token, "old");
    assert_eq!(a.expires_at, 5);
    let mut b = account("old", "r", 5);
    assert!(apply_token_response(&mut b, "{\"access_token\":\"n\",\"expires_in\":-20}", 100));
    assert_eq!(b.expires_at, 80);
}

#[test]
fn grant_sets_token_and_expiry() {
    let mut a = account("old", "r", 5);
    apply_token_grant(&mut a, "fresh", Some(60), 500);
    assert_eq!(a.access_token, "fresh");
    assert_eq!(a.expires_at, 560);
    apply_token_grant(&mut a, "fresher", None, 500);
    assert_eq!(a.expires_at, 4100);
}

#[test]
fn bootstrap_reports_whether_sign_in_is_needed() {
    let none = bootstrap_accounts(None, 100);
    assert!(none.user.is_none());
    assert!(!none.needs_refresh);
    let good = account("t", "r", 200);
    let r = bootstrap_accounts(Some(&good), 100);
    assert!(!r.needs_refresh);
    let user = r.user.unwrap();
    assert_eq!(user.id, "id-1");
    assert_eq!(user.email, "me@example.com");
    assert!(bootstrap_accounts(Some(&good), 200).needs_refresh);
    assert!(bootstrap_accounts(Some(&account("", "r", 200)), 100).needs_refresh);
    assert_eq!(profile_of(&good).email, "me@example.com");
}
