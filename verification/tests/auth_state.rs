use google_sheets_plugin::auth::{response_step, ResponseStep, UNAUTHORIZED};
use google_sheets_plugin::auth::{
    auth_state_from_settings, record_refreshed_token, refresh_failure, string_setting, token_step,
    AuthError, AuthState, TokenStep,
};

fn state(
    client_id: Option<&str>,
    secret: Option<&str>,
    access: Option<&str>,
    refresh: Option<&str>,
    expiry: Option<u64>,
) -> AuthState {
    AuthState {
        oauth_client_id: client_id.map(String::from),
        oauth_client_secret: secret.map(String::from),
        oauth_access_token: access.map(String::from),
        oauth_refresh_token: refresh.map(String::from),
        oauth_token_expiry: expiry,
    }
}

#[test]
fn default_state_is_empty() {
    let s = AuthState::default();
    assert!(s.oauth_client_id.is_none());
    assert!(s.oauth_client_secret.is_none());
    assert!(s.oauth_access_token.is_none());
    assert!(s.oauth_refresh_token.is_none());
    assert!(s.oauth_token_expiry.is_none());
}

#[test]
fn no_credentials_is_an_error() {
    let s = state(Some("id"), Some("secret"), None, None, Some(10_000));
    match token_step(&s, 1000) {
        TokenStep::Fail(e) => {
            assert!(matches!(e, AuthError::NoCredentials));
            assert_eq!(
                e.message(),
                "No credentials configured. Open Settings → Plugins → Google Sheets and connect your account."
            );
        }
        _ => panic!("expected an error"),
    }
}

#[test]
fn fresh_cached_token_is_used() {
    let s = state(None, None, Some("tok"), None, Some(2000));
    assert!(matches!(token_step(&s, 1000), TokenStep::UseCached(t) if t == "tok"));
    // 60 seconds before expiry the token is no longer used.
    let s = state(Some("id"), Some("sec"), Some("tok"), Some("ref"), Some(1060));
    assert!(matches!(token_step(&s, 1000), TokenStep::Refresh(_)));
    let s = state(Some("id"), Some("sec"), Some("tok"), Some("ref"), Some(1061));
    assert!(matches!(token_step(&s, 1000), TokenStep::UseCached(t) if t == "tok"));
    // A token without an expiry counts as expired.
    let s = state(Some("id"), Some("sec"), Some("tok"), Some("ref"), None);
    assert!(matches!(token_step(&s, 0), TokenStep::Refresh(_)));
}

#[test]
fn expired_token_asks_for_a_refresh() {
    let s = state(Some("id"), Some("sec"), Some("old"), Some("ref"), Some(500));
    match token_step(&s, 1000) {
        TokenStep::Refresh(r) => {
            assert_eq!(r.refresh_token, "ref");
            assert_eq!(r.client_id, "id");
            assert_eq!(r.client_secret, "sec");
        }
        _ => panic!("expected a refresh"),
    }
}

#[test]
fn refresh_needs_every_credential() {
    let s = state(Some("id"), Some("sec"), Some("old"), None, Some(500));
    match token_step(&s, 1000) {
        TokenStep::Fail(e) => {
            assert!(matches!(e, AuthError::NoRefreshToken));
            assert_eq!(
                e.message(),
                "OAuth access token expired and no refresh token available. Re-authorize in Settings → Plugins → Google Sheets."
            );
        }
        _ => panic!("expected an error"),
    }
    let s = state(None, Some("sec"), None, Some("ref"), None);
    match token_step(&s, 1000) {
        TokenStep::Fail(e) => assert_eq!(e.message(), "OAuth client_id not set"),
        _ => panic!("expected an error"),
    }
    let s = state(Some("id"), None, None, Some("ref"), None);
    match token_step(&s, 1000) {
        TokenStep::Fail(e) => assert_eq!(e.message(), "OAuth client_secret not set"),
        _ => panic!("expected an error"),
    }
}

#[test]
fn refreshed_token_is_reused_until_it_expires() {
    let mut s = state(Some("id"), Some("sec"), Some("old"), Some("ref"), Some(10));
    record_refreshed_token(&mut s, "new".to_string(), 3600, 1000);
    assert_eq!(s.oauth_access_token.as_deref(), Some("new"));
    assert_eq!(s.oauth_token_expiry, Some(4600));
    assert_eq!(s.oauth_refresh_token.as_deref(), Some("ref"));
    assert!(matches!(token_step(&s, 1000), TokenStep::UseCached(t) if t == "new"));
    assert!(matches!(token_step(&s, 4539), TokenStep::UseCached(t) if t == "new"));
    assert!(matches!(token_step(&s, 4540), TokenStep::Refresh(_)));
}

#[test]
fn settings_are_trimmed_and_empty_ones_dropped() {
    assert_eq!(string_setting(Some("  abc \n")), Some("abc".to_string()));
    assert_eq!(string_setting(Some("   ")), None);
    assert_eq!(string_setting(Some("")), None);
    assert_eq!(string_setting(None), None);
    let s = auth_state_from_settings(Some(" cid "), Some(""), Some("r"), None, Some(99));
    assert_eq!(s.oauth_client_id.as_deref(), Some("cid"));
    assert_eq!(s.oauth_client_secret, None);
    assert_eq!(s.oauth_refresh_token.as_deref(), Some("r"));
    assert_eq!(s.oauth_access_token, None);
    assert_eq!(s.oauth_token_expiry, Some(99));
}

#[test]
fn refresh_failure_text() {
    assert_eq!(
        refresh_failure("400 Bad Request", "{\"error\":\"invalid_grant\"}"),
        "OAuth token refresh failed (400 Bad Request): {\"error\":\"invalid_grant\"}"
    );
}

#[test]
fn unauthorized_answer_is_retried_once_after_a_refresh() {
    let s = state(Some("id"), Some("sec"), Some("tok"), Some("ref"), Some(99_999));
    match response_step(&s, UNAUTHORIZED, false) {
        ResponseStep::RefreshAndRetry(r) => {
            assert_eq!(r.refresh_token, "ref");
            assert_eq!(r.client_id, "id");
            assert_eq!(r.client_secret, "sec");
        }
        _ => panic!("a 401 asks for a refresh and a retry"),
    }
    assert!(matches!(response_step(&s, 401, true), ResponseStep::Reject));
    assert!(matches!(response_step(&s, 200, false), ResponseStep::Accept));
    assert!(matches!(response_step(&s, 204, true), ResponseStep::Accept));
    assert!(matches!(response_step(&s, 403, false), ResponseStep::Reject));
    assert!(matches!(response_step(&s, 500, false), ResponseStep::Reject));
    assert!(matches!(response_step(&s, 300, false), ResponseStep::Reject));
    let no_refresh = state(Some("id"), Some("sec"), Some("tok"), None, Some(99_999));
    assert!(matches!(response_step(&no_refresh, 401, false), ResponseStep::Reject));
    let no_secret = state(Some("id"), None, Some("tok"), Some("ref"), None);
    assert!(matches!(response_step(&no_secret, 401, false), ResponseStep::Reject));
}
