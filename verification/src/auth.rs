//! OAuth2 state and the decisions around the access token: when the cached
//! token may be used, when it must be refreshed, and with what.
use vstd::prelude::*;
use crate::text;

verus! {

/// The OAuth2 settings and tokens of the plugin.
pub struct AuthState {
    pub oauth_client_id: Option<String>,
    pub oauth_client_secret: Option<String>,
    pub oauth_access_token: Option<String>,
    pub oauth_refresh_token: Option<String>,
    /// Unix seconds.
    pub oauth_token_expiry: Option<u64>,
}

impl Default for AuthState {
    fn default() -> (r: Self)
        ensures
            r.oauth_client_id is None,
            r.oauth_client_secret is None,
            r.oauth_access_token is None,
            r.oauth_refresh_token is None,
            r.oauth_token_expiry is None,
    {
        AuthState {
            oauth_client_id: None,
            oauth_client_secret: None,
            oauth_access_token: None,
            oauth_refresh_token: None,
            oauth_token_expiry: None,
        }
    }
}

/// What the token endpoint is asked for a refresh.
pub struct RefreshRequest {
    pub refresh_token: String,
    pub client_id: String,
    pub client_secret: String,
}

/// Why no access token can be had.
pub enum AuthError {
    NoCredentials,
    NoRefreshToken,
    NoClientId,
    NoClientSecret,
}

pub open spec fn auth_error_message(e: AuthError) -> Seq<char> {
    match e {
        AuthError::NoCredentials =>
            "No credentials configured. Open Settings \u{2192} Plugins \u{2192} Google Sheets and connect your account."@,
        AuthError::NoRefreshToken =>
            "OAuth access token expired and no refresh token available. Re-authorize in Settings \u{2192} Plugins \u{2192} Google Sheets."@,
        AuthError::NoClientId => "OAuth client_id not set"@,
        AuthError::NoClientSecret => "OAuth client_secret not set"@,
    }
}

impl AuthError {
    /// The text of the error.
    pub fn message(&self) -> (r: &'static str)
        ensures
            r@ == auth_error_message(*self),
    {
        match self {
            AuthError::NoCredentials =>
                "No credentials configured. Open Settings \u{2192} Plugins \u{2192} Google Sheets and connect your account.",
            AuthError::NoRefreshToken =>
                "OAuth access token expired and no refresh token available. Re-authorize in Settings \u{2192} Plugins \u{2192} Google Sheets.",
            AuthError::NoClientId => "OAuth client_id not set",
            AuthError::NoClientSecret => "OAuth client_secret not set",
        }
    }
}

pub open spec fn refresh_failure_message(status: Seq<char>, body: Seq<char>) -> Seq<char> {
    "OAuth token refresh failed ("@ + status + "): "@ + body
}

/// The error when the token endpoint refuses a refresh, with its status
/// line and the body it answered.
pub fn refresh_failure(status: &str, body: &str) -> (r: String)
    ensures
        r@ == refresh_failure_message(status@, body@),
{
    let mut r = text::string_from("OAuth token refresh failed (");
    r.append(status);
    r.append("): ");
    r.append(body);
    r
}

/// The next step towards an access token.
pub enum TokenStep {
    UseCached(String),
    Refresh(RefreshRequest),
    Fail(AuthError),
}

/// The cached access token stays usable while more than 60 seconds are
/// left before its expiry (a missing expiry counts as 0).
pub open spec fn cached_token_fresh(st: AuthState, now: u64) -> bool {
    &&& st.oauth_access_token is Some
    &&& now + 60 < match st.oauth_token_expiry {
        Some(e) => e as int,
        None => 0,
    }
}

pub open spec fn next_step(st: AuthState, now: u64) -> TokenStep {
    if st.oauth_refresh_token is None && st.oauth_access_token is None {
        TokenStep::Fail(AuthError::NoCredentials)
    } else if cached_token_fresh(st, now) {
        TokenStep::UseCached(st.oauth_access_token->0)
    } else if st.oauth_refresh_token is None {
        TokenStep::Fail(AuthError::NoRefreshToken)
    } else if st.oauth_client_id is None {
        TokenStep::Fail(AuthError::NoClientId)
    } else if st.oauth_client_secret is None {
        TokenStep::Fail(AuthError::NoClientSecret)
    } else {
        TokenStep::Refresh(
            RefreshRequest {
                refresh_token: st.oauth_refresh_token->0,
                client_id: st.oauth_client_id->0,
                client_secret: st.oauth_client_secret->0,
            },
        )
    }
}

/// Decides how to get an access token at time `now`: no credentials at
/// all is an error; a fresh cached token is used; otherwise a refresh is
/// requested with the refresh token and the client credentials, each of
/// which must be set.
pub fn token_step(state: &AuthState, now: u64) -> (r: TokenStep)
    requires
        state.oauth_access_token is Some ==> now <= u64::MAX - 60,
    ensures
        r == next_step(*state, now),
{
    if state.oauth_refresh_token.is_none() && state.oauth_access_token.is_none() {
        return TokenStep::Fail(AuthError::NoCredentials);
    }
    if let Some(token) = &state.oauth_access_token {
        let expiry: u64 = match state.oauth_token_expiry {
            Some(e) => e,
            None => 0,
        };
        if now + 60 < expiry {
            return TokenStep::UseCached(token.clone());
        }
    }
    let refresh_token = match &state.oauth_refresh_token {
        Some(t) => t.clone(),
        None => return TokenStep::Fail(AuthError::NoRefreshToken),
    };
    let client_id = match &state.oauth_client_id {
        Some(t) => t.clone(),
        None => return TokenStep::Fail(AuthError::NoClientId),
    };
    let client_secret = match &state.oauth_client_secret {
        Some(t) => t.clone(),
        None => return TokenStep::Fail(AuthError::NoClientSecret),
    };
    TokenStep::Refresh(RefreshRequest { refresh_token, client_id, client_secret })
}

/// The state after a refresh that returned `token`, valid for
/// `expires_in` seconds from `now`.
pub open spec fn refreshed(st: AuthState, token: String, expires_in: u64, now: u64) -> AuthState {
    AuthState {
        oauth_access_token: Some(token),
        oauth_token_expiry: Some((now + expires_in) as u64),
        ..st
    }
}

/// Stores a refreshed access token and its expiry.
pub fn record_refreshed_token(state: &mut AuthState, token: String, expires_in: u64, now: u64)
    requires
        now + expires_in <= u64::MAX,
    ensures
        *final(state) == refreshed(*old(state), token, expires_in, now),
{
    state.oauth_access_token = Some(token);
    state.oauth_token_expiry = Some(now + expires_in);
}

/// A refreshed token is used, unchanged, until 60 seconds before it expires.
pub proof fn refreshed_token_is_reused(
    st: AuthState,
    token: String,
    expires_in: u64,
    refreshed_at: u64,
    now: u64,
)
    requires
        refreshed_at + expires_in <= u64::MAX,
        now + 60 < refreshed_at + expires_in,
    ensures
        next_step(refreshed(st, token, expires_in, refreshed_at), now) == TokenStep::UseCached(
            token,
        ),
{
}

/// The HTTP status of a request whose access token was refused.
pub const UNAUTHORIZED: u16 = 401;

/// What to do with the response to an authorized request.
pub enum ResponseStep {
    /// A success status (2xx): the response is the answer.
    Accept,
    /// A first answer of 401 while the token can be refreshed: refresh it
    /// with this request, then send the same request once more with the
    /// new token.
    RefreshAndRetry(RefreshRequest),
    /// Any other answer: the request failed with this response.
    Reject,
}

/// A refresh token and both client credentials are set.
pub open spec fn can_refresh(st: AuthState) -> bool {
    &&& st.oauth_refresh_token is Some
    &&& st.oauth_client_id is Some
    &&& st.oauth_client_secret is Some
}

pub open spec fn refresh_request(st: AuthState) -> RefreshRequest {
    RefreshRequest {
        refresh_token: st.oauth_refresh_token->0,
        client_id: st.oauth_client_id->0,
        client_secret: st.oauth_client_secret->0,
    }
}

/// A success status is accepted; a 401 answered to the first attempt is
/// retried once after a refresh, when the state can refresh; anything else
/// is a failure.
pub open spec fn next_response_step(st: AuthState, status: u16, retried: bool) -> ResponseStep {
    if 200 <= status < 300 {
        ResponseStep::Accept
    } else if status == UNAUTHORIZED && !retried && can_refresh(st) {
        ResponseStep::RefreshAndRetry(refresh_request(st))
    } else {
        ResponseStep::Reject
    }
}

/// Decides what to do with the response (of HTTP status `status`) to an
/// authorized request; `retried` tells whether the request was already
/// sent again after a refresh.
pub fn response_step(state: &AuthState, status: u16, retried: bool) -> (r: ResponseStep)
    ensures
        r == next_response_step(*state, status, retried),
{
    if 200 <= status && status < 300 {
        return ResponseStep::Accept;
    }
    if status != UNAUTHORIZED || retried {
        return ResponseStep::Reject;
    }
    match (&state.oauth_refresh_token, &state.oauth_client_id, &state.oauth_client_secret) {
        (Some(t), Some(i), Some(c)) => ResponseStep::RefreshAndRetry(
            RefreshRequest { refresh_token: t.clone(), client_id: i.clone(), client_secret: c.clone() },
        ),
        _ => ResponseStep::Reject,
    }
}

/// A 401 makes the plugin refresh the token and send the request again,
/// once: the first 401 (with refresh credentials) asks for a refresh and a
/// retry; after the retry, the answer is accepted on success and is a
/// failure otherwise, a second 401 included; and the refreshed token is the
/// one then used for requests until 60 seconds before it expires.
pub proof fn unauthorized_is_retried_once(
    st: AuthState,
    token: String,
    expires_in: u64,
    refreshed_at: u64,
    now: u64,
    status: u16,
)
    requires
        can_refresh(st),
        refreshed_at + expires_in <= u64::MAX,
        now + 60 < refreshed_at + expires_in,
    ensures
        next_response_step(st, UNAUTHORIZED, false) == ResponseStep::RefreshAndRetry(
            refresh_request(st),
        ),
        next_step(refreshed(st, token, expires_in, refreshed_at), now) == TokenStep::UseCached(
            token,
        ),
        !(next_response_step(refreshed(st, token, expires_in, refreshed_at), status, true) is RefreshAndRetry),
        200 <= status < 300 ==> next_response_step(
            refreshed(st, token, expires_in, refreshed_at),
            status,
            true,
        ) == ResponseStep::Accept,
{
}

/// A setting as given: trimmed, and absent when empty.
pub open spec fn setting_value(raw: Option<Seq<char>>) -> Option<Seq<char>> {
    match raw {
        Some(s) => if text::trim(s).len() > 0 {
            Some(text::trim(s))
        } else {
            None
        },
        None => None,
    }
}

pub open spec fn opt_str_view(o: Option<&str>) -> Option<Seq<char>> {
    match o {
        Some(s) => Some(s@),
        None => None,
    }
}

pub open spec fn opt_string_view(o: Option<String>) -> Option<Seq<char>> {
    match o {
        Some(s) => Some(s@),
        None => None,
    }
}

/// Reads one string setting: trimmed, and `None` when missing or empty.
pub fn string_setting(raw: Option<&str>) -> (r: Option<String>)
    ensures
        opt_string_view(r) == setting_value(opt_str_view(raw)),
{
    match raw {
        Some(s) => {
            let t = text::trim_str(s);
            if t.unicode_len() > 0 {
                Some(t)
            } else {
                None
            }
        },
        None => None,
    }
}

/// The state that the saved plugin settings describe; everything held
/// before is dropped.
pub fn auth_state_from_settings(
    client_id: Option<&str>,
    client_secret: Option<&str>,
    refresh_token: Option<&str>,
    access_token: Option<&str>,
    token_expiry: Option<u64>,
) -> (r: AuthState)
    ensures
        opt_string_view(r.oauth_client_id) == setting_value(opt_str_view(client_id)),
        opt_string_view(r.oauth_client_secret) == setting_value(opt_str_view(client_secret)),
        opt_string_view(r.oauth_refresh_token) == setting_value(opt_str_view(refresh_token)),
        opt_string_view(r.oauth_access_token) == setting_value(opt_str_view(access_token)),
        r.oauth_token_expiry == token_expiry,
{
    AuthState {
        oauth_client_id: string_setting(client_id),
        oauth_client_secret: string_setting(client_secret),
        oauth_access_token: string_setting(access_token),
        oauth_refresh_token: string_setting(refresh_token),
        oauth_token_expiry: token_expiry,
    }
}

} // verus!
