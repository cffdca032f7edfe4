//! Login: the Lazycat OIDC flow, session tokens and the resolution of the
//! user of a request.
//!
//! Lazycat injects the OIDC endpoints at install time; there is no
//! discovery document. A request belongs to the user named by the
//! `x-hc-user-id` header (set by the Lazycat proxy for SSO requests) or,
//! failing that, by the session token in the `ac_session` cookie.
use base64::Engine;
use rand::RngCore;
use vstd::prelude::*;

use crate::config::OidcConfig;
use crate::error::{AppError, AppErrorView};
use crate::text::{chars_of, concat, string_of};

verus! {

/// Name of the session cookie.
pub const SESSION_COOKIE: &'static str = "ac_session";

/// Name of the cookie holding the OIDC `state` during a login.
pub const STATE_COOKIE: &'static str = "ac_oidc_state";

/// Lifetime of a session token, in seconds (30 days).
pub const SESSION_TTL_SECS: i64 = 2592000;

/// Token endpoint answer.
#[derive(Debug, Clone)]
pub struct TokenResponse {
    pub access_token: String,
    pub id_token: Option<String>,
    pub token_type: Option<String>,
    pub expires_in: Option<i64>,
    pub scope: Option<String>,
    pub refresh_token: Option<String>,
}

/// Userinfo endpoint answer.
#[derive(Debug, Clone)]
pub struct UserInfo {
    pub sub: String,
    pub name: Option<String>,
    pub preferred_username: Option<String>,
    pub email: Option<String>,
    pub picture: Option<String>,
    pub avatar: Option<String>,
}

pub open spec fn opt_view(o: Option<String>) -> Option<Seq<char>> {
    match o {
        Some(s) => Some(s@),
        None => None,
    }
}

pub open spec fn first_of(a: Option<String>, b: Option<String>) -> Option<Seq<char>> {
    match a {
        Some(s) => Some(s@),
        None => opt_view(b),
    }
}

fn first_present(a: &Option<String>, b: &Option<String>) -> (r: Option<String>)
    ensures
        opt_view(r) == first_of(*a, *b),
{
    match a {
        Some(s) => Some(s.clone()),
        None => match b {
            Some(s) => Some(s.clone()),
            None => None,
        },
    }
}

impl UserInfo {
    /// `name`, else `preferred_username`.
    pub fn display_name(&self) -> (r: Option<String>)
        ensures
            opt_view(r) == first_of(self.name, self.preferred_username),
    {
        first_present(&self.name, &self.preferred_username)
    }

    /// `picture`, else `avatar`.
    pub fn avatar_url(&self) -> (r: Option<String>)
        ensures
            opt_view(r) == first_of(self.picture, self.avatar),
    {
        first_present(&self.picture, &self.avatar)
    }
}

/// Claims of the session token set after an OIDC login.
#[derive(Debug, Clone)]
pub struct SessionToken {
    pub sub: String,
    pub email: Option<String>,
    pub name: Option<String>,
    pub avatar_url: Option<String>,
    pub exp: i64,
    pub iat: i64,
}

/// Seconds since the Unix epoch now (`chrono::Utc::now().timestamp()`).
/// Claims only what every outcome satisfies: `Utc::now` panics before the
/// epoch and beyond chrono's last representable year (262142), so the value
/// lies between 0 and 10^13.
#[verifier::external_body]
fn unix_now() -> (t: i64)
    ensures
        0 <= t < 10_000_000_000_000,
{
    chrono::Utc::now().timestamp()
}

impl SessionToken {
    /// Claims issued at `now` (seconds since the epoch), valid for 30 days.
    pub fn issued_at(
        sub: String,
        email: Option<String>,
        name: Option<String>,
        avatar_url: Option<String>,
        now: i64,
    ) -> (t: Self)
        requires
            now <= i64::MAX - SESSION_TTL_SECS,
        ensures
            t.sub == sub,
            t.email == email,
            t.name == name,
            t.avatar_url == avatar_url,
            t.iat == now,
            t.exp == now + SESSION_TTL_SECS,
    {
        SessionToken { sub, email, name, avatar_url, iat: now, exp: now + SESSION_TTL_SECS }
    }

    /// Claims issued now, valid for 30 days.
    pub fn new(sub: String, email: Option<String>, name: Option<String>, avatar_url: Option<
        String,
    >) -> (t: Self)
        ensures
            t.sub == sub,
            t.email == email,
            t.name == name,
            t.avatar_url == avatar_url,
            t.exp == t.iat + SESSION_TTL_SECS,
            t.iat >= 0,
    {
        let now = unix_now();
        Self::issued_at(sub, email, name, avatar_url, now)
    }
}

/// The user a request acts for.
#[derive(Debug, Clone)]
pub struct AuthUser {
    pub id: String,
    pub email: Option<String>,
    pub name: Option<String>,
    pub avatar_url: Option<String>,
}

/// The user of a request: the non-empty `x-hc-user-id` header wins (with no
/// profile fields); otherwise the claims of a valid session cookie;
/// otherwise nobody.
pub open spec fn resolved_user(header: Option<Seq<char>>, claims: Option<SessionToken>) -> Option<
    (Seq<char>, Option<Seq<char>>, Option<Seq<char>>, Option<Seq<char>>),
> {
    match header {
        Some(h) if h.len() > 0 => Some((h, None, None, None)),
        _ => match claims {
            Some(c) => Some((c.sub@, opt_view(c.email), opt_view(c.name), opt_view(c.avatar_url))),
            None => None,
        },
    }
}

impl AuthUser {
    pub open spec fn fields(&self) -> (Seq<char>, Option<Seq<char>>, Option<Seq<char>>, Option<Seq<char>>) {
        (self.id@, opt_view(self.email), opt_view(self.name), opt_view(self.avatar_url))
    }
}

/// Resolves the user of a request (see [`resolved_user`]). `header` is the
/// value of `x-hc-user-id` when present and readable as text; `claims` are
/// those of the session cookie when it is present and its token verifies.
pub fn resolve_user(header: Option<String>, claims: Option<SessionToken>) -> (r: Option<AuthUser>)
    ensures
        match r {
            Some(u) => resolved_user(opt_view(header), claims) == Some(u.fields()),
            None => resolved_user(opt_view(header), claims) is None,
        },
{
    if let Some(h) = header {
        if !h.as_str().is_empty() {
            return Some(AuthUser { id: h, email: None, name: None, avatar_url: None });
        }
    }
    match claims {
        Some(c) => Some(AuthUser { id: c.sub, email: c.email, name: c.name, avatar_url: c.avatar_url }),
        None => None,
    }
}

// ---------------------------------------------------------------------------
// OIDC
// ---------------------------------------------------------------------------
/// Query of the OIDC callback.
#[derive(Debug, Clone, Default)]
pub struct CallbackQuery {
    pub code: Option<String>,
    pub state: Option<String>,
    pub error: Option<String>,
    pub error_description: Option<String>,
}

/// What the callback decides: the code to exchange, or why the login is
/// refused. An error reported by the provider comes first, then a missing
/// OIDC client, a missing code, state or state cookie, and a state that
/// differs from the cookie.
pub open spec fn callback_decision(
    q: CallbackQuery,
    oidc_configured: bool,
    state_cookie: Option<Seq<char>>,
) -> Result<Seq<char>, AppErrorView> {
    match q.error {
        Some(err) => Err(
            AppErrorView::BadRequest(
                "oidc error: "@ + err@ + " "@ + match q.error_description {
                    Some(d) => d@,
                    None => Seq::empty(),
                },
            ),
        ),
        None => if !oidc_configured {
            Err(AppErrorView::OidcNotConfigured)
        } else {
            match q.code {
                None => Err(AppErrorView::BadRequest("missing code"@)),
                Some(code) => match q.state {
                    None => Err(AppErrorView::BadRequest("missing state"@)),
                    Some(state) => match state_cookie {
                        None => Err(AppErrorView::BadRequest("missing state cookie"@)),
                        Some(expected) => if expected != state@ {
                            Err(AppErrorView::BadRequest("state mismatch"@))
                        } else {
                            Ok(code@)
                        },
                    },
                },
            }
        },
    }
}

fn text_of(s: &str) -> (r: String)
    ensures
        r@ == s@,
{
    string_of(chars_of(s).as_slice())
}

fn same(a: &String, b: &String) -> (r: bool)
    ensures
        r == (a@ == b@),
{
    let x = chars_of(a.as_str());
    let y = chars_of(b.as_str());
    crate::text::chars_eq(x.as_slice(), y.as_slice())
}

/// Checks the OIDC callback (see [`callback_decision`]) and returns the
/// authorization code to exchange.
pub fn check_callback(q: &CallbackQuery, oidc_configured: bool, state_cookie: &Option<String>) -> (r:
    Result<String, AppError>)
    ensures
        match (r, callback_decision(*q, oidc_configured, opt_view(*state_cookie))) {
            (Ok(c), Ok(d)) => c@ == d,
            (Err(e), Err(f)) => e@ == f,
            _ => false,
        },
{
    if let Some(err) = &q.error {
        let desc = match &q.error_description {
            Some(d) => d.clone(),
            None => String::new(),
        };
        let a = concat("oidc error: ", err.as_str());
        let b = concat(a.as_str(), " ");
        return Err(AppError::BadRequest(concat(b.as_str(), desc.as_str())));
    }
    if !oidc_configured {
        return Err(AppError::OidcNotConfigured);
    }
    let code = match &q.code {
        Some(c) => c.clone(),
        None => return Err(AppError::BadRequest(text_of("missing code"))),
    };
    let state = match &q.state {
        Some(s) => s,
        None => return Err(AppError::BadRequest(text_of("missing state"))),
    };
    let expected = match state_cookie {
        Some(e) => e,
        None => return Err(AppError::BadRequest(text_of("missing state cookie"))),
    };
    if !same(expected, state) {
        return Err(AppError::BadRequest(text_of("state mismatch")));
    }
    Ok(code)
}

/// A login callback is accepted only when the state it returns equals the
/// state cookie set at the start of the login, and no error was reported.
pub proof fn law_callback_requires_matching_state(
    q: CallbackQuery,
    oidc_configured: bool,
    state_cookie: Option<Seq<char>>,
)
    ensures
        callback_decision(q, oidc_configured, state_cookie) is Ok ==> {
            &&& q.error is None
            &&& oidc_configured
            &&& q.state is Some
            &&& state_cookie == Some(q.state.unwrap()@)
        },
{
}

/// What `url::Url::parse_with_params` gives for a base URL and query
/// pairs, serialized: `None` when the base does not parse.
pub uninterp spec fn url_with_query(base: Seq<char>, pairs: Seq<(Seq<char>, Seq<char>)>) -> Option<
    Seq<char>,
>;

pub open spec fn pair_views(pairs: Seq<(String, String)>) -> Seq<(Seq<char>, Seq<char>)> {
    pairs.map_values(|p: (String, String)| (p.0@, p.1@))
}

/// `url::Url::parse_with_params` (parse, then append the pairs
/// form-urlencoded to the query), serialized with `to_string`. URL syntax
/// and encoding are not spelled out; the result is named.
#[verifier::external_body]
fn parse_with_params(base: &str, pairs: &Vec<(String, String)>) -> (r: Option<String>)
    ensures
        opt_view(r) == url_with_query(base@, pair_views(pairs@)),
{
    url::Url::parse_with_params(base, pairs.iter()).ok().map(|u| u.to_string())
}

// ---------------------------------------------------------------------------
// Errors of the token and userinfo endpoints
// ---------------------------------------------------------------------------
/// The token request could not be sent.
pub fn token_request_error(reason: &str) -> (e: AppError)
    ensures
        e@ == AppErrorView::Other("token request failed: "@ + reason@),
{
    AppError::Other(concat("token request failed: ", reason))
}

/// The token endpoint answered with a failure status.
pub fn token_status_error(status: &str, body: &str) -> (e: AppError)
    ensures
        e@ == AppErrorView::Other("token endpoint returned "@ + status@ + ": "@ + body@),
{
    let a = concat("token endpoint returned ", status);
    let b = concat(a.as_str(), ": ");
    AppError::Other(concat(b.as_str(), body))
}

/// The token response could not be decoded.
pub fn token_decode_error(reason: &str) -> (e: AppError)
    ensures
        e@ == AppErrorView::Other("decode token response: "@ + reason@),
{
    AppError::Other(concat("decode token response: ", reason))
}

/// No userinfo endpoint is configured.
pub fn userinfo_missing_error() -> (e: AppError)
    ensures
        e@ == AppErrorView::Other("userinfo_uri not configured"@),
{
    AppError::Other(text_of("userinfo_uri not configured"))
}

/// The userinfo request could not be sent.
pub fn userinfo_request_error(reason: &str) -> (e: AppError)
    ensures
        e@ == AppErrorView::Other("userinfo request failed: "@ + reason@),
{
    AppError::Other(concat("userinfo request failed: ", reason))
}

/// The userinfo endpoint answered with a failure status.
pub fn userinfo_status_error(status: &str, body: &str) -> (e: AppError)
    ensures
        e@ == AppErrorView::Other("userinfo endpoint returned "@ + status@ + ": "@ + body@),
{
    let a = concat("userinfo endpoint returned ", status);
    let b = concat(a.as_str(), ": ");
    AppError::Other(concat(b.as_str(), body))
}

/// The userinfo response could not be decoded.
pub fn userinfo_decode_error(reason: &str) -> (e: AppError)
    ensures
        e@ == AppErrorView::Other("decode userinfo: "@ + reason@),
{
    AppError::Other(concat("decode userinfo: ", reason))
}

/// Minimal OIDC client over the injected endpoints.
#[derive(Debug, Clone)]
pub struct OidcClient {
    pub cfg: OidcConfig,
}

/// Query of the authorization request: response type `code`, the client
/// id, the redirect URL, the scopes and the anti-forgery state.
pub open spec fn authorize_pairs(cfg: OidcConfig, state: Seq<char>) -> Seq<(Seq<char>, Seq<char>)> {
    seq![
        ("response_type"@, "code"@),
        ("client_id"@, cfg.client_id@),
        ("redirect_uri"@, cfg.redirect_url@),
        ("scope"@, "openid profile email"@),
        ("state"@, state),
    ]
}

impl OidcClient {
    /// A client for the given settings.
    pub fn new(cfg: OidcConfig) -> (c: Self)
        ensures
            c.cfg == cfg,
    {
        OidcClient { cfg }
    }

    /// The redirect URL registered with the provider.
    pub fn redirect_url(&self) -> (u: &str)
        ensures
            u@ == self.cfg.redirect_url@,
    {
        self.cfg.redirect_url.as_str()
    }

    fn authorize_pairs_vec(&self, state: &str) -> (pairs: Vec<(String, String)>)
        ensures
            pair_views(pairs@) == authorize_pairs(self.cfg, state@),
    {
        let mut pairs: Vec<(String, String)> = Vec::new();
        pairs.push((text_of("response_type"), text_of("code")));
        pairs.push((text_of("client_id"), self.cfg.client_id.clone()));
        pairs.push((text_of("redirect_uri"), self.cfg.redirect_url.clone()));
        pairs.push((text_of("scope"), text_of("openid profile email")));
        pairs.push((text_of("state"), text_of(state)));
        proof {
            assert(pair_views(pairs@) =~= authorize_pairs(self.cfg, state@));
        }
        pairs
    }

    /// The authorization URL the browser is sent to. The configured
    /// authorization endpoint must be a URL.
    pub fn authorize_url(&self, state: &str) -> (u: String)
        requires
            url_with_query(self.cfg.auth_uri@, authorize_pairs(self.cfg, state@)) is Some,
        ensures
            Some(u@) == url_with_query(self.cfg.auth_uri@, authorize_pairs(self.cfg, state@)),
    {
        let pairs = self.authorize_pairs_vec(state);
        match parse_with_params(self.cfg.auth_uri.as_str(), &pairs) {
            Some(u) => u,
            None => String::new(),
        }
    }

    /// The authorization URL, or `None` when the configured authorization
    /// endpoint is not a URL.
    pub fn try_authorize_url(&self, state: &str) -> (r: Option<String>)
        ensures
            opt_view(r) == url_with_query(self.cfg.auth_uri@, authorize_pairs(self.cfg, state@)),
    {
        let pairs = self.authorize_pairs_vec(state);
        match parse_with_params(self.cfg.auth_uri.as_str(), &pairs) {
            Some(_) => Some(self.authorize_url(state)),
            None => None,
        }
    }
}

/// 32 random bytes from the thread-local generator (`rand::rng()` and
/// `RngCore::fill_bytes`). Only their number is claimed.
#[verifier::external_body]
fn random_bytes() -> (b: Vec<u8>)
    ensures
        b@.len() == 32,
{
    let mut bytes = [0u8; 32];
    rand::rng().fill_bytes(&mut bytes);
    bytes.to_vec()
}

/// What `base64::engine::general_purpose::URL_SAFE_NO_PAD.encode` gives.
pub uninterp spec fn base64_url_no_pad(bytes: Seq<u8>) -> Seq<char>;

/// A character of the URL-safe base64 alphabet: `A-Z`, `a-z`, `0-9`, `-`
/// and `_`.
pub open spec fn url_safe_char(c: char) -> bool {
    ('A' <= c <= 'Z') || ('a' <= c <= 'z') || ('0' <= c <= '9') || c == '-' || c == '_'
}

/// `URL_SAFE_NO_PAD.encode`. The result is named; of it the contract states
/// what the crate documents in a line: every 3 bytes become 4 characters of
/// the URL-safe alphabet, and a final 1 or 2 bytes become 2 or 3 characters,
/// with no `=` padding.
#[verifier::external_body]
fn encode_base64_url(bytes: &[u8]) -> (s: String)
    ensures
        s@ == base64_url_no_pad(bytes@),
        s@.len() == (4 * bytes@.len() + 2) / 3,
        forall|i: int| 0 <= i < s@.len() ==> url_safe_char(#[trigger] s@[i]),
{
    base64::engine::general_purpose::URL_SAFE_NO_PAD.encode(bytes)
}

/// A fresh anti-forgery state: 32 random bytes, URL-safe base64 without
/// padding (43 characters that need no escaping in a URL or a cookie).
pub fn random_state() -> (s: String)
    ensures
        exists|b: Seq<u8>| b.len() == 32 && s@ == base64_url_no_pad(b),
        s@.len() == 43,
        forall|i: int| 0 <= i < s@.len() ==> url_safe_char(#[trigger] s@[i]),
{
    let b = random_bytes();
    encode_base64_url(b.as_slice())
}

} // verus!
