use ai_career_copilot::auth::{
    check_callback, random_state, resolve_user, CallbackQuery, OidcClient, SessionToken, UserInfo,
    SESSION_TTL_SECS,
};
use ai_career_copilot::config::OidcConfig;
use ai_career_copilot::error::AppError;

fn info() -> UserInfo {
    UserInfo {
        sub: "u1".into(),
        name: None,
        preferred_username: Some("alice".into()),
        email: Some("a@x".into()),
        picture: None,
        avatar: Some("https://img/a.png".into()),
    }
}

fn oidc() -> OidcConfig {
    OidcConfig {
        client_id: "cid".into(),
        client_secret: "sec".into(),
        auth_uri: "https://auth.example/authorize".into(),
        token_uri: "https://auth.example/token".into(),
        userinfo_uri: None,
        redirect_url: "https://app.example/auth/oidc/callback".into(),
    }
}

fn bad_request(r: Result<String, AppError>) -> String {
    match r {
        Err(AppError::BadRequest(m)) => m,
        _ => panic!("expected a bad request"),
    }
}

#[test]
fn profile_fields_fall_back() {
    let mut u = info();
    assert_eq!(u.display_name().as_deref(), Some("alice"));
    assert_eq!(u.avatar_url().as_deref(), Some("https://img/a.png"));
    u.name = Some("Alice".into());
    u.picture = Some("https://img/b.png".into());
    assert_eq!(u.display_name().as_deref(), Some("Alice"));
    assert_eq!(u.avatar_url().as_deref(), Some("https://img/b.png"));
    u.name = None;
    u.preferred_username = None;
    assert_eq!(u.display_name(), None);
}

#[test]
fn header_user_wins_over_cookie() {
    let claims = SessionToken::issued_at("c1".into(), Some("e".into()), None, None, 100);
    let u = resolve_user(Some("h1".into()), Some(claims.clone())).unwrap();
    assert_eq!(u.id, "h1");
    assert_eq!(u.email, None);
    let u = resolve_user(Some(String::new()), Some(claims.clone())).unwrap();
    assert_eq!(u.id, "c1");
    assert_eq!(u.email.as_deref(), Some("e"));
    assert!(resolve_user(None, None).is_none());
    assert!(resolve_user(Some(String::new()), None).is_none());
}

#[test]
fn tokens_last_thirty_days() {
    let t = SessionToken::issued_at("s".into(), None, None, None, 1_700_000_000);
    assert_eq!(t.iat, 1_700_000_000);
    assert_eq!(t.exp, 1_700_000_000 + 30 * 24 * 3600);
    let now = SessionToken::new("s".into(), None, Some("n".into()), None);
    assert_eq!(now.exp - now.iat, SESSION_TTL_SECS);
    assert!(now.iat > 1_600_000_000);
}

#[test]
fn callback_checks_in_order() {
    let q = CallbackQuery {
        code: Some("c".into()),
        state: Some("s".into()),
        error: Some("access_denied".into()),
        error_description: Some("no".into()),
    };
    assert_eq!(bad_request(check_callback(&q, true, &Some("s".into()))), "oidc error: access_denied no");
    let q = CallbackQuery { error_description: None, ..q };
    assert_eq!(bad_request(check_callback(&q, true, &None)), "oidc error: access_denied ");
    let q = CallbackQuery { error: None, ..q };
    assert!(matches!(check_callback(&q, false, &Some("s".into())), Err(AppError::OidcNotConfigured)));
    let no_code = CallbackQuery { code: None, ..q.clone() };
    assert_eq!(bad_request(check_callback(&no_code, true, &Some("s".into()))), "missing code");
    let no_state = CallbackQuery { state: None, ..q.clone() };
    assert_eq!(bad_request(check_callback(&no_state, true, &Some("s".into()))), "missing state");
    assert_eq!(bad_request(check_callback(&q, true, &None)), "missing state cookie");
    assert_eq!(bad_request(check_callback(&q, true, &Some("other".into()))), "state mismatch");
    assert_eq!(check_callback(&q, true, &Some("s".into())).unwrap(), "c");
}

#[test]
fn authorize_url_carries_the_request() {
    let client = OidcClient::new(oidc());
    assert_eq!(client.redirect_url(), "https://app.example/auth/oidc/callback");
    let url = client.authorize_url("st ate");
    assert_eq!(
        url,
        "https://auth.example/authorize?response_type=code&client_id=cid&redirect_uri=https%3A%2F%2Fapp.example%2Fauth%2Foidc%2Fcallback&scope=openid+profile+email&state=st+ate"
    );
    let broken = OidcClient::new(OidcConfig { auth_uri: "not a url".into(), ..oidc() });
    assert_eq!(broken.try_authorize_url("s"), None);
}

#[test]
fn random_states_are_43_url_safe_chars() {
    let a = random_state();
    let b = random_state();
    assert_eq!(a.len(), 43);
    assert!(a.chars().all(|c| c.is_ascii_alphanumeric() || c == '-' || c == '_'));
    assert_ne!(a, b);
}

#[test]
fn oidc_endpoint_errors_carry_details() {
    use_error(ai_career_copilot::auth::token_status_error("400 Bad Request", "nope"), "token endpoint returned 400 Bad Request: nope");
    use_error(ai_career_copilot::auth::token_request_error("timeout"), "token request failed: timeout");
    use_error(ai_career_copilot::auth::token_decode_error("eof"), "decode token response: eof");
    use_error(ai_career_copilot::auth::userinfo_missing_error(), "userinfo_uri not configured");
    use_error(ai_career_copilot::auth::userinfo_request_error("dns"), "userinfo request failed: dns");
    use_error(ai_career_copilot::auth::userinfo_status_error("401 Unauthorized", "x"), "userinfo endpoint returned 401 Unauthorized: x");
    use_error(ai_career_copilot::auth::userinfo_decode_error("bad"), "decode userinfo: bad");
}

fn use_error(e: AppError, expected: &str) {
    match e {
        AppError::Other(m) => assert_eq!(m, expected),
        _ => panic!("expected an Other error"),
    }
}
