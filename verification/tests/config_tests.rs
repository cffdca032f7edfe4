use ai_career_copilot::config::{oidc_from_vars, Config, EnvVars};
use ai_career_copilot::error::AppError;
use ai_career_copilot::sessions::{
    default_session_title, format_time_stamp, oldest_first, session_title, Message,
};
use ai_career_copilot::web::{asset_path, served_asset};

fn some(s: &str) -> Option<String> {
    Some(s.to_string())
}

#[test]
fn defaults_without_environment() {
    let c = Config::from_vars(&EnvVars::default());
    assert_eq!(c.bind_addr, "0.0.0.0:8080");
    assert_eq!(c.data_dir, "./data");
    assert_eq!(c.database_url, "sqlite://./data/app.db?mode=rwc");
    assert_eq!(c.session_secret, "change-me-in-production-please");
    assert_eq!(c.app_domain, "localhost:8080");
    assert!(c.oidc.is_none());
    assert!(c.email_login_enabled);
    assert!(c.env_defaults.llm_api_key.is_none());
}

#[test]
fn lazycat_environment() {
    let vars = EnvVars {
        data_dir: some("/data"),
        lazycat_app_domain: some("copilot.box.heiyu.space"),
        app_domain: some("ignored"),
        oidc_client_id: some("cid"),
        oidc_client_secret: some("sec"),
        oidc_auth_uri: some("https://a/auth"),
        oidc_token_uri: some("https://a/token"),
        llm_api_key: some(""),
        llm_model: some("m"),
        ..EnvVars::default()
    };
    let c = Config::from_vars(&vars);
    assert_eq!(c.database_url, "sqlite:///data/app.db?mode=rwc");
    assert_eq!(c.app_domain, "copilot.box.heiyu.space");
    let o = c.oidc.unwrap();
    assert_eq!(o.redirect_url, "https://copilot.box.heiyu.space/auth/oidc/callback");
    assert_eq!(o.userinfo_uri, None);
    assert!(!c.email_login_enabled);
    assert!(c.env_defaults.llm_api_key.is_none());
    assert_eq!(c.env_defaults.llm_model.as_deref(), Some("m"));
}

#[test]
fn oidc_needs_non_empty_credentials() {
    let vars = EnvVars {
        oidc_client_id: some("cid"),
        oidc_client_secret: some(""),
        oidc_auth_uri: some("https://a/auth"),
        oidc_token_uri: some("https://a/token"),
        ..EnvVars::default()
    };
    assert!(oidc_from_vars(&vars, "d").is_none());
    let vars = EnvVars { oidc_client_secret: some("s"), oidc_redirect_url: some("https://r"), ..vars };
    assert_eq!(oidc_from_vars(&vars, "d").unwrap().redirect_url, "https://r");
}

#[test]
fn session_titles() {
    let d = default_session_title();
    assert!(d.starts_with("新对话 · "));
    let stamp: Vec<char> = d.chars().skip(6).collect();
    assert_eq!(stamp.len(), 11);
    assert!(stamp.iter().enumerate().all(|(i, c)| match i {
        2 => *c == '-',
        5 => *c == ' ',
        8 => *c == ':',
        _ => c.is_ascii_digit(),
    }));
    assert_eq!(session_title(Some("面试".into()), "默认".into()), "面试");
    assert_eq!(session_title(Some("  ".into()), "默认".into()), "默认");
    assert_eq!(session_title(None, "默认".into()), "默认");
}

#[test]
fn history_in_conversation_order() {
    let m = |id: &str| Message {
        id: id.into(),
        session_id: "s".into(),
        role: "user".into(),
        content: id.into(),
        created_at: "t".into(),
    };
    let out = oldest_first(vec![m("3"), m("2"), m("1")]);
    let ids: Vec<&str> = out.iter().map(|x| x.id.as_str()).collect();
    assert_eq!(ids, vec!["1", "2", "3"]);
}

#[test]
fn assets_and_errors() {
    assert_eq!(asset_path("//assets/app.js"), "assets/app.js");
    assert_eq!(asset_path("/"), "");
    assert_eq!(served_asset("assets/app.js", true), "assets/app.js");
    assert_eq!(served_asset("c/123", false), "index.html");
    assert_eq!(served_asset("", true), "index.html");
    assert_eq!(AppError::NotFound.status_code(), 404);
    assert_eq!(AppError::BadRequest("x".into()).status_code(), 400);
    assert_eq!(AppError::OidcNotConfigured.status_code(), 503);
}

#[test]
fn time_stamps_are_zero_padded() {
    assert_eq!(format_time_stamp(3, 7, 9, 5), "03-07 09:05");
    assert_eq!(format_time_stamp(12, 31, 23, 59), "12-31 23:59");
}
