use ai_career_copilot::config::EnvDefaults;
use ai_career_copilot::settings::{
    api_key_hint, next_settings, seeded_values, AppSettings, AppSettingsView,
    UpdateSettingsPayload, DEFAULT_LLM_BASE_URL, DEFAULT_LLM_MODEL,
};

fn settings(url: &str, model: &str, key: &str) -> AppSettings {
    AppSettings {
        scope: "global".to_string(),
        llm_base_url: url.to_string(),
        llm_api_key: key.to_string(),
        llm_model: model.to_string(),
        updated_at: "2024-01-01 00:00:00".to_string(),
    }
}

#[test]
fn key_hint_shows_last_four_chars() {
    assert_eq!(api_key_hint("sk-abcdef"), "****cdef");
    assert_eq!(api_key_hint("  sk-1234  "), "****1234");
    assert_eq!(api_key_hint("abc"), "****");
    assert_eq!(api_key_hint("abcd"), "****");
    assert_eq!(api_key_hint("   "), "");
    assert_eq!(api_key_hint("abc中"), "****");
    assert_eq!(api_key_hint("sk-密钥"), "****k-密钥");
}

#[test]
fn key_hint_counts_characters() {
    assert_eq!(api_key_hint("ééé"), "****");
    assert_eq!(api_key_hint("a中中"), "****");
    assert_eq!(api_key_hint("中中中中中"), "****中中中中");
}

#[test]
fn configured_needs_a_non_blank_key() {
    assert!(settings("u", "m", "k").llm_configured());
    assert!(!settings("u", "m", "  ").llm_configured());
    assert!(!settings("u", "m", "").llm_configured());
}

#[test]
fn view_masks_the_key() {
    let s = settings("https://api.x/v1", "gpt", "sk-secret-9876");
    let v = AppSettingsView::of(&s);
    assert_eq!(v.llm_api_key_hint, "****9876");
    assert!(v.llm_configured);
    assert_eq!(v.llm_base_url, "https://api.x/v1");
    assert_eq!(v.llm_model, "gpt");
    assert_eq!(v.updated_at, "2024-01-01 00:00:00");
}

#[test]
fn update_merges_fields() {
    let current = settings("https://a/v1", "m1", "k1");
    let p = UpdateSettingsPayload {
        llm_base_url: Some("  https://b/v1 ".to_string()),
        llm_model: Some("   ".to_string()),
        llm_api_key: None,
    };
    let next = next_settings(&current, &p);
    assert_eq!(next.llm_base_url, "https://b/v1");
    assert_eq!(next.llm_model, "m1");
    assert_eq!(next.llm_api_key, "k1");

    let clear = UpdateSettingsPayload { llm_api_key: Some(String::new()), ..Default::default() };
    let next = next_settings(&current, &clear);
    assert_eq!(next.llm_api_key, "");
    assert_eq!(next.llm_base_url, "https://a/v1");
}

#[test]
fn update_twice_is_update_once() {
    let current = settings("https://a/v1", "m1", "k1");
    let p = UpdateSettingsPayload {
        llm_base_url: Some(" https://c ".to_string()),
        llm_model: Some("m2".to_string()),
        llm_api_key: Some("k2".to_string()),
    };
    let once = next_settings(&current, &p);
    let again = next_settings(
        &settings(&once.llm_base_url, &once.llm_model, &once.llm_api_key),
        &p,
    );
    assert_eq!(once.llm_base_url, again.llm_base_url);
    assert_eq!(once.llm_model, again.llm_model);
    assert_eq!(once.llm_api_key, again.llm_api_key);
}

#[test]
fn seeding_fills_defaults_only() {
    let env = EnvDefaults {
        llm_base_url: Some("https://proxy/v1".to_string()),
        llm_api_key: Some("sk-env".to_string()),
        llm_model: Some("gpt-4o".to_string()),
    };
    let fresh = settings(DEFAULT_LLM_BASE_URL, DEFAULT_LLM_MODEL, "");
    let seeded = seeded_values(&fresh, &env).unwrap();
    assert_eq!(seeded.llm_base_url, "https://proxy/v1");
    assert_eq!(seeded.llm_model, "gpt-4o");
    assert_eq!(seeded.llm_api_key, "sk-env");
    let after = settings(&seeded.llm_base_url, &seeded.llm_model, &seeded.llm_api_key);
    assert!(seeded_values(&after, &env).is_none());

    let user = settings("https://mine/v1", "mine", "sk-mine");
    assert!(seeded_values(&user, &env).is_none());
}

#[test]
fn seeding_ignores_blank_env_values() {
    let env = EnvDefaults {
        llm_base_url: Some("  ".to_string()),
        llm_api_key: Some(" ".to_string()),
        llm_model: None,
    };
    let fresh = settings(DEFAULT_LLM_BASE_URL, DEFAULT_LLM_MODEL, "");
    assert!(seeded_values(&fresh, &env).is_none());
}
