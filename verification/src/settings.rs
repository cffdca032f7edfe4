//! Per-instance application settings (the LLM provider).
//!
//! The values live in a single settings row edited from the Settings page;
//! environment values only seed a fresh row. This module holds the row's
//! type, the masked view sent to the browser, and the rules that decide the
//! next values on an update and on seeding.
use vstd::prelude::*;

use crate::config::EnvDefaults;
use crate::text::{blank, chars_eq, chars_of, is_blank, string_of, trim, trim_range, trimmed};

verus! {

/// Scope of the single settings row.
pub const GLOBAL_SCOPE: &'static str = "global";

/// Base URL a fresh settings row starts with.
pub const DEFAULT_LLM_BASE_URL: &'static str = "https://api.deepseek.com/v1";

/// Model a fresh settings row starts with.
pub const DEFAULT_LLM_MODEL: &'static str = "deepseek-chat";

/// The settings row.
#[derive(Debug, Clone)]
pub struct AppSettings {
    pub scope: String,
    pub llm_base_url: String,
    pub llm_api_key: String,
    pub llm_model: String,
    pub updated_at: String,
}

/// What is sent to the browser: the API key is reduced to a hint.
#[derive(Debug, Clone)]
pub struct AppSettingsView {
    pub llm_base_url: String,
    pub llm_model: String,
    /// Last 4 characters of the API key, prefixed by `****`. The full key is
    /// never returned after it is saved.
    pub llm_api_key_hint: String,
    pub llm_configured: bool,
    pub updated_at: String,
}

/// Answer of the settings endpoints: the view of the settings row.
#[derive(Debug, Clone)]
pub struct GetSettingsResponse {
    pub view: AppSettingsView,
}

/// A settings update; every field is optional.
#[derive(Debug, Clone, Default)]
pub struct UpdateSettingsPayload {
    pub llm_base_url: Option<String>,
    pub llm_model: Option<String>,
    /// `None` leaves the existing key untouched; `Some("")` clears it.
    pub llm_api_key: Option<String>,
}

/// The three provider values an update or a seed writes.
#[derive(Debug, Clone)]
pub struct LlmSettingsValues {
    pub llm_base_url: String,
    pub llm_model: String,
    pub llm_api_key: String,
}

impl View for LlmSettingsValues {
    type V = (Seq<char>, Seq<char>, Seq<char>);

    open spec fn view(&self) -> Self::V {
        (self.llm_base_url@, self.llm_model@, self.llm_api_key@)
    }
}

pub open spec fn opt_str_view(o: Option<String>) -> Option<Seq<char>> {
    match o {
        Some(s) => Some(s@),
        None => None,
    }
}

/// An LLM is configured when the API key is not blank.
pub open spec fn configured(key: Seq<char>) -> bool {
    !is_blank(key)
}

impl AppSettings {
    /// Whether an API key is set.
    pub fn llm_configured(&self) -> (r: bool)
        ensures
            r == configured(self.llm_api_key@),
    {
        !blank(self.llm_api_key.as_str())
    }

    /// The provider values as stored.
    pub open spec fn values(&self) -> (Seq<char>, Seq<char>, Seq<char>) {
        (self.llm_base_url@, self.llm_model@, self.llm_api_key@)
    }
}

// ---------------------------------------------------------------------------
// Key hint
// ---------------------------------------------------------------------------
/// The hint: empty without a key, `****` for keys of at most four
/// characters, else `****` followed by the key's last four characters (key
/// trimmed).
pub open spec fn key_hint(key: Seq<char>) -> Seq<char> {
    let k = trim(key);
    if k.len() == 0 {
        Seq::empty()
    } else if k.len() <= 4 {
        "****"@
    } else {
        "****"@ + k.subrange(k.len() - 4, k.len() as int)
    }
}

/// The hint shown for an API key (see [`key_hint`]).
pub fn api_key_hint(key: &str) -> (r: String)
    ensures
        r@ == key_hint(key@),
{
    let v = chars_of(key);
    let (b, e) = trim_range(v.as_slice(), 0, v.len());
    assert(v@.subrange(0, v@.len() as int) =~= v@);
    let n = e - b;
    if n == 0 {
        return String::new();
    }
    let stars = chars_of("****");
    proof {
        reveal_strlit("****");
    }
    if n <= 4 {
        return string_of(stars.as_slice());
    }
    let mut out = stars;
    let mut i: usize = e - 4;
    while i < e
        invariant
            b + 4 < e <= v@.len(),
            e - 4 <= i <= e,
            out@ == "****"@ + v@.subrange(e - 4, i as int),
        decreases e - i,
    {
        out.push(v[i]);
        assert(v@.subrange(e - 4, i + 1) =~= v@.subrange(e - 4, i as int).push(v@[i as int]));
        i = i + 1;
    }
    proof {
        let k = v@.subrange(b as int, e as int);
        assert(k.subrange(k.len() - 4, k.len() as int) =~= v@.subrange(e - 4, e as int));
    }
    string_of(out.as_slice())
}

impl AppSettingsView {
    /// The view of a settings row.
    pub fn of(s: &AppSettings) -> (v: Self)
        ensures
            v.llm_base_url@ == s.llm_base_url@,
            v.llm_model@ == s.llm_model@,
            v.llm_api_key_hint@ == key_hint(s.llm_api_key@),
            v.llm_configured == configured(s.llm_api_key@),
            v.updated_at@ == s.updated_at@,
    {
        AppSettingsView {
            llm_base_url: s.llm_base_url.clone(),
            llm_model: s.llm_model.clone(),
            llm_api_key_hint: api_key_hint(s.llm_api_key.as_str()),
            llm_configured: s.llm_configured(),
            updated_at: s.updated_at.clone(),
        }
    }
}

/// The hint never shows more of the key than its last four characters: it
/// is `****` followed by a suffix of the trimmed key of at most four
/// characters, which for keys longer than four characters is exactly their
/// last four and shorter than the key.
pub proof fn law_hint_reveals_at_most_four_chars(key: Seq<char>)
    ensures
        trim(key).len() == 0 ==> key_hint(key).len() == 0,
        trim(key).len() > 0 ==> exists|s: Seq<char>|
            #![trigger trim(key).subrange(trim(key).len() - s.len(), trim(key).len() as int)]
            key_hint(key) == "****"@ + s && s.len() <= 4 && s.len() <= trim(key).len() && s
                == trim(key).subrange(trim(key).len() - s.len(), trim(key).len() as int) && (trim(
                key,
            ).len() > 4 ==> s.len() == 4 && s.len() < trim(key).len()),
{
    let k = trim(key);
    if k.len() > 0 {
        if k.len() <= 4 {
            let s = Seq::<char>::empty();
            assert("****"@ + s =~= "****"@);
            assert(s =~= k.subrange(k.len() - s.len(), k.len() as int));
        } else {
            let s = k.subrange(k.len() - 4, k.len() as int);
            assert(s.len() == 4);
        }
    }
}

/// The hint tells of a key only whether it is set, whether it is longer
/// than four characters and, if so, its last four characters: two keys
/// that agree on these get the same hint.
pub proof fn law_hint_depends_only_on_last_four(key1: Seq<char>, key2: Seq<char>)
    requires
        (trim(key1).len() == 0) == (trim(key2).len() == 0),
        (trim(key1).len() > 4) == (trim(key2).len() > 4),
        trim(key1).len() > 4 ==> trim(key1).subrange(trim(key1).len() - 4, trim(key1).len() as int)
            == trim(key2).subrange(trim(key2).len() - 4, trim(key2).len() as int),
    ensures
        key_hint(key1) == key_hint(key2),
{
}

// ---------------------------------------------------------------------------
// Updates
// ---------------------------------------------------------------------------
/// A text field of an update: a non-blank value is stored trimmed; a blank
/// or absent one leaves `cur` unchanged.
pub open spec fn text_update(new: Option<Seq<char>>, cur: Seq<char>) -> Seq<char> {
    match new {
        Some(v) => if !is_blank(v) {
            trim(v)
        } else {
            cur
        },
        None => cur,
    }
}

impl UpdateSettingsPayload {
    /// The values (base URL, model, key) after applying this update to
    /// `current`. An absent key leaves the key unchanged; a present one, even
    /// empty, replaces it.
    pub open spec fn applied_to(self, current: (Seq<char>, Seq<char>, Seq<char>)) -> (
        Seq<char>,
        Seq<char>,
        Seq<char>,
    ) {
        (
            text_update(opt_str_view(self.llm_base_url), current.0),
            text_update(opt_str_view(self.llm_model), current.1),
            match self.llm_api_key {
                Some(k) => k@,
                None => current.2,
            },
        )
    }
}

fn updated_text(new: &Option<String>, cur: &String) -> (r: String)
    ensures
        r@ == text_update(opt_str_view(*new), cur@),
{
    match new {
        Some(v) => if !blank(v.as_str()) {
            trimmed(v.as_str())
        } else {
            cur.clone()
        },
        None => cur.clone(),
    }
}

/// The values an update writes (see [`UpdateSettingsPayload::applied_to`]).
pub fn next_settings(current: &AppSettings, payload: &UpdateSettingsPayload) -> (r: LlmSettingsValues)
    ensures
        r@ == payload.applied_to(current.values()),
{
    LlmSettingsValues {
        llm_base_url: updated_text(&payload.llm_base_url, &current.llm_base_url),
        llm_model: updated_text(&payload.llm_model, &current.llm_model),
        llm_api_key: match &payload.llm_api_key {
            Some(k) => k.clone(),
            None => current.llm_api_key.clone(),
        },
    }
}

// ---------------------------------------------------------------------------
// Seeding from the environment
// ---------------------------------------------------------------------------
/// A base URL or model still at its default takes a non-blank environment
/// value that differs from it; any other value stays.
pub open spec fn seed_field(cur: Seq<char>, default: Seq<char>, env: Option<Seq<char>>) -> Seq<char> {
    if cur == default {
        match env {
            Some(v) => if !is_blank(v) && v != cur {
                v
            } else {
                cur
            },
            None => cur,
        }
    } else {
        cur
    }
}

/// An empty key takes a non-blank environment value; a set key stays.
pub open spec fn seed_key(cur: Seq<char>, env: Option<Seq<char>>) -> Seq<char> {
    if cur.len() == 0 {
        match env {
            Some(v) => if !is_blank(v) {
                v
            } else {
                cur
            },
            None => cur,
        }
    } else {
        cur
    }
}

impl EnvDefaults {
    /// The values seeding writes over `current`, or `None` when nothing
    /// changes.
    pub open spec fn seed(self, current: (Seq<char>, Seq<char>, Seq<char>)) -> Option<
        (Seq<char>, Seq<char>, Seq<char>),
    > {
        let next = (
            seed_field(current.0, DEFAULT_LLM_BASE_URL@, opt_str_view(self.llm_base_url)),
            seed_field(current.1, DEFAULT_LLM_MODEL@, opt_str_view(self.llm_model)),
            seed_key(current.2, opt_str_view(self.llm_api_key)),
        );
        if next != current {
            Some(next)
        } else {
            None
        }
    }
}

fn same_text(a: &str, b: &str) -> (r: bool)
    ensures
        r == (a@ == b@),
{
    let x = chars_of(a);
    let y = chars_of(b);
    chars_eq(x.as_slice(), y.as_slice())
}

fn seed_text(cur: &String, default: &str, env: &Option<String>) -> (r: String)
    ensures
        r@ == seed_field(cur@, default@, opt_str_view(*env)),
{
    if same_text(cur.as_str(), default) {
        match env {
            Some(v) => if !blank(v.as_str()) && !same_text(v.as_str(), cur.as_str()) {
                v.clone()
            } else {
                cur.clone()
            },
            None => cur.clone(),
        }
    } else {
        cur.clone()
    }
}

fn seed_key_text(cur: &String, env: &Option<String>) -> (r: String)
    ensures
        r@ == seed_key(cur@, opt_str_view(*env)),
{
    if cur.as_str().is_empty() {
        match env {
            Some(v) => if !blank(v.as_str()) {
                v.clone()
            } else {
                cur.clone()
            },
            None => cur.clone(),
        }
    } else {
        cur.clone()
    }
}

/// The values seeding writes, or `None` when the row is left as it is (see
/// [`EnvDefaults::seed`]).
pub fn seeded_values(current: &AppSettings, env: &EnvDefaults) -> (r: Option<LlmSettingsValues>)
    ensures
        match r {
            Some(v) => env.seed(current.values()) == Some(v@),
            None => env.seed(current.values()) is None,
        },
{
    let url = seed_text(&current.llm_base_url, DEFAULT_LLM_BASE_URL, &env.llm_base_url);
    let model = seed_text(&current.llm_model, DEFAULT_LLM_MODEL, &env.llm_model);
    let key = seed_key_text(&current.llm_api_key, &env.llm_api_key);
    if same_text(url.as_str(), current.llm_base_url.as_str()) && same_text(
        model.as_str(),
        current.llm_model.as_str(),
    ) && same_text(key.as_str(), current.llm_api_key.as_str()) {
        None
    } else {
        Some(LlmSettingsValues { llm_base_url: url, llm_model: model, llm_api_key: key })
    }
}

/// An update that sends no key keeps the key; one that sends a key stores
/// exactly that key, so sending an empty key clears it.
pub proof fn law_update_key(current: (Seq<char>, Seq<char>, Seq<char>), p: UpdateSettingsPayload)
    ensures
        p.llm_api_key is None ==> p.applied_to(current).2 == current.2,
        p.llm_api_key matches Some(k) ==> p.applied_to(current).2 == k@,
{
}

/// A blank or absent base URL or model leaves the stored value unchanged;
/// a non-blank one is stored trimmed.
pub proof fn law_update_text_fields(current: (Seq<char>, Seq<char>, Seq<char>), p: UpdateSettingsPayload)
    ensures
        (p.llm_base_url is None || is_blank(p.llm_base_url.unwrap()@)) ==> p.applied_to(current).0
            == current.0,
        (p.llm_model is None || is_blank(p.llm_model.unwrap()@)) ==> p.applied_to(current).1
            == current.1,
        (p.llm_base_url matches Some(u) && !is_blank(u@)) ==> p.applied_to(current).0 == trim(
            p.llm_base_url.unwrap()@,
        ),
        (p.llm_model matches Some(m) && !is_blank(m@)) ==> p.applied_to(current).1 == trim(
            p.llm_model.unwrap()@,
        ),
{
}

/// Applying the same update twice gives the same values as applying it once.
pub proof fn law_update_idempotent(current: (Seq<char>, Seq<char>, Seq<char>), p: UpdateSettingsPayload)
    ensures
        p.applied_to(p.applied_to(current)) == p.applied_to(current),
{
}

/// Seeding never overwrites user-supplied configuration: a base URL or
/// model that differs from its default, and a non-empty key, are kept.
pub proof fn law_seed_keeps_user_values(current: (Seq<char>, Seq<char>, Seq<char>), env: EnvDefaults)
    ensures
        env.seed(current) matches Some(next) ==> {
            &&& current.0 != DEFAULT_LLM_BASE_URL@ ==> next.0 == current.0
            &&& current.1 != DEFAULT_LLM_MODEL@ ==> next.1 == current.1
            &&& current.2.len() != 0 ==> next.2 == current.2
        },
{
}

/// Seeding a second time with the same environment changes nothing.
pub proof fn law_seed_idempotent(current: (Seq<char>, Seq<char>, Seq<char>), env: EnvDefaults)
    ensures
        env.seed(current) matches Some(next) ==> env.seed(next) is None,
{
    if let Some(next) = env.seed(current) {
        if next.2 != current.2 {
            assert(!is_blank(next.2));
            assert(next.2.len() != 0) by {
                if next.2.len() == 0 {
                    assert(trim(next.2) =~= next.2);
                }
            }
        }
    }
}

} // verus!
