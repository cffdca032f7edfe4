//! Runtime configuration assembled from environment variables.
//!
//! Lazycat injects the `LAZYCAT_AUTH_OIDC_*` and `LAZYCAT_APP_DOMAIN`
//! variables at install time, so the app needs no user-supplied OIDC
//! credentials. LLM credentials are not part of the configuration: they live
//! in the settings row; [`EnvDefaults`] only carries optional seed values.
//! Reading the environment is the caller's business: this module turns the
//! values read into a [`Config`].
use vstd::prelude::*;

use crate::text::{chars_of, concat, string_of};

verus! {

/// Runtime configuration.
#[derive(Debug, Clone)]
pub struct Config {
    pub bind_addr: String,
    pub data_dir: String,
    pub database_url: String,
    pub session_secret: String,
    pub oidc: Option<OidcConfig>,
    /// True when no Lazycat OIDC is configured: a password-less email login
    /// is then offered instead.
    pub email_login_enabled: bool,
    pub app_domain: String,
    pub env_defaults: EnvDefaults,
}

/// Lazycat OIDC client settings.
#[derive(Debug, Clone)]
pub struct OidcConfig {
    pub client_id: String,
    pub client_secret: String,
    pub auth_uri: String,
    pub token_uri: String,
    pub userinfo_uri: Option<String>,
    pub redirect_url: String,
}

/// Optional seed values for the settings row.
#[derive(Debug, Clone, Default)]
pub struct EnvDefaults {
    pub llm_base_url: Option<String>,
    pub llm_api_key: Option<String>,
    pub llm_model: Option<String>,
}

/// The environment variables the configuration reads; `None` where a
/// variable is unset (or not valid Unicode).
#[derive(Debug, Clone, Default)]
pub struct EnvVars {
    pub bind_addr: Option<String>,
    pub data_dir: Option<String>,
    pub database_url: Option<String>,
    pub session_secret: Option<String>,
    pub lazycat_app_domain: Option<String>,
    pub app_domain: Option<String>,
    pub oidc_client_id: Option<String>,
    pub oidc_client_secret: Option<String>,
    pub oidc_auth_uri: Option<String>,
    pub oidc_token_uri: Option<String>,
    pub oidc_userinfo_uri: Option<String>,
    pub oidc_redirect_url: Option<String>,
    pub llm_base_url: Option<String>,
    pub llm_api_key: Option<String>,
    pub llm_model: Option<String>,
}

pub open spec fn view_or(o: Option<String>, default: Seq<char>) -> Seq<char> {
    match o {
        Some(s) => s@,
        None => default,
    }
}

pub open spec fn opt_view(o: Option<String>) -> Option<Seq<char>> {
    match o {
        Some(s) => Some(s@),
        None => None,
    }
}

/// A seed value counts only when set and not empty.
pub open spec fn non_empty(o: Option<String>) -> Option<Seq<char>> {
    match o {
        Some(s) => if s@.len() > 0 {
            Some(s@)
        } else {
            None
        },
        None => None,
    }
}

/// The domain the app is served on.
pub open spec fn app_domain_of(vars: EnvVars) -> Seq<char> {
    match vars.lazycat_app_domain {
        Some(d) => d@,
        None => view_or(vars.app_domain, "localhost:8080"@),
    }
}

/// OIDC is configured when client id, secret, authorization and token URIs
/// are all set and the id and secret are not empty.
pub open spec fn oidc_present(vars: EnvVars) -> bool {
    &&& vars.oidc_client_id matches Some(id) && id@.len() > 0
    &&& vars.oidc_client_secret matches Some(secret) && secret@.len() > 0
    &&& vars.oidc_auth_uri is Some
    &&& vars.oidc_token_uri is Some
}

/// Redirect URL: the injected one, else the callback path on the domain.
pub open spec fn redirect_url_of(vars: EnvVars, domain: Seq<char>) -> Seq<char> {
    view_or(vars.oidc_redirect_url, "https://"@ + domain + "/auth/oidc/callback"@)
}

impl OidcConfig {
    pub open spec fn matches_vars(&self, vars: EnvVars, domain: Seq<char>) -> bool {
        &&& Some(self.client_id@) == opt_view(vars.oidc_client_id)
        &&& Some(self.client_secret@) == opt_view(vars.oidc_client_secret)
        &&& Some(self.auth_uri@) == opt_view(vars.oidc_auth_uri)
        &&& Some(self.token_uri@) == opt_view(vars.oidc_token_uri)
        &&& opt_view(self.userinfo_uri) == opt_view(vars.oidc_userinfo_uri)
        &&& self.redirect_url@ == redirect_url_of(vars, domain)
    }
}

fn or_default(o: &Option<String>, default: &str) -> (r: String)
    ensures
        r@ == view_or(*o, default@),
{
    match o {
        Some(s) => s.clone(),
        None => string_of(chars_of(default).as_slice()),
    }
}

fn keep_non_empty(o: &Option<String>) -> (r: Option<String>)
    ensures
        opt_view(r) == non_empty(*o),
{
    match o {
        Some(s) => if s.as_str().is_empty() {
            None
        } else {
            Some(s.clone())
        },
        None => None,
    }
}

/// The OIDC client settings, when the variables configure one.
pub fn oidc_from_vars(vars: &EnvVars, app_domain: &str) -> (r: Option<OidcConfig>)
    ensures
        r is Some <==> oidc_present(*vars),
        r matches Some(c) ==> c.matches_vars(*vars, app_domain@),
{
    let client_id = match &vars.oidc_client_id {
        Some(v) => v.clone(),
        None => return None,
    };
    let client_secret = match &vars.oidc_client_secret {
        Some(v) => v.clone(),
        None => return None,
    };
    let auth_uri = match &vars.oidc_auth_uri {
        Some(v) => v.clone(),
        None => return None,
    };
    let token_uri = match &vars.oidc_token_uri {
        Some(v) => v.clone(),
        None => return None,
    };
    if client_id.as_str().is_empty() || client_secret.as_str().is_empty() {
        return None;
    }
    let userinfo_uri = vars.oidc_userinfo_uri.clone();
    let redirect_url = match &vars.oidc_redirect_url {
        Some(v) => v.clone(),
        None => {
            let with_host = concat("https://", app_domain);
            concat(with_host.as_str(), "/auth/oidc/callback")
        },
    };
    Some(OidcConfig { client_id, client_secret, auth_uri, token_uri, userinfo_uri, redirect_url })
}

impl Config {
    /// Every field as [`Config::from_vars`] fills it from `vars`.
    pub open spec fn matches_vars(&self, vars: EnvVars) -> bool {
        let data_dir = view_or(vars.data_dir, "./data"@);
        let domain = app_domain_of(vars);
        &&& self.bind_addr@ == view_or(vars.bind_addr, "0.0.0.0:8080"@)
        &&& self.data_dir@ == data_dir
        &&& self.database_url@ == view_or(
            vars.database_url,
            "sqlite://"@ + data_dir + "/app.db?mode=rwc"@,
        )
        &&& self.session_secret@ == view_or(vars.session_secret, "change-me-in-production-please"@)
        &&& self.app_domain@ == domain
        &&& (self.oidc is Some <==> oidc_present(vars))
        &&& (self.oidc matches Some(c) ==> c.matches_vars(vars, domain))
        &&& self.email_login_enabled == !oidc_present(vars)
        &&& opt_view(self.env_defaults.llm_base_url) == non_empty(vars.llm_base_url)
        &&& opt_view(self.env_defaults.llm_api_key) == non_empty(vars.llm_api_key)
        &&& opt_view(self.env_defaults.llm_model) == non_empty(vars.llm_model)
    }

    /// The configuration for the given environment: defaults for unset
    /// variables, OIDC when fully configured, email login otherwise.
    pub fn from_vars(vars: &EnvVars) -> (c: Config)
        ensures
            c.matches_vars(*vars),
            vars.lazycat_app_domain matches Some(d) ==> c.app_domain@ == d@,
            vars.lazycat_app_domain is None ==> (vars.app_domain matches Some(d) ==> c.app_domain@
                == d@),
            vars.lazycat_app_domain is None && vars.app_domain is None ==> c.app_domain@
                == "localhost:8080"@,
    {
        let bind_addr = or_default(&vars.bind_addr, "0.0.0.0:8080");
        let data_dir = or_default(&vars.data_dir, "./data");
        let database_url = match &vars.database_url {
            Some(v) => v.clone(),
            None => {
                let prefix = concat("sqlite://", data_dir.as_str());
                concat(prefix.as_str(), "/app.db?mode=rwc")
            },
        };
        let session_secret = or_default(&vars.session_secret, "change-me-in-production-please");
        let app_domain = match &vars.lazycat_app_domain {
            Some(d) => d.clone(),
            None => or_default(&vars.app_domain, "localhost:8080"),
        };
        let oidc = oidc_from_vars(vars, app_domain.as_str());
        let email_login_enabled = oidc.is_none();
        let env_defaults = EnvDefaults {
            llm_base_url: keep_non_empty(&vars.llm_base_url),
            llm_api_key: keep_non_empty(&vars.llm_api_key),
            llm_model: keep_non_empty(&vars.llm_model),
        };
        Config {
            bind_addr,
            data_dir,
            database_url,
            session_secret,
            oidc,
            email_login_enabled,
            app_domain,
            env_defaults,
        }
    }
}

/// The app domain is `LAZYCAT_APP_DOMAIN` when set, else `APP_DOMAIN` when
/// set, and `localhost:8080` only when neither is; the OIDC redirect URL,
/// when not injected, is the callback path on that domain.
pub proof fn law_app_domain_fallbacks(vars: EnvVars)
    ensures
        vars.lazycat_app_domain matches Some(d) ==> app_domain_of(vars) == d@,
        vars.lazycat_app_domain is None ==> (vars.app_domain matches Some(d) ==> app_domain_of(vars)
            == d@),
        vars.lazycat_app_domain is None && vars.app_domain is None ==> app_domain_of(vars)
            == "localhost:8080"@,
        vars.oidc_redirect_url is None ==> redirect_url_of(vars, app_domain_of(vars)) == "https://"@
            + app_domain_of(vars) + "/auth/oidc/callback"@,
{
}

} // verus!
