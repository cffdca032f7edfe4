//! Errors the handlers answer with.
use vstd::prelude::*;

verus! {

/// An error answered to the client.
#[derive(Debug, Clone)]
pub enum AppError {
    /// The resource does not exist or belongs to another user.
    NotFound,
    /// The request was rejected; the message says why.
    BadRequest(String),
    /// OIDC login was requested but no OIDC client is configured.
    OidcNotConfigured,
    /// The LLM provider is not configured or failed.
    Llm(String),
    /// Any other failure (storage, files, token signing).
    Other(String),
}

/// Plain-value view of an [`AppError`].
pub enum AppErrorView {
    NotFound,
    BadRequest(Seq<char>),
    OidcNotConfigured,
    Llm(Seq<char>),
    Other(Seq<char>),
}

impl View for AppError {
    type V = AppErrorView;

    open spec fn view(&self) -> AppErrorView {
        match self {
            AppError::NotFound => AppErrorView::NotFound,
            AppError::BadRequest(m) => AppErrorView::BadRequest(m@),
            AppError::OidcNotConfigured => AppErrorView::OidcNotConfigured,
            AppError::Llm(m) => AppErrorView::Llm(m@),
            AppError::Other(m) => AppErrorView::Other(m@),
        }
    }
}

pub open spec fn status_of(e: AppErrorView) -> u16 {
    match e {
        AppErrorView::NotFound => 404,
        AppErrorView::BadRequest(_) => 400,
        AppErrorView::OidcNotConfigured => 503,
        AppErrorView::Llm(_) => 502,
        AppErrorView::Other(_) => 500,
    }
}

impl AppError {
    /// The HTTP status the error is answered with.
    pub fn status_code(&self) -> (s: u16)
        ensures
            s == status_of(self@),
    {
        match self {
            AppError::NotFound => 404,
            AppError::BadRequest(_) => 400,
            AppError::OidcNotConfigured => 503,
            AppError::Llm(_) => 502,
            AppError::Other(_) => 500,
        }
    }
}

} // verus!
