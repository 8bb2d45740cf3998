//! The decision logic of the cookie-aware middleware: one request cycle
//! as a phase machine, the attachment step before delegation, and the
//! observation step after a successful response. The asynchronous
//! delegation itself belongs to the caller that wraps an inner handler.
use vstd::prelude::*;

use crate::jar::{reflects_snapshot_query, CookieStore, Jar};
use crate::request_url::{is_parsed_request_url, parse_request_url, url_text_accepted};
use crate::store::{url_wf, UrlParts};

verus! {

/// The phases of one request/response cycle.
#[derive(Clone, Copy, PartialEq, Eq, Structural, Debug)]
pub enum CyclePhase {
    Received,
    CookieAttached,
    Delegated,
    ResponseObserved,
    Completed,
    Failed,
}

/// The cycle's transition relation: each successful step moves one phase
/// along `Received → CookieAttached → Delegated → ResponseObserved →
/// Completed`; a failing step moves to `Failed`; `Completed` and
/// `Failed` are final.
pub open spec fn next_phase(p: CyclePhase, ok: bool) -> CyclePhase {
    if !ok {
        CyclePhase::Failed
    } else {
        match p {
            CyclePhase::Received => CyclePhase::CookieAttached,
            CyclePhase::CookieAttached => CyclePhase::Delegated,
            CyclePhase::Delegated => CyclePhase::ResponseObserved,
            CyclePhase::ResponseObserved => CyclePhase::Completed,
            CyclePhase::Completed => CyclePhase::Completed,
            CyclePhase::Failed => CyclePhase::Failed,
        }
    }
}

/// Advances the cycle by one step that succeeded or failed.
pub fn advance_phase(p: CyclePhase, ok: bool) -> (r: CyclePhase)
    ensures
        r == next_phase(p, ok),
{
    if !ok {
        CyclePhase::Failed
    } else {
        match p {
            CyclePhase::Received => CyclePhase::CookieAttached,
            CyclePhase::CookieAttached => CyclePhase::Delegated,
            CyclePhase::Delegated => CyclePhase::ResponseObserved,
            CyclePhase::ResponseObserved => CyclePhase::Completed,
            CyclePhase::Completed => CyclePhase::Completed,
            CyclePhase::Failed => CyclePhase::Failed,
        }
    }
}

/// The failures the middleware surfaces: a request without a valid
/// absolute URL, or a failure of the wrapped inner handler. Cookie
/// parsing and header encoding failures are absorbed silently.
#[derive(Clone, Copy, PartialEq, Eq, Structural, Debug)]
pub enum MiddlewareError {
    MalformedRequestUrl,
    Delegation,
}

impl MiddlewareError {
    /// A short description, in place of a `Display` rendering.
    pub fn message(&self) -> (r: &'static str) {
        match self {
            MiddlewareError::MalformedRequestUrl => "request carries no valid absolute URL",
            MiddlewareError::Delegation => "error extracting the inner handler's response",
        }
    }
}

/// The attachment step: derive the request's URL from its addressing
/// text — exactly the texts `url_text_accepted` admits succeed, and a
/// malformed URL fails the call before any cookie logic — then read the
/// jar for the `Cookie` header to set: a value whose text is the joined
/// pairs some snapshot of the jar yields for that URL, or nothing when
/// the snapshot matches nothing or its rendering cannot be a header.
pub fn attach_cookies(jar: &Jar, url_text: &str) -> (r: Result<
    (UrlParts, Option<http::HeaderValue>),
    MiddlewareError,
>)
    ensures
        r is Ok <==> url_text_accepted(url_text@),
        r matches Ok(p) ==> is_parsed_request_url(url_text@, p.0) && url_wf(p.0),
        r matches Ok(p) ==> reflects_snapshot_query(p.1, p.0),
        r matches Err(e) ==> e == MiddlewareError::MalformedRequestUrl,
{
    match parse_request_url(url_text) {
        Some(u) => {
            let hv = jar.cookies(&u);
            Ok((u, hv))
        },
        None => Err(MiddlewareError::MalformedRequestUrl),
    }
}

/// The observation step after a successful response: parse every
/// `Set-Cookie` header independently, drop the malformed, and ingest the
/// rest into the jar, scoped to the same URL used for attachment.
pub fn observe_response(jar: &Jar, set_cookie_headers: &Vec<http::HeaderValue>, url: &UrlParts) {
    jar.set_cookies_from_response_headers(set_cookie_headers, url);
}

} // verus!
