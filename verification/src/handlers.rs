//! The request frontend's decision logic: error responses, the admin switch,
//! and the caller-id check. The HTTP transport around these lives with the
//! caller.

use crate::errors::ServerError;
use vstd::prelude::*;

verus! {

/// The admin endpoint's body: an optional dry-run switch and an optional log
/// directive.
#[derive(Debug, Clone)]
pub struct AdminRequest {
    pub dry_run: Option<bool>,
    pub log_level: Option<String>,
}

/// The uniform error body every endpoint answers with.
#[derive(Debug, Clone)]
pub struct ExecutorResponse {
    pub code: u16,
    pub reason: String,
    pub details: Option<ErrorDetails>,
}

/// Optional detail fields of an error body.
#[derive(Debug, Clone)]
pub struct ErrorDetails {
    pub target: Option<String>,
    pub ttl: Option<String>,
}

/// An internal-error body with the given reason.
pub fn internal(reason: String) -> (r: ExecutorResponse)
    ensures
        r.code == 500,
        r.reason@ == reason@,
        r.details is None,
{
    ExecutorResponse { code: 500, reason, details: None }
}

/// A bad-request body with the given reason.
pub fn bad_request(reason: String) -> (r: ExecutorResponse)
    ensures
        r.code == 400,
        r.reason@ == reason@,
        r.details is None,
{
    ExecutorResponse { code: 400, reason, details: None }
}

/// The error body for a failed operation: the error's status code and its
/// message.
pub fn error_response(e: &ServerError) -> (r: ExecutorResponse)
    ensures
        r.code == e.spec_http_code(),
        r.reason@ == e.spec_message(),
        r.details is None,
{
    ExecutorResponse { code: e.http_code(), reason: e.message(), details: None }
}

/// What the admin endpoint sets the dry-run switch to: the requested value,
/// or the current one where the request names none.
pub fn new_dry_run(current: bool, req: &AdminRequest) -> (r: bool)
    ensures
        req.dry_run matches Some(v) ==> r == v,
        req.dry_run is None ==> r == current,
{
    match req.dry_run {
        Some(v) => v,
        None => current,
    }
}

/// Accepts the caller id carried on a ban: present and non-empty, it is
/// handed through; otherwise the request is rejected.
pub fn check_analyzer_id(header: Option<String>) -> (r: Result<String, ServerError>)
    ensures
        match r {
            Ok(a) => header matches Some(h) && h@ == a@ && a@.len() > 0,
            Err(e) => (e matches ServerError::BadRequest(m) && m@
                == "Empty X-Analyzer-Id header"@) && (header matches Some(h) ==> h@.len() == 0),
        },
{
    match header {
        Some(h) => {
            if h.as_str().is_empty() {
                Err(ServerError::BadRequest(String::from_str("Empty X-Analyzer-Id header")))
            } else {
                Ok(h)
            }
        },
        None => Err(ServerError::BadRequest(String::from_str("Empty X-Analyzer-Id header"))),
    }
}

} // verus!
