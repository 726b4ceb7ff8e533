//! The refusals a request can end in, each with the words the caller reads.

use vstd::prelude::*;

verus! {

/// Why a request is refused; the variant decides the status code the caller receives.
#[derive(Debug)]
pub enum ApiError {
    /// 400: the request itself is malformed.
    BadRequest(String),
    /// 401: no valid credentials were presented.
    Unauthorized,
    /// 403: the caller may not do this.
    Denied(String),
    /// 403: the author of a change tried to approve it.
    SelfApproval(String),
    /// 404: nothing of that name, or nothing the caller may learn exists.
    NotFound(String),
    /// 422: the content was read and is wrong, with each reason.
    Invalid { detail: String, errors: Vec<String> },
    /// 409: the request conflicts with the current state.
    Conflict(String),
    /// 415: the body's media type is not one the route reads.
    UnsupportedMediaType(String),
    /// 501: the route does not serve this yet.
    NotImplemented(String),
    /// 500: the server failed.
    Internal(String),
    /// 503: a service the request needs is not there.
    Unavailable(String),
}

/// The message of a `BadRequest`, `None` for any other refusal.
pub open spec fn bad_request_message(e: ApiError) -> Option<Seq<char>> {
    match e {
        ApiError::BadRequest(m) => Some(m@),
        _ => None,
    }
}

} // verus!
