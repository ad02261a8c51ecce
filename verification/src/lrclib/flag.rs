//! Flagging a provider record: the request body, the endpoint and the
//! status classification; the call itself must carry a token from a solved
//! challenge.

use vstd::prelude::*;
use vstd::string::StringExecFns;
use crate::lrclib::{trim_slashes, StatusOutcome};

verus! {

/// The body of a flag call.
pub struct Request {
    pub track_id: i64,
    pub reason: String,
}

impl Request {
    /// Builds the body of a flag call.
    pub fn new(track_id: i64, reason: &str) -> (r: Request)
        ensures
            r.track_id == track_id,
            r.reason@ == reason@,
    {
        Request { track_id, reason: reason.to_owned() }
    }
}

/// The structured error body of a failed provider call.
pub struct ResponseError {
    pub status_code: Option<u16>,
    pub error: String,
    pub message: String,
}

/// The error used when the provider answers with an unexpected status.
pub fn unknown_error() -> (r: ResponseError)
    ensures
        r.status_code is None,
        r.error@ == "UnknownError"@,
        r.message@ == "Unknown error happened"@,
{
    ResponseError {
        status_code: None,
        error: String::from_str("UnknownError"),
        message: String::from_str("Unknown error happened"),
    }
}

/// The flag endpoint under a configured base address.
pub fn api_endpoint(lrclib_instance: &str) -> (r: String)
    ensures
        r@ == trim_slashes(lrclib_instance@) + "/api/flag"@,
{
    let mut base = crate::lrclib::trim_trailing_slashes(lrclib_instance);
    base.append("/api/flag");
    base
}

/// Classifies the HTTP status of a flag call.
pub fn classify_status(status: u16) -> (r: StatusOutcome)
    ensures
        r == (if status == 201 {
            StatusOutcome::Success
        } else if status == 400 || status == 503 || status == 500 {
            StatusOutcome::ErrorBody
        } else {
            StatusOutcome::Unknown
        }),
{
    if status == 201 {
        StatusOutcome::Success
    } else if status == 400 || status == 503 || status == 500 {
        StatusOutcome::ErrorBody
    } else {
        StatusOutcome::Unknown
    }
}

} // verus!
