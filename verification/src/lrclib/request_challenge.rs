//! Requesting a proof-of-work challenge: the endpoint, the status
//! classification and the challenge pair the provider hands back.

use vstd::prelude::*;
use vstd::string::StringExecFns;
use crate::lrclib::{trim_slashes, StatusOutcome};

verus! {

/// A server-issued challenge: a prefix to hash and a target to stay under.
pub struct Response {
    pub prefix: String,
    pub target: String,
}

/// The structured error body of a failed provider call.
pub struct ResponseError {
    pub status_code: Option<u16>,
    pub error: String,
    pub message: String,
}

/// The error used when the provider answers with an unexpected status.
pub fn unknown_error() -> (r: ResponseError)
    ensures
        r.status_code is None,
        r.error@ == "UnknownError"@,
        r.message@ == "Unknown error happened"@,
{
    ResponseError {
        status_code: None,
        error: String::from_str("UnknownError"),
        message: String::from_str("Unknown error happened"),
    }
}

/// The challenge endpoint under a configured base address.
pub fn api_endpoint(lrclib_instance: &str) -> (r: String)
    ensures
        r@ == trim_slashes(lrclib_instance@) + "/api/request-challenge"@,
{
    let mut base = crate::lrclib::trim_trailing_slashes(lrclib_instance);
    base.append("/api/request-challenge");
    base
}

/// Classifies the HTTP status of a challenge request.
pub fn classify_status(status: u16) -> (r: StatusOutcome)
    ensures
        r == (if status == 200 {
            StatusOutcome::Success
        } else if status == 400 || status == 503 || status == 500 {
            StatusOutcome::ErrorBody
        } else {
            StatusOutcome::Unknown
        }),
{
    if status == 200 {
        StatusOutcome::Success
    } else if status == 400 || status == 503 || status == 500 {
        StatusOutcome::ErrorBody
    } else {
        StatusOutcome::Unknown
    }
}

} // verus!
