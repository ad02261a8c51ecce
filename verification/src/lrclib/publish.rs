//! Publishing lyrics to the provider: the request body, the endpoint and
//! the status classification; the call itself must carry a token from a
//! solved challenge.

use vstd::prelude::*;
use vstd::string::StringExecFns;
use crate::lrclib::{trim_slashes, StatusOutcome};

verus! {

/// The body of a publish call, with the duration in whole seconds.
pub struct Request {
    pub track_name: String,
    pub album_name: String,
    pub artist_name: String,
    pub duration: u64,
    pub plain_lyrics: String,
    pub synced_lyrics: String,
}

impl Request {
    /// Builds the body of a publish call.
    pub fn new(
        title: &str,
        album_name: &str,
        artist_name: &str,
        duration: u64,
        plain_lyrics: &str,
        synced_lyrics: &str,
    ) -> (r: Request)
        ensures
            r.track_name@ == title@,
            r.album_name@ == album_name@,
            r.artist_name@ == artist_name@,
            r.duration == duration,
            r.plain_lyrics@ == plain_lyrics@,
            r.synced_lyrics@ == synced_lyrics@,
    {
        Request {
            track_name: title.to_owned(),
            album_name: album_name.to_owned(),
            artist_name: artist_name.to_owned(),
            duration,
            plain_lyrics: plain_lyrics.to_owned(),
            synced_lyrics: synced_lyrics.to_owned(),
        }
    }
}

/// The structured error body of a failed provider call.
pub struct ResponseError {
    pub status_code: Option<u16>,
    pub error: String,
    pub message: String,
}

/// The error used when the provider answers with an unexpected status.
pub fn unknown_error() -> (r: ResponseError)
    ensures
        r.status_code is None,
        r.error@ == "UnknownError"@,
        r.message@ == "Unknown error happened"@,
{
    ResponseError {
        status_code: None,
        error: String::from_str("UnknownError"),
        message: String::from_str("Unknown error happened"),
    }
}

/// The publish endpoint under a configured base address.
pub fn api_endpoint(lrclib_instance: &str) -> (r: String)
    ensures
        r@ == trim_slashes(lrclib_instance@) + "/api/publish"@,
{
    let mut base = crate::lrclib::trim_trailing_slashes(lrclib_instance);
    base.append("/api/publish");
    base
}

/// Classifies the HTTP status of a publish: the provider acknowledges a
/// write with a created status.
pub fn classify_status(status: u16) -> (r: StatusOutcome)
    ensures
        r == (if status == 201 {
            StatusOutcome::Success
        } else if status == 400 || status == 503 || status == 500 {
            StatusOutcome::ErrorBody
        } else {
            StatusOutcome::Unknown
        }),
{
    if status == 201 {
        StatusOutcome::Success
    } else if status == 400 || status == 503 || status == 500 {
        StatusOutcome::ErrorBody
    } else {
        StatusOutcome::Unknown
    }
}

} // verus!
