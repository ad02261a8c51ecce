//! Searching the provider for candidate matches: the request parameters,
//! the endpoint and the status classification.

use vstd::prelude::*;
use vstd::string::StringExecFns;
use crate::lrclib::{trim_slashes, StatusOutcome};

verus! {

/// One candidate match.
pub struct SearchItem {
    pub id: i64,
    pub name: Option<String>,
    pub artist_name: Option<String>,
    pub album_name: Option<String>,
    pub duration: Option<u64>,
    pub instrumental: bool,
    pub plain_lyrics: Option<String>,
    pub synced_lyrics: Option<String>,
}

/// The list of candidate matches a search returns.
pub struct Response(pub Vec<SearchItem>);

/// The structured error body of a failed provider call.
pub struct ResponseError {
    pub status_code: Option<u16>,
    pub error: String,
    pub message: String,
}

/// The error used when the provider answers with an unexpected status.
pub fn unknown_error() -> (r: ResponseError)
    ensures
        r.status_code is None,
        r.error@ == "UnknownError"@,
        r.message@ == "Unknown error happened"@,
{
    ResponseError {
        status_code: None,
        error: String::from_str("UnknownError"),
        message: String::from_str("Unknown error happened"),
    }
}

/// The query parameters of a search, in wire order.
pub fn request_params(title: &str, album_name: &str, artist_name: &str, q: &str) -> (r: Vec<
    (String, String),
>)
    ensures
        r@.len() == 4,
        r@[0].0@ == "track_name"@ && r@[0].1@ == title@,
        r@[1].0@ == "artist_name"@ && r@[1].1@ == artist_name@,
        r@[2].0@ == "album_name"@ && r@[2].1@ == album_name@,
        r@[3].0@ == "q"@ && r@[3].1@ == q@,
{
    let mut out: Vec<(String, String)> = Vec::new();
    out.push((String::from_str("track_name"), title.to_owned()));
    out.push((String::from_str("artist_name"), artist_name.to_owned()));
    out.push((String::from_str("album_name"), album_name.to_owned()));
    out.push((String::from_str("q"), q.to_owned()));
    out
}

/// The search endpoint under a configured base address.
pub fn api_endpoint(lrclib_instance: &str) -> (r: String)
    ensures
        r@ == trim_slashes(lrclib_instance@) + "/api/search"@,
{
    let mut base = crate::lrclib::trim_trailing_slashes(lrclib_instance);
    base.append("/api/search");
    base
}

/// Classifies the HTTP status of a search.
pub fn classify_status(status: u16) -> (r: StatusOutcome)
    ensures
        r == (if status == 200 {
            StatusOutcome::Success
        } else if status == 400 || status == 503 || status == 500 {
            StatusOutcome::ErrorBody
        } else {
            StatusOutcome::Unknown
        }),
{
    if status == 200 {
        StatusOutcome::Success
    } else if status == 400 || status == 503 || status == 500 {
        StatusOutcome::ErrorBody
    } else {
        StatusOutcome::Unknown
    }
}

} // verus!
