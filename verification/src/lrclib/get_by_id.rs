//! Fetching lyrics by the provider's record id: the endpoint, the status
//! classification, and the resolution of the raw record, which here also
//! treats a bare instrumental flag as a usable record.

use vstd::prelude::*;
use vstd::string::StringExecFns;
use crate::lrclib::{trim_slashes, StatusOutcome};
use crate::text::{dec_str_i64, i64_to_dec_string, strip_timestamp, strip_timestamp_spec};

verus! {

/// One provider record as decoded from the wire.
pub struct RawResponse {
    pub plain_lyrics: Option<String>,
    pub synced_lyrics: Option<String>,
    pub instrumental: bool,
    pub lang: Option<String>,
    pub isrc: Option<String>,
    pub spotify_id: Option<String>,
    pub name: Option<String>,
    pub album_name: Option<String>,
    pub artist_name: Option<String>,
    pub release_date: Option<String>,
    pub duration: Option<u64>,
}

/// The resolved lyrics outcome of one provider record.
pub enum Response {
    SyncedLyrics(String, String),
    UnsyncedLyrics(String),
    IsInstrumental,
    NotFound,
}

/// The structured error body of a failed provider call.
pub struct ResponseError {
    pub status_code: Option<u16>,
    pub error: String,
    pub message: String,
}

/// The error used when the provider answers with an unexpected status.
pub fn unknown_error() -> (r: ResponseError)
    ensures
        r.status_code is None,
        r.error@ == "UnknownError"@,
        r.message@ == "An unknown error occurred"@,
{
    ResponseError {
        status_code: None,
        error: String::from_str("UnknownError"),
        message: String::from_str("An unknown error occurred"),
    }
}

/// The error used when the record holds nothing usable.
pub fn not_found_error() -> (r: ResponseError)
    ensures
        r.status_code matches Some(c) && c == 404,
        r.error@ == "NotFound"@,
        r.message@ == "There are no lyrics for this track"@,
{
    ResponseError {
        status_code: Some(404),
        error: String::from_str("NotFound"),
        message: String::from_str("There are no lyrics for this track"),
    }
}

impl Response {
    /// Resolves one provider record, as the fetch by metadata does.
    pub fn from_raw_response(lrclib_response: RawResponse) -> (r: Response)
        ensures
            r is SyncedLyrics <==> lrclib_response.synced_lyrics is Some,
            (r matches Response::SyncedLyrics(s, p) ==> s@
                == lrclib_response.synced_lyrics->Some_0@ && p@ == (
            match lrclib_response.plain_lyrics {
                Some(pl) => pl@,
                None => strip_timestamp_spec(lrclib_response.synced_lyrics->Some_0@),
            })),
            r is UnsyncedLyrics <==> lrclib_response.synced_lyrics is None
                && lrclib_response.plain_lyrics is Some,
            (r matches Response::UnsyncedLyrics(p) ==> p@ == lrclib_response.plain_lyrics->Some_0@),
            r is IsInstrumental <==> lrclib_response.synced_lyrics is None
                && lrclib_response.plain_lyrics is None && lrclib_response.instrumental,
            r is NotFound <==> lrclib_response.synced_lyrics is None
                && lrclib_response.plain_lyrics is None && !lrclib_response.instrumental,
    {
        match lrclib_response.synced_lyrics {
            Some(synced_lyrics) => {
                let plain_lyrics = match lrclib_response.plain_lyrics {
                    Some(plain_lyrics) => plain_lyrics,
                    None => strip_timestamp(synced_lyrics.as_str()),
                };
                Response::SyncedLyrics(synced_lyrics, plain_lyrics)
            },
            None => match lrclib_response.plain_lyrics {
                Some(unsynced_lyrics) => Response::UnsyncedLyrics(unsynced_lyrics),
                None => {
                    if lrclib_response.instrumental {
                        Response::IsInstrumental
                    } else {
                        Response::NotFound
                    }
                },
            },
        }
    }
}

/// A record with neither lyrics nor the instrumental flag is reported as an
/// error by the raw fetch path.
pub fn raw_response_outcome(lrclib_response: RawResponse) -> (r: Result<RawResponse, ResponseError>)
    ensures
        lrclib_response.synced_lyrics is Some || lrclib_response.plain_lyrics is Some
            || lrclib_response.instrumental ==> (r matches Ok(x) && x == lrclib_response),
        lrclib_response.synced_lyrics is None && lrclib_response.plain_lyrics is None
            && !lrclib_response.instrumental ==> (r matches Err(e) && e.status_code
            matches Some(c) && c == 404 && e.error@ == "NotFound"@ && e.message@
            == "There are no lyrics for this track"@),
{
    if lrclib_response.synced_lyrics.is_some() || lrclib_response.plain_lyrics.is_some()
        || lrclib_response.instrumental {
        Ok(lrclib_response)
    } else {
        Err(not_found_error())
    }
}

/// The fetch-by-id endpoint under a configured base address; the opaque
/// provider id renders in decimal, sign included.
pub fn api_endpoint(id: i64, lrclib_instance: &str) -> (r: String)
    ensures
        r@ == trim_slashes(lrclib_instance@) + "/api/get/"@ + dec_str_i64(id as int),
{
    let mut base = crate::lrclib::trim_trailing_slashes(lrclib_instance);
    base.append("/api/get/");
    let digits = i64_to_dec_string(id);
    base.append(digits.as_str());
    base
}

/// Classifies the HTTP status of a fetch by id.
pub fn classify_status(status: u16) -> (r: StatusOutcome)
    ensures
        r == (if status == 200 {
            StatusOutcome::Success
        } else if status == 404 {
            StatusOutcome::NotFound
        } else if status == 400 || status == 503 || status == 500 {
            StatusOutcome::ErrorBody
        } else {
            StatusOutcome::Unknown
        }),
{
    if status == 200 {
        StatusOutcome::Success
    } else if status == 404 {
        StatusOutcome::NotFound
    } else if status == 400 || status == 503 || status == 500 {
        StatusOutcome::ErrorBody
    } else {
        StatusOutcome::Unknown
    }
}

} // verus!
