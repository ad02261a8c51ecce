//! Fetching lyrics by track metadata: the request parameters, the endpoint,
//! the classification of the HTTP status, and the resolution of a raw
//! provider record into one of the four lyrics outcomes.

use vstd::prelude::*;
use vstd::string::StringExecFns;
use crate::lrclib::{trim_slashes, StatusOutcome};
use crate::text::{dec_str, strip_timestamp, strip_timestamp_spec, u64_to_dec_string};

verus! {

/// One provider record as decoded from the wire, with the duration rounded
/// to whole seconds.
pub struct RawResponse {
    pub plain_lyrics: Option<String>,
    pub synced_lyrics: Option<String>,
    pub instrumental: bool,
    pub lang: Option<String>,
    pub isrc: Option<String>,
    pub spotify_id: Option<String>,
    pub name: Option<String>,
    pub album_name: Option<String>,
    pub artist_name: Option<String>,
    pub release_date: Option<String>,
    pub duration: Option<u64>,
}

/// The resolved lyrics outcome of one provider record.
pub enum Response {
    SyncedLyrics(String, String),
    UnsyncedLyrics(String),
    IsInstrumental,
    NotFound,
}

/// The structured error body of a failed provider call.
pub struct ResponseError {
    pub status_code: Option<u16>,
    pub error: String,
    pub message: String,
}

/// The error used when the provider answers with an unexpected status.
pub fn unknown_error() -> (r: ResponseError)
    ensures
        r.status_code is None,
        r.error@ == "UnknownError"@,
        r.message@ == "Unknown error happened"@,
{
    ResponseError {
        status_code: None,
        error: String::from_str("UnknownError"),
        message: String::from_str("Unknown error happened"),
    }
}

/// The error used when the provider has no lyrics for the track.
pub fn not_found_error() -> (r: ResponseError)
    ensures
        r.status_code matches Some(c) && c == 404,
        r.error@ == "NotFound"@,
        r.message@ == "There is no lyrics for this track"@,
{
    ResponseError {
        status_code: Some(404),
        error: String::from_str("NotFound"),
        message: String::from_str("There is no lyrics for this track"),
    }
}

impl Response {
    /// Resolves one provider record: timed lyrics win, with the given plain
    /// lyrics or a fallback derived by stripping the timestamp tokens; then
    /// plain lyrics; then the instrumental flag; else nothing was found.
    pub fn from_raw_response(lrclib_response: RawResponse) -> (r: Response)
        ensures
            r is SyncedLyrics <==> lrclib_response.synced_lyrics is Some,
            (r matches Response::SyncedLyrics(s, p) ==> s@ == lrclib_response.synced_lyrics->Some_0@
                && p@ == (match lrclib_response.plain_lyrics {
                Some(pl) => pl@,
                None => strip_timestamp_spec(lrclib_response.synced_lyrics->Some_0@),
            })),
            r is UnsyncedLyrics <==> lrclib_response.synced_lyrics is None
                && lrclib_response.plain_lyrics is Some,
            (r matches Response::UnsyncedLyrics(p) ==> p@ == lrclib_response.plain_lyrics->Some_0@),
            r is IsInstrumental <==> lrclib_response.synced_lyrics is None
                && lrclib_response.plain_lyrics is None && lrclib_response.instrumental,
            r is NotFound <==> lrclib_response.synced_lyrics is None
                && lrclib_response.plain_lyrics is None && !lrclib_response.instrumental,
    {
        match lrclib_response.synced_lyrics {
            Some(synced_lyrics) => {
                let plain_lyrics = match lrclib_response.plain_lyrics {
                    Some(plain_lyrics) => plain_lyrics,
                    None => strip_timestamp(synced_lyrics.as_str()),
                };
                Response::SyncedLyrics(synced_lyrics, plain_lyrics)
            },
            None => match lrclib_response.plain_lyrics {
                Some(unsynced_lyrics) => Response::UnsyncedLyrics(unsynced_lyrics),
                None => {
                    if lrclib_response.instrumental {
                        Response::IsInstrumental
                    } else {
                        Response::NotFound
                    }
                },
            },
        }
    }
}

/// A record that carries no lyrics at all is reported as an error by the
/// raw fetch path.
pub fn raw_response_outcome(lrclib_response: RawResponse) -> (r: Result<RawResponse, ResponseError>)
    ensures
        lrclib_response.synced_lyrics is Some || lrclib_response.plain_lyrics is Some ==> (r
            matches Ok(x) && x == lrclib_response),
        lrclib_response.synced_lyrics is None && lrclib_response.plain_lyrics is None ==> (r
            matches Err(e) && e.status_code matches Some(c) && c == 404 && e.error@ == "NotFound"@
            && e.message@ == "There is no lyrics for this track"@),
{
    if lrclib_response.synced_lyrics.is_some() || lrclib_response.plain_lyrics.is_some() {
        Ok(lrclib_response)
    } else {
        Err(not_found_error())
    }
}

/// The query parameters of a fetch by metadata, in wire order.
pub fn request_params(title: &str, album_name: &str, artist_name: &str, duration: u64) -> (r: Vec<
    (String, String),
>)
    ensures
        r@.len() == 4,
        r@[0].0@ == "artist_name"@ && r@[0].1@ == artist_name@,
        r@[1].0@ == "track_name"@ && r@[1].1@ == title@,
        r@[2].0@ == "album_name"@ && r@[2].1@ == album_name@,
        r@[3].0@ == "duration"@ && r@[3].1@ == dec_str(duration as nat),
{
    let mut out: Vec<(String, String)> = Vec::new();
    out.push((String::from_str("artist_name"), artist_name.to_owned()));
    out.push((String::from_str("track_name"), title.to_owned()));
    out.push((String::from_str("album_name"), album_name.to_owned()));
    out.push((String::from_str("duration"), u64_to_dec_string(duration)));
    out
}

/// The fetch endpoint under a configured base address.
pub fn api_endpoint(lrclib_instance: &str) -> (r: String)
    ensures
        r@ == trim_slashes(lrclib_instance@) + "/api/get"@,
{
    let mut base = crate::lrclib::trim_trailing_slashes(lrclib_instance);
    base.append("/api/get");
    base
}

/// Classifies the HTTP status of a fetch: a missing track is a normal
/// outcome, the documented error statuses carry a structured body, and any
/// other status is unknown.
pub fn classify_status(status: u16) -> (r: StatusOutcome)
    ensures
        r == (if status == 200 {
            StatusOutcome::Success
        } else if status == 404 {
            StatusOutcome::NotFound
        } else if status == 400 || status == 503 || status == 500 {
            StatusOutcome::ErrorBody
        } else {
            StatusOutcome::Unknown
        }),
{
    if status == 200 {
        StatusOutcome::Success
    } else if status == 404 {
        StatusOutcome::NotFound
    } else if status == 400 || status == 503 || status == 500 {
        StatusOutcome::ErrorBody
    } else {
        StatusOutcome::Unknown
    }
}

} // verus!
