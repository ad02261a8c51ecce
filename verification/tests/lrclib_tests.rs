use lrcget::lrclib::{make_publish_token, trim_trailing_slashes, LrclibResponseOption, RawLyricsFields, StatusOutcome};
use lrcget::lrclib::flag;
use lrcget::lrclib::get;
use lrcget::lrclib::get_by_id;
use lrcget::lrclib::publish;
use lrcget::lrclib::request_challenge;
use lrcget::lrclib::search;

#[test]
fn endpoints_trim_trailing_slashes() {
    assert_eq!(trim_trailing_slashes("https://lrclib.net/"), "https://lrclib.net");
    assert_eq!(trim_trailing_slashes("https://lrclib.net"), "https://lrclib.net");
    assert_eq!(get::api_endpoint("https://lrclib.net/"), "https://lrclib.net/api/get");
    assert_eq!(get_by_id::api_endpoint(42, "https://lrclib.net"), "https://lrclib.net/api/get/42");
    assert_eq!(get_by_id::api_endpoint(-5, "https://x"), "https://x/api/get/-5");
    assert_eq!(search::api_endpoint("https://x/"), "https://x/api/search");
    assert_eq!(publish::api_endpoint("https://x"), "https://x/api/publish");
    assert_eq!(flag::api_endpoint("https://x"), "https://x/api/flag");
    assert_eq!(
        request_challenge::api_endpoint("https://x"),
        "https://x/api/request-challenge"
    );
}

#[test]
fn fetch_params_in_wire_order() {
    let p = get::request_params("Title", "Album", "Artist", 201);
    assert_eq!(p[0], ("artist_name".to_string(), "Artist".to_string()));
    assert_eq!(p[1], ("track_name".to_string(), "Title".to_string()));
    assert_eq!(p[2], ("album_name".to_string(), "Album".to_string()));
    assert_eq!(p[3], ("duration".to_string(), "201".to_string()));
    let p = search::request_params("T", "Al", "Ar", "q text");
    assert_eq!(p[0], ("track_name".to_string(), "T".to_string()));
    assert_eq!(p[3], ("q".to_string(), "q text".to_string()));
}

#[test]
fn status_classification() {
    assert!(matches!(get::classify_status(200), StatusOutcome::Success));
    assert!(matches!(get::classify_status(404), StatusOutcome::NotFound));
    assert!(matches!(get::classify_status(400), StatusOutcome::ErrorBody));
    assert!(matches!(get::classify_status(503), StatusOutcome::ErrorBody));
    assert!(matches!(get::classify_status(500), StatusOutcome::ErrorBody));
    assert!(matches!(get::classify_status(302), StatusOutcome::Unknown));
    assert!(matches!(search::classify_status(404), StatusOutcome::Unknown));
    assert!(matches!(publish::classify_status(201), StatusOutcome::Success));
    assert!(matches!(publish::classify_status(200), StatusOutcome::Unknown));
    assert!(matches!(flag::classify_status(201), StatusOutcome::Success));
    assert!(matches!(request_challenge::classify_status(200), StatusOutcome::Success));
}

#[test]
fn raw_outcome_demands_lyrics() {
    let full = get::RawResponse {
        plain_lyrics: Some("p".to_string()),
        synced_lyrics: None,
        instrumental: false,
        lang: None,
        isrc: None,
        spotify_id: None,
        name: None,
        album_name: None,
        artist_name: None,
        release_date: None,
        duration: None,
    };
    assert!(get::raw_response_outcome(full).is_ok());
    let empty = get::RawResponse {
        plain_lyrics: None,
        synced_lyrics: None,
        instrumental: true,
        lang: None,
        isrc: None,
        spotify_id: None,
        name: None,
        album_name: None,
        artist_name: None,
        release_date: None,
        duration: None,
    };
    let e = match get::raw_response_outcome(empty) {
        Ok(_) => panic!("expected an error"),
        Err(e) => e,
    };
    assert_eq!(e.error, "NotFound");
    assert_eq!(e.status_code, Some(404));
    // the fetch by id accepts a bare instrumental flag
    let instrumental = get_by_id::RawResponse {
        plain_lyrics: None,
        synced_lyrics: None,
        instrumental: true,
        lang: None,
        isrc: None,
        spotify_id: None,
        name: None,
        album_name: None,
        artist_name: None,
        release_date: None,
        duration: None,
    };
    assert!(get_by_id::raw_response_outcome(instrumental).is_ok());
}

#[test]
fn retrieve_classification() {
    let r = LrclibResponseOption::from_fields(RawLyricsFields {
        plain_lyrics: None,
        synced_lyrics: Some("[00:01.00]x".to_string()),
        instrumental: false,
    });
    assert!(matches!(r, LrclibResponseOption::SyncedLyrics(s) if s == "[00:01.00]x"));
    let r = LrclibResponseOption::from_fields(RawLyricsFields {
        plain_lyrics: Some("p".to_string()),
        synced_lyrics: None,
        instrumental: false,
    });
    assert!(matches!(r, LrclibResponseOption::UnsyncedLyrics(p) if p == "p"));
    let r = LrclibResponseOption::from_fields(RawLyricsFields {
        plain_lyrics: None,
        synced_lyrics: None,
        instrumental: true,
    });
    assert!(matches!(r, LrclibResponseOption::IsInstrumental));
    let r = LrclibResponseOption::from_fields(RawLyricsFields {
        plain_lyrics: None,
        synced_lyrics: None,
        instrumental: false,
    });
    assert!(matches!(r, LrclibResponseOption::NotFound));
}

#[test]
fn publish_token_and_bodies() {
    assert_eq!(make_publish_token("abc", "17"), "abc:17");
    let req = publish::Request::new("T", "Al", "Ar", 180, "p", "s");
    assert_eq!(req.track_name, "T");
    assert_eq!(req.duration, 180);
    let f = flag::Request::new(9, "wrong lyrics");
    assert_eq!(f.track_id, 9);
    assert_eq!(f.reason, "wrong lyrics");
    let e = publish::unknown_error();
    assert_eq!(e.error, "UnknownError");
    assert_eq!(e.status_code, None);
    let ch = request_challenge::Response { prefix: "pfx".to_string(), target: "FF".to_string() };
    assert_eq!(ch.prefix, "pfx");
    assert_eq!(ch.target, "FF");
}
