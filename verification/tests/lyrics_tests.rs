use lrcget::lrclib::get::{RawResponse, Response};
use lrcget::lyrics::{
    apply_lyrics_for_track, apply_string_lyrics_for_track, build_lrc_path, build_txt_path,
    container_family, flac_embed_plan, id3_embed_plan, is_instrumental_lyrics, save_instrumental,
    save_lyrics_update, save_plain_lyrics, save_synced_lyrics, synced_lyrics_to_sylt_vec,
    ContainerFamily, GetLyricsError, LyricsUpdate, Sidecars,
};

fn raw(plain: Option<&str>, synced: Option<&str>, instrumental: bool) -> RawResponse {
    RawResponse {
        plain_lyrics: plain.map(|s| s.to_string()),
        synced_lyrics: synced.map(|s| s.to_string()),
        instrumental,
        lang: None,
        isrc: None,
        spotify_id: None,
        name: None,
        album_name: None,
        artist_name: None,
        release_date: None,
        duration: Some(180),
    }
}

#[test]
fn resolution_prefers_synced_and_derives_plain() {
    match Response::from_raw_response(raw(None, Some("[00:01.00]hi"), false)) {
        Response::SyncedLyrics(s, p) => {
            assert_eq!(s, "[00:01.00]hi");
            assert_eq!(p, "hi");
        }
        _ => panic!("expected timed lyrics"),
    }
    match Response::from_raw_response(raw(Some("given"), Some("[00:01.00]hi"), false)) {
        Response::SyncedLyrics(_, p) => assert_eq!(p, "given"),
        _ => panic!("expected timed lyrics"),
    }
}

#[test]
fn resolution_falls_through_plain_instrumental_nothing() {
    match Response::from_raw_response(raw(Some("hi"), None, false)) {
        Response::UnsyncedLyrics(p) => assert_eq!(p, "hi"),
        _ => panic!("expected plain lyrics"),
    }
    assert!(matches!(
        Response::from_raw_response(raw(None, None, true)),
        Response::IsInstrumental
    ));
    assert!(matches!(
        Response::from_raw_response(raw(None, None, false)),
        Response::NotFound
    ));
}

#[test]
fn sidecar_synced_write_deletes_plain() {
    let mut sc = Sidecars { txt: Some("old plain".to_string()), lrc: None };
    save_synced_lyrics(&mut sc, "[00:01.00]x");
    assert_eq!(sc.txt, None);
    assert_eq!(sc.lrc.as_deref(), Some("[00:01.00]x"));
}

#[test]
fn sidecar_empty_plain_deletes_without_creating() {
    let mut sc = Sidecars { txt: None, lrc: Some("[00:01.00]x".to_string()) };
    save_plain_lyrics(&mut sc, "");
    assert_eq!(sc.txt, None);
    assert_eq!(sc.lrc, None);
    let mut sc = Sidecars { txt: Some("old".to_string()), lrc: None };
    save_plain_lyrics(&mut sc, "");
    assert_eq!(sc.txt, None);
}

#[test]
fn sidecar_empty_synced_leaves_plain_alone() {
    let mut sc = Sidecars { txt: Some("keep".to_string()), lrc: Some("[x]".to_string()) };
    save_synced_lyrics(&mut sc, "");
    assert_eq!(sc.txt.as_deref(), Some("keep"));
    assert_eq!(sc.lrc, None);
}

#[test]
fn sidecar_instrumental_writes_the_sentinel() {
    let mut sc = Sidecars { txt: Some("a".to_string()), lrc: Some("b".to_string()) };
    save_instrumental(&mut sc);
    assert_eq!(sc.txt, None);
    assert_eq!(sc.lrc.as_deref(), Some("[au: instrumental]"));
}

#[test]
fn apply_outcome_follows_the_mutual_exclusion_rules() {
    let mut sc = Sidecars { txt: Some("old".to_string()), lrc: None };
    let r = apply_lyrics_for_track(
        &mut sc,
        Response::SyncedLyrics("[00:01.00]x".to_string(), "x".to_string()),
    );
    assert!(matches!(r, Response::SyncedLyrics(_, _)));
    assert_eq!(sc.txt, None);
    assert_eq!(sc.lrc.as_deref(), Some("[00:01.00]x"));

    let mut sc = Sidecars { txt: None, lrc: Some("[t]".to_string()) };
    apply_lyrics_for_track(&mut sc, Response::UnsyncedLyrics("p".to_string()));
    assert_eq!(sc.txt.as_deref(), Some("p"));
    assert_eq!(sc.lrc, None);

    let mut sc = Sidecars { txt: Some("a".to_string()), lrc: None };
    apply_lyrics_for_track(&mut sc, Response::NotFound);
    assert_eq!(sc.txt.as_deref(), Some("a"));

    let mut sc = Sidecars { txt: Some("a".to_string()), lrc: None };
    apply_string_lyrics_for_track(&mut sc, "plain", "");
    assert_eq!(sc.txt.as_deref(), Some("plain"));
    assert_eq!(sc.lrc, None);
}

#[test]
fn sidecar_paths_replace_the_extension() {
    assert_eq!(build_txt_path("music/song.mp3"), "music/song.txt");
    assert_eq!(build_lrc_path("music/song.mp3"), "music/song.lrc");
    assert_eq!(build_lrc_path("song.flac"), "song.lrc");
    assert_eq!(build_txt_path("a/b.c/song"), "a/b.c/song.txt");
}

#[test]
fn instrumental_marker_detection() {
    assert!(is_instrumental_lyrics("[au: instrumental]"));
    assert!(is_instrumental_lyrics("[au:instrumental]"));
    assert!(is_instrumental_lyrics("before [au:  instrumental] after"));
    assert!(!is_instrumental_lyrics("[au: instrument]"));
    assert!(!is_instrumental_lyrics("instrumental"));
    assert!(!is_instrumental_lyrics(""));
}

#[test]
fn instrumental_marker_is_case_insensitive() {
    assert!(is_instrumental_lyrics("[AU: INSTRUMENTAL]"));
    assert!(is_instrumental_lyrics("[Au:Instrumental]"));
    assert!(is_instrumental_lyrics("[aU: iNsTrUmEnTaL]"));
    assert!(matches!(
        save_lyrics_update("p", "[AU: INSTRUMENTAL]"),
        LyricsUpdate::MarkInstrumental
    ));
}

#[test]
fn save_update_decision() {
    assert!(matches!(
        save_lyrics_update("p", "[au: instrumental]"),
        LyricsUpdate::MarkInstrumental
    ));
    assert!(matches!(save_lyrics_update("p", "[00:01.00]x"), LyricsUpdate::StoreSynced));
    assert!(matches!(save_lyrics_update("p", ""), LyricsUpdate::StorePlain));
    assert!(matches!(save_lyrics_update("", ""), LyricsUpdate::ClearLyrics));
}

#[test]
fn sylt_parsing_pairs_tags_with_line_text() {
    let v = synced_lyrics_to_sylt_vec("[00:01.00]hi\n[00:02.50][00:03]yo");
    let got: Vec<(u32, String)> = v;
    assert_eq!(got.len(), 3);
    assert_eq!(got[0], (1000, "hi".to_string()));
    assert_eq!(got[1], (2500, "yo".to_string()));
    assert_eq!(got[2], (3000, "yo".to_string()));
}

#[test]
fn sylt_parsing_skips_untagged_lines_and_scales_fractions() {
    let v = synced_lyrics_to_sylt_vec("[ar: Someone]\n[01:02.345]line");
    assert_eq!(v, vec![(62345, "line".to_string())]);
    let v = synced_lyrics_to_sylt_vec("[00:01.5]x");
    assert_eq!(v, vec![(1500, "x".to_string())]);
    let v = synced_lyrics_to_sylt_vec("no tags at all");
    assert!(v.is_empty());
}

#[test]
fn container_dispatch_is_case_insensitive() {
    assert!(matches!(container_family("a/b.mp3"), ContainerFamily::Mpeg));
    assert!(matches!(container_family("a/b.MP3"), ContainerFamily::Mpeg));
    assert!(matches!(container_family("a/b.flac"), ContainerFamily::Flac));
    assert!(matches!(container_family("a/b.FlAc"), ContainerFamily::Flac));
    assert!(matches!(container_family("a/b.ogg"), ContainerFamily::Unsupported));
}

#[test]
fn embed_plans_write_or_remove() {
    let p = id3_embed_plan("plain", "[00:01.00]x");
    assert_eq!(p.plain.as_deref(), Some("plain"));
    assert_eq!(p.synced.unwrap(), vec![(1000, "x".to_string())]);
    let p = id3_embed_plan("", "");
    assert_eq!(p.plain, None);
    assert!(p.synced.is_none());
    let p = flac_embed_plan("plain", "");
    assert_eq!(p.plain.as_deref(), Some("plain"));
    assert_eq!(p.synced, None);
}

#[test]
fn get_lyrics_error_message() {
    let e = GetLyricsError::NotFound;
    assert_eq!(e.message(), "This track does not exist in LRCLIB database");
}
