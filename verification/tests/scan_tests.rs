use lrcget::db::Database;
use lrcget::db::upgrade_database_if_needed;
use lrcget::fs_track::{
    has_supported_extension, partition_scan_results, FsTrack, FsTrackError, ScanBatcher,
    SCAN_BATCH_SIZE,
};
use lrcget::library::{
    get_init, get_no_lyrics_track_ids, get_track_ids, get_tracks, initialize_library,
    refresh_library, uninitialize_library,
};

fn ok_track(path: &str, title: &str) -> FsTrack {
    FsTrack::new(
        path.to_string(),
        path.rsplit('/').next().unwrap().to_string(),
        title.to_string(),
        "Album".to_string(),
        "Artist".to_string(),
        "Artist".to_string(),
        200,
        None,
        None,
    )
}

#[test]
fn extension_filter_is_case_insensitive() {
    assert!(has_supported_extension("dir/a.mp3"));
    assert!(has_supported_extension("dir/a.MP3"));
    assert!(has_supported_extension("a.m4a"));
    assert!(has_supported_extension("a.flac"));
    assert!(has_supported_extension("a.OGG"));
    assert!(has_supported_extension("a.opus"));
    assert!(has_supported_extension("a.wav"));
    assert!(!has_supported_extension("a.txt"));
    assert!(!has_supported_extension("noext"));
    assert!(!has_supported_extension(".mp3"));
    assert!(!has_supported_extension("dir.mp3/file"));
}

#[test]
fn batcher_emits_full_batches_and_flushes_the_rest() {
    let mut b = ScanBatcher::new(250);
    let mut emitted = 0;
    for i in 0..250 {
        if let Some(batch) = b.push(format!("f{}", i)) {
            assert_eq!(batch.len(), SCAN_BATCH_SIZE);
            emitted += 1;
            b.record_scanned(batch.len());
        }
    }
    assert_eq!(emitted, 2);
    let rest = b.flush();
    assert_eq!(rest.len(), 50);
    b.record_scanned(rest.len());
    let p = b.progress();
    assert_eq!(p.files_scanned, 250);
    assert_eq!(p.files_count, Some(250));
}

#[test]
fn scan_keeps_going_past_unreadable_files() {
    // one valid file and one corrupt file: one track row, one reported failure
    let results: Vec<Result<FsTrack, FsTrackError>> = vec![
        Ok(ok_track("m/good.mp3", "Good")),
        Err(FsTrackError::ParseFailed("m/corrupt.mp3".to_string(), "bad header".to_string())),
    ];
    let (tracks, errors) = partition_scan_results(results);
    assert_eq!(tracks.len(), 1);
    assert_eq!(errors.len(), 1);
    assert!(matches!(&errors[0], FsTrackError::ParseFailed(p, _) if p == "m/corrupt.mp3"));

    let mut db = Database::new();
    upgrade_database_if_needed(&mut db, 0);
    initialize_library(&mut db, tracks);
    assert!(get_init(&db));
    assert_eq!(get_tracks(&db).len(), 1);
}

#[test]
fn tag_fields_errors_in_order() {
    let r = FsTrack::from_tag_data(
        "p".into(),
        "n".into(),
        None,
        None,
        None,
        None,
        1,
        None,
        None,
    );
    assert!(matches!(r, Err(FsTrackError::TitleNotFound(p)) if p == "p"));
    let r = FsTrack::from_tag_data(
        "p".into(),
        "n".into(),
        Some("T".into()),
        None,
        None,
        None,
        1,
        None,
        None,
    );
    assert!(matches!(r, Err(FsTrackError::AlbumNotFound(_))));
    let r = FsTrack::from_tag_data(
        "p".into(),
        "n".into(),
        Some("T".into()),
        Some("A".into()),
        None,
        None,
        1,
        None,
        None,
    );
    assert!(matches!(r, Err(FsTrackError::ArtistNotFound(_))));
    let t = FsTrack::from_tag_data(
        "p".into(),
        "n".into(),
        Some("T".into()),
        Some("A".into()),
        Some("R".into()),
        None,
        1,
        None,
        None,
    )
    .unwrap();
    assert_eq!(t.album_artist(), "R");
    assert_eq!(t.title(), "T");
    assert_eq!(t.duration(), 1);
}

#[test]
fn initialize_is_gated_and_refresh_wipes() {
    let mut db = Database::new();
    upgrade_database_if_needed(&mut db, 0);
    initialize_library(&mut db, vec![ok_track("m/a.mp3", "A")]);
    assert_eq!(get_tracks(&db).len(), 1);
    // a second initialization of an initialized store changes nothing
    initialize_library(&mut db, vec![ok_track("m/b.mp3", "B")]);
    assert_eq!(get_tracks(&db).len(), 1);
    refresh_library(&mut db, vec![ok_track("m/c.mp3", "C")]);
    let ts = get_tracks(&db);
    assert_eq!(ts.len(), 1);
    assert_eq!(ts[0].title, "C");
    uninitialize_library(&mut db);
    assert!(!get_init(&db));
    assert_eq!(get_tracks(&db).len(), 0);
}

#[test]
fn library_track_id_dispatch() {
    let mut db = Database::new();
    upgrade_database_if_needed(&mut db, 0);
    initialize_library(&mut db, vec![ok_track("m/a.mp3", "Alpha"), ok_track("m/b.mp3", "Beta")]);
    let by_search = get_track_ids(Some("alpha".to_string()), false, false, &db);
    assert_eq!(by_search.len(), 1);
    let by_filter = get_track_ids(None, true, true, &db);
    assert_eq!(by_filter.len(), 2);
    assert_eq!(get_no_lyrics_track_ids(&db).len(), 2);
}
