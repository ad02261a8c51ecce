use lrcget::db::{
    add_artist, add_track, add_tracks, clean_library, find_album, find_artist, get_album_by_id,
    get_album_ids, get_album_track_ids, get_album_tracks, get_albums, get_artist_by_id,
    get_artist_ids, get_artist_track_ids, get_artist_tracks, get_artists, get_config,
    get_directories, get_init, get_search_track_ids, get_track_by_id, get_track_ids, get_tracks,
    set_config, set_directories, set_init, update_track_instrumental, update_track_null_lyrics,
    update_track_plain_lyrics, update_track_synced_lyrics, upgrade_database_if_needed, Database,
    CURRENT_DB_VERSION,
};
use lrcget::fs_track::FsTrack;

fn fresh_db() -> Database {
    let mut db = Database::new();
    let v = db.version;
    upgrade_database_if_needed(&mut db, v);
    db
}

fn track(path: &str, title: &str, album: &str, artist: &str, album_artist: &str) -> FsTrack {
    FsTrack::new(
        path.to_string(),
        path.rsplit('/').next().unwrap().to_string(),
        title.to_string(),
        album.to_string(),
        artist.to_string(),
        album_artist.to_string(),
        180,
        None,
        None,
    )
}

#[test]
fn migrations_reach_the_current_version() {
    let mut db = Database::new();
    assert_eq!(db.version, 0);
    upgrade_database_if_needed(&mut db, 0);
    assert_eq!(db.version, CURRENT_DB_VERSION);
    assert!(!db.init);
    assert_eq!(db.config.theme_mode, "auto");
    assert_eq!(db.config.lrclib_instance, "https://lrclib.net");
}

#[test]
fn migrations_run_each_step_once() {
    // running the pending migrations twice equals running them once
    let mut once = Database::new();
    upgrade_database_if_needed(&mut once, 0);
    let mut twice = Database::new();
    upgrade_database_if_needed(&mut twice, 0);
    let v = twice.version;
    upgrade_database_if_needed(&mut twice, v);
    assert_eq!(once.version, twice.version);
    assert_eq!(once.init, twice.init);
    assert_eq!(once.config.theme_mode, twice.config.theme_mode);
    assert_eq!(once.artists.len(), twice.artists.len());
    assert_eq!(once.tracks.len(), twice.tracks.len());
    assert_eq!(once.next_track_id, twice.next_track_id);
}

#[test]
fn later_migration_wipes_the_library() {
    // a store migrated from an intermediate version loses its cached rows
    let mut db = fresh_db();
    add_track(&track("m/a.mp3", "Song", "Album", "Artist", "Artist"), &mut db);
    db.version = 3;
    upgrade_database_if_needed(&mut db, 3);
    assert_eq!(db.version, CURRENT_DB_VERSION);
    assert_eq!(db.tracks.len(), 0);
    assert_eq!(db.artists.len(), 0);
    assert_eq!(db.albums.len(), 0);
    assert!(!db.init);
}

#[test]
fn ingest_dedup_shares_artist_and_album_rows() {
    let mut db = fresh_db();
    add_track(&track("m/a.mp3", "One", "Album", "Artist", "Artist"), &mut db);
    add_track(&track("m/b.mp3", "Two", "Album", "Artist", "Artist"), &mut db);
    assert_eq!(db.artists.len(), 1);
    assert_eq!(db.albums.len(), 1);
    assert_eq!(db.tracks.len(), 2);
    // the same title with a different album artist makes a distinct album
    add_track(&track("m/c.mp3", "Three", "Album", "Artist", "Other"), &mut db);
    assert_eq!(db.albums.len(), 2);
    assert_eq!(db.artists.len(), 1);
}

#[test]
fn find_or_create_hands_back_row_ids() {
    let mut db = fresh_db();
    assert_eq!(find_artist("Artist", &db), None);
    let id = add_artist("Artist", &mut db);
    assert_eq!(find_artist("Artist", &db), Some(id));
    assert_eq!(find_album("Album", "Artist", &db), None);
    add_track(&track("m/a.mp3", "One", "Album", "Artist", "Artist"), &mut db);
    assert!(find_album("Album", "Artist", &db).is_some());
}

#[test]
fn instrumental_sidecar_marks_the_track() {
    let mut db = fresh_db();
    let t = FsTrack::new(
        "m/i.mp3".into(),
        "i.mp3".into(),
        "Quiet".into(),
        "Album".into(),
        "Artist".into(),
        "Artist".into(),
        60,
        None,
        Some("[au: instrumental]".into()),
    );
    add_track(&t, &mut db);
    let row = get_track_by_id(db.tracks[0].id, &db).unwrap();
    assert!(row.instrumental);
    let t2 = FsTrack::new(
        "m/j.mp3".into(),
        "j.mp3".into(),
        "Loud".into(),
        "Album".into(),
        "Artist".into(),
        "Artist".into(),
        60,
        None,
        Some("[00:01.00]la la".into()),
    );
    add_track(&t2, &mut db);
    let row2 = get_track_by_id(db.tracks[1].id, &db).unwrap();
    assert!(!row2.instrumental);
}

#[test]
fn track_projection_joins_names() {
    let mut db = fresh_db();
    add_track(&track("m/a.mp3", "One", "Album", "Artist", "Albumist"), &mut db);
    let id = db.tracks[0].id;
    let p = get_track_by_id(id, &db).unwrap();
    assert_eq!(p.title, "One");
    assert_eq!(p.album_name, "Album");
    assert_eq!(p.artist_name, "Artist");
    assert_eq!(p.album_artist_name.as_deref(), Some("Albumist"));
    assert_eq!(p.duration, 180);
    assert!(get_track_by_id(id + 999, &db).is_none());
}

#[test]
fn lyrics_updates_are_mutually_exclusive() {
    let mut db = fresh_db();
    add_track(&track("m/a.mp3", "One", "Album", "Artist", "Artist"), &mut db);
    let id = db.tracks[0].id;
    let p = update_track_synced_lyrics(id, "[00:01.00]x", "x", &mut db).unwrap();
    assert_eq!(p.lrc_lyrics.as_deref(), Some("[00:01.00]x"));
    assert_eq!(p.txt_lyrics.as_deref(), Some("x"));
    assert!(!p.instrumental);
    let p = update_track_plain_lyrics(id, "plain", &mut db).unwrap();
    assert_eq!(p.txt_lyrics.as_deref(), Some("plain"));
    assert_eq!(p.lrc_lyrics, None);
    let p = update_track_instrumental(id, &mut db).unwrap();
    assert!(p.instrumental);
    assert_eq!(p.lrc_lyrics.as_deref(), Some("[au: instrumental]"));
    assert_eq!(p.txt_lyrics, None);
    let p = update_track_null_lyrics(id, &mut db).unwrap();
    assert_eq!(p.txt_lyrics, None);
    assert_eq!(p.lrc_lyrics, None);
    assert!(!p.instrumental);
    assert!(update_track_plain_lyrics(id + 999, "x", &mut db).is_none());
}

#[test]
fn missing_lyrics_filters() {
    let mut db = fresh_db();
    add_track(&track("m/a.mp3", "A", "Album", "Artist", "Artist"), &mut db);
    add_track(&track("m/b.mp3", "B", "Album", "Artist", "Artist"), &mut db);
    let a = db.tracks[0].id;
    update_track_synced_lyrics(a, "[00:01.00]x", "x", &mut db);
    let all = get_track_ids(false, false, &db);
    assert_eq!(all.len(), 2);
    let missing_both = get_track_ids(true, true, &db);
    assert_eq!(missing_both, vec![db.tracks[1].id]);
    let missing_plain = get_track_ids(true, false, &db);
    assert_eq!(missing_plain, vec![db.tracks[1].id]);
}

#[test]
fn search_matches_normalized_columns() {
    let mut db = fresh_db();
    add_track(&track("m/a.mp3", "Héllo World", "Album", "Artist", "Artist"), &mut db);
    add_track(&track("m/b.mp3", "Other", "Album", "Artist", "Artist"), &mut db);
    let hits = get_search_track_ids(&"HELLO".to_string(), &db);
    assert_eq!(hits, vec![db.tracks[0].id]);
    let by_artist = get_search_track_ids(&"artist".to_string(), &db);
    assert_eq!(by_artist.len(), 2);
    let none = get_search_track_ids(&"zzz".to_string(), &db);
    assert!(none.is_empty());
}

#[test]
fn album_and_artist_summaries_count_tracks() {
    let mut db = fresh_db();
    add_track(&track("m/a.mp3", "A", "Album", "Artist", "Artist"), &mut db);
    add_track(&track("m/b.mp3", "B", "Album", "Artist", "Artist"), &mut db);
    add_artist("Silent", &mut db);
    let albums = get_albums(&db);
    assert_eq!(albums.len(), 1);
    assert_eq!(albums[0].tracks_count, 2);
    let artists = get_artists(&db);
    assert_eq!(artists.len(), 1);
    assert_eq!(artists[0].tracks_count, 2);
    assert_eq!(get_album_ids(&db).len(), 1);
    assert_eq!(get_artist_ids(&db).len(), 2);
    let album = get_album_by_id(albums[0].id, &db).unwrap();
    assert_eq!(album.tracks_count, 2);
    assert_eq!(album.image_path, None);
    let artist = get_artist_by_id(artists[0].id, &db).unwrap();
    assert_eq!(artist.name, "Artist");
    // an artist without tracks yields nothing
    let silent_id = db.artists.iter().find(|a| a.name == "Silent").unwrap().id;
    assert!(get_artist_by_id(silent_id, &db).is_none());
}

#[test]
fn per_album_and_per_artist_tracks() {
    let mut db = fresh_db();
    add_track(&track("m/a.mp3", "A", "Alpha", "Artist", "Artist"), &mut db);
    add_track(&track("m/b.mp3", "B", "Beta", "Artist", "Artist"), &mut db);
    let alpha = db.albums[0].id;
    let ts = get_album_tracks(alpha, &db);
    assert_eq!(ts.len(), 1);
    assert_eq!(ts[0].title, "A");
    assert_eq!(get_album_track_ids(alpha, false, false, &db).len(), 1);
    let artist = db.artists[0].id;
    assert_eq!(get_artist_tracks(artist, &db).len(), 2);
    assert_eq!(get_artist_track_ids(artist, true, true, &db).len(), 2);
    assert_eq!(get_tracks(&db).len(), 2);
}

#[test]
fn settings_and_flags_round_trip() {
    let mut db = fresh_db();
    set_directories(vec!["/music".to_string(), "/more".to_string()], &mut db);
    assert_eq!(get_directories(&db), vec!["/music".to_string(), "/more".to_string()]);
    set_init(true, &mut db);
    assert!(get_init(&db));
    set_config(false, true, "dark", "https://example.net", &mut db);
    let c = get_config(&db);
    assert!(!c.skip_not_needed_tracks);
    assert!(c.try_embed_lyrics);
    assert_eq!(c.theme_mode, "dark");
    assert_eq!(c.lrclib_instance, "https://example.net");
}

#[test]
fn clean_library_empties_tables_and_restarts_ids() {
    let mut db = fresh_db();
    add_track(&track("m/a.mp3", "A", "Album", "Artist", "Artist"), &mut db);
    clean_library(&mut db);
    assert!(db.tracks.is_empty());
    assert!(db.albums.is_empty());
    assert!(db.artists.is_empty());
    add_track(&track("m/a.mp3", "A", "Album", "Artist", "Artist"), &mut db);
    assert_eq!(db.tracks[0].id, 1);
}

#[test]
fn listings_sort_by_normalized_title() {
    let mut db = fresh_db();
    add_track(&track("m/b.mp3", "Beta", "Album", "Artist", "Artist"), &mut db);
    add_track(&track("m/a.mp3", "alpha", "Album", "Artist", "Artist"), &mut db);
    add_track(&track("m/g.mp3", "Gamma", "Album", "Artist", "Artist"), &mut db);
    let titles: Vec<String> = get_tracks(&db).into_iter().map(|t| t.title).collect();
    assert_eq!(titles, vec!["alpha".to_string(), "Beta".to_string(), "Gamma".to_string()]);
    let ids = get_track_ids(false, false, &db);
    assert_eq!(ids, vec![db.tracks[1].id, db.tracks[0].id, db.tracks[2].id]);
}

#[test]
fn album_and_artist_listings_sort_by_name() {
    let mut db = fresh_db();
    add_track(&track("m/a.mp3", "A", "Zebra", "Zed", "Zed"), &mut db);
    add_track(&track("m/b.mp3", "B", "Apple", "Ann", "Ann"), &mut db);
    let album_names: Vec<String> = get_albums(&db).into_iter().map(|a| a.name).collect();
    assert_eq!(album_names, vec!["Apple".to_string(), "Zebra".to_string()]);
    let artist_names: Vec<String> = get_artists(&db).into_iter().map(|a| a.name).collect();
    assert_eq!(artist_names, vec!["Ann".to_string(), "Zed".to_string()]);
    assert_eq!(get_album_ids(&db), vec![db.albums[1].id, db.albums[0].id]);
    assert_eq!(get_artist_ids(&db), vec![db.artists[1].id, db.artists[0].id]);
}

#[test]
fn album_tracks_sort_by_track_number() {
    let mut db = fresh_db();
    add_track(&track("m/a.mp3", "A", "Album", "Artist", "Artist"), &mut db);
    add_track(&track("m/b.mp3", "B", "Album", "Artist", "Artist"), &mut db);
    add_track(&track("m/c.mp3", "C", "Album", "Artist", "Artist"), &mut db);
    db.tracks[0].track_number = Some(3);
    db.tracks[1].track_number = Some(1);
    // the third track keeps no number and sorts first
    let album = db.albums[0].id;
    let titles: Vec<String> =
        get_album_tracks(album, &db).into_iter().map(|t| t.title).collect();
    assert_eq!(titles, vec!["C".to_string(), "B".to_string(), "A".to_string()]);
    let ids = get_album_track_ids(album, false, false, &db);
    assert_eq!(ids, vec![db.tracks[2].id, db.tracks[1].id, db.tracks[0].id]);
}

#[test]
fn artist_tracks_sort_by_album_then_number() {
    let mut db = fresh_db();
    add_track(&track("m/a.mp3", "A", "Zebra", "Artist", "Artist"), &mut db);
    add_track(&track("m/b.mp3", "B", "Apple", "Artist", "Artist"), &mut db);
    add_track(&track("m/c.mp3", "C", "Apple", "Artist", "Artist"), &mut db);
    db.tracks[1].track_number = Some(2);
    db.tracks[2].track_number = Some(1);
    let artist = db.artists[0].id;
    let titles: Vec<String> =
        get_artist_tracks(artist, &db).into_iter().map(|t| t.title).collect();
    assert_eq!(titles, vec!["C".to_string(), "B".to_string(), "A".to_string()]);
    let ids = get_artist_track_ids(artist, false, false, &db);
    assert_eq!(ids, vec![db.tracks[2].id, db.tracks[1].id, db.tracks[0].id]);
}

#[test]
fn uppercase_instrumental_marker_marks_the_track() {
    let mut db = fresh_db();
    let t = FsTrack::new(
        "m/i.mp3".into(),
        "i.mp3".into(),
        "Quiet".into(),
        "Album".into(),
        "Artist".into(),
        "Artist".into(),
        60,
        None,
        Some("[AU: INSTRUMENTAL]".into()),
    );
    add_track(&t, &mut db);
    let row = get_track_by_id(db.tracks[0].id, &db).unwrap();
    assert!(row.instrumental);
}

#[test]
fn batch_ingest_matches_serial_ingest() {
    let mut serial = fresh_db();
    let mut batch = fresh_db();
    let ts = vec![
        track("m/a.mp3", "A", "Album", "Artist", "Artist"),
        track("m/b.mp3", "B", "Album", "Artist", "Artist"),
    ];
    for t in &ts {
        add_track(t, &mut serial);
    }
    add_tracks(&ts, &mut batch);
    assert_eq!(serial.tracks.len(), batch.tracks.len());
    assert_eq!(serial.artists.len(), batch.artists.len());
    assert_eq!(serial.next_track_id, batch.next_track_id);
}
