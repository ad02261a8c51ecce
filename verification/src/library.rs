//! Library workflows over the store: initialization from a scan, wholesale
//! refresh, and the lookups the rest of the system uses.

use vstd::prelude::*;
use crate::db::{
    self, has_album_id, has_artist_id, has_track_id, spec_add_tracks, wf, AlbumRowView,
    ArtistRowView, Database, DbView, TrackRowView,
};
use crate::fs_track::FsTrack;
use crate::persistent_entities::{PersistentAlbum, PersistentArtist, PersistentTrack};

verus! {

/// Populates the library from a scan: on a store not yet initialized, wipes
/// the library tables, ingests the scanned tracks and sets the initialized
/// flag; an initialized store is left alone.
pub fn initialize_library(db: &mut Database, tracks: Vec<FsTrack>)
    requires
        wf(old(db)@),
        tracks@.len() < i64::MAX,
    ensures
        wf(final(db)@),
        old(db)@.init ==> final(db)@ == old(db)@,
        !old(db)@.init ==> final(db)@ == (DbView {
            init: true,
            ..spec_add_tracks(
                (DbView {
                    artists: Seq::<ArtistRowView>::empty(),
                    albums: Seq::<AlbumRowView>::empty(),
                    tracks: Seq::<TrackRowView>::empty(),
                    next_artist_id: 1,
                    next_album_id: 1,
                    next_track_id: 1,
                    ..old(db)@
                }),
                tracks@.map_values(|t: FsTrack| t@),
            )
        }),
{
    let init = db::get_init(db);
    if init {
        return ;
    }
    db::clean_library(db);
    db::add_tracks(&tracks, db);
    db::set_init(true, db);
}

/// Empties the library tables and clears the initialized flag.
pub fn uninitialize_library(db: &mut Database)
    requires
        wf(old(db)@),
    ensures
        wf(final(db)@),
        final(db)@ == (DbView {
            init: false,
            artists: Seq::<ArtistRowView>::empty(),
            albums: Seq::<AlbumRowView>::empty(),
            tracks: Seq::<TrackRowView>::empty(),
            next_artist_id: 1,
            next_album_id: 1,
            next_track_id: 1,
            ..old(db)@
        }),
{
    db::clean_library(db);
    db::set_init(false, db);
}

/// Empties the library and populates it again from a fresh scan.
pub fn refresh_library(db: &mut Database, tracks: Vec<FsTrack>)
    requires
        wf(old(db)@),
        tracks@.len() < i64::MAX,
    ensures
        wf(final(db)@),
        final(db)@ == (DbView {
            init: true,
            ..spec_add_tracks(
                (DbView {
                    init: false,
                    artists: Seq::<ArtistRowView>::empty(),
                    albums: Seq::<AlbumRowView>::empty(),
                    tracks: Seq::<TrackRowView>::empty(),
                    next_artist_id: 1,
                    next_album_id: 1,
                    next_track_id: 1,
                    ..old(db)@
                }),
                tracks@.map_values(|t: FsTrack| t@),
            )
        }),
{
    uninitialize_library(db);
    initialize_library(db, tracks);
}

/// Ingests scanned tracks into the library.
pub fn add_tracks(tracks: Vec<FsTrack>, db: &mut Database)
    requires
        wf(old(db)@),
        old(db).next_artist_id + tracks@.len() <= i64::MAX,
        old(db).next_album_id + tracks@.len() <= i64::MAX,
        old(db).next_track_id + tracks@.len() <= i64::MAX,
    ensures
        wf(final(db)@),
        final(db)@ == spec_add_tracks(old(db)@, tracks@.map_values(|t: FsTrack| t@)),
{
    db::add_tracks(&tracks, db);
}

/// Lists every track with its album and artist names, in ascending order
/// of normalized title.
pub fn get_tracks(db: &Database) -> (r: Vec<PersistentTrack>)
    requires
        wf(db@),
    ensures
        r@.map_values(|p: PersistentTrack| p@) == db::projected_tracks(
            db@,
            db::sort_tracks_by_title(db@.tracks),
        ),
{
    db::get_tracks(db)
}

/// Lists track ids in ascending order of normalized title: by search term
/// when one is given, else by the missing-lyrics filter.
pub fn get_track_ids(
    search_query: Option<String>,
    without_plain_lyrics: bool,
    without_synced_lyrics: bool,
    db: &Database,
) -> (r: Vec<i64>)
    requires
        wf(db@),
    ensures
        (match search_query {
            Some(q) => r@ == db::searched_track_ids(
                db@,
                db::sort_tracks_by_title(db@.tracks),
                crate::text::norm_spec(q@),
            ),
            None => r@ == db::filtered_track_ids(
                db::sort_tracks_by_title(db@.tracks),
                without_plain_lyrics,
                without_synced_lyrics,
            ),
        }),
{
    match search_query {
        Some(q) => db::get_search_track_ids(&q, db),
        None => db::get_track_ids(without_plain_lyrics, without_synced_lyrics, db),
    }
}

/// Lists the ids of the tracks that have no lyrics at all, in ascending
/// order of normalized title.
pub fn get_no_lyrics_track_ids(db: &Database) -> (r: Vec<i64>)
    ensures
        r@ == db::filtered_track_ids(db::sort_tracks_by_title(db@.tracks), true, true),
{
    db::get_track_ids(true, true, db)
}

/// Fetches one track.
pub fn get_track(id: i64, db: &Database) -> (r: Option<PersistentTrack>)
    requires
        wf(db@),
    ensures
        (match r {
            Some(p) => has_track_id(db@, id) && p@ == db::track_projection(
                db@,
                db@.tracks[db::track_idx(db@, id)],
            ),
            None => !has_track_id(db@, id),
        }),
{
    db::get_track_by_id(id, db)
}

/// Lists the albums that have tracks, in ascending order of normalized
/// name.
pub fn get_albums(db: &Database) -> (r: Vec<PersistentAlbum>)
    requires
        db@.tracks.len() <= i64::MAX,
    ensures
        r@.map_values(|p: PersistentAlbum| p@) == db::album_summaries(
            db@,
            db::sort_albums_by_name(db@.albums),
        ),
{
    db::get_albums(db)
}

/// Lists every album's id, in ascending order of normalized name.
pub fn get_album_ids(db: &Database) -> (r: Vec<i64>)
    ensures
        r@ == db::sort_albums_by_name(db@.albums).map_values(|a: AlbumRowView| a.id),
{
    db::get_album_ids(db)
}

/// Fetches one album's summary.
pub fn get_album(id: i64, db: &Database) -> (r: Option<PersistentAlbum>)
    requires
        wf(db@),
        db@.tracks.len() <= i64::MAX,
    ensures
        (match r {
            Some(p) => has_album_id(db@, id) && db::album_tracks(db@.tracks, id).len() > 0 && p@
                == (crate::persistent_entities::PersistentAlbumView {
                image_path: None,
                ..db::album_summary(db@, db@.albums[db::album_idx_by_id(db@, id)])
            }),
            None => !has_album_id(db@, id) || db::album_tracks(db@.tracks, id).len() == 0,
        }),
{
    db::get_album_by_id(id, db)
}

/// Lists the artists that have tracks, in ascending order of normalized
/// name.
pub fn get_artists(db: &Database) -> (r: Vec<PersistentArtist>)
    requires
        db@.tracks.len() <= i64::MAX,
    ensures
        r@.map_values(|p: PersistentArtist| p@) == db::artist_summaries(
            db@,
            db::sort_artists_by_name(db@.artists),
        ),
{
    db::get_artists(db)
}

/// Lists every artist's id, in ascending order of normalized name.
pub fn get_artist_ids(db: &Database) -> (r: Vec<i64>)
    ensures
        r@ == db::sort_artists_by_name(db@.artists).map_values(|a: ArtistRowView| a.id),
{
    db::get_artist_ids(db)
}

/// Fetches one artist's summary.
pub fn get_artist(id: i64, db: &Database) -> (r: Option<PersistentArtist>)
    requires
        wf(db@),
        db@.tracks.len() <= i64::MAX,
    ensures
        (match r {
            Some(p) => has_artist_id(db@, id) && db::artist_tracks(db@.tracks, id).len() > 0 && p@
                == db::artist_summary(db@, db@.artists[db::artist_idx_by_id(db@, id)]),
            None => !has_artist_id(db@, id) || db::artist_tracks(db@.tracks, id).len() == 0,
        }),
{
    db::get_artist_by_id(id, db)
}

/// Lists one album's tracks, in ascending order of track number.
pub fn get_album_tracks(album_id: i64, db: &Database) -> (r: Vec<PersistentTrack>)
    requires
        wf(db@),
    ensures
        r@.map_values(|p: PersistentTrack| p@) == db::projected_tracks(
            db@,
            db::album_tracks(db::sort_tracks_by_number(db@.tracks), album_id),
        ),
{
    db::get_album_tracks(album_id, db)
}

/// Lists one artist's tracks, ordered by album name and then track number.
pub fn get_artist_tracks(artist_id: i64, db: &Database) -> (r: Vec<PersistentTrack>)
    requires
        wf(db@),
    ensures
        r@.map_values(|p: PersistentTrack| p@) == db::projected_tracks(
            db@,
            db::artist_tracks(db::sort_tracks_by_album(db@, db@.tracks), artist_id),
        ),
{
    db::get_artist_tracks(artist_id, db)
}

/// Lists the ids of one album's tracks that pass the missing-lyrics
/// filter, in ascending order of track number.
pub fn get_album_track_ids(
    album_id: i64,
    without_plain_lyrics: bool,
    without_synced_lyrics: bool,
    db: &Database,
) -> (r: Vec<i64>)
    ensures
        r@ == db::filtered_track_ids(
            db::album_tracks(db::sort_tracks_by_number(db@.tracks), album_id),
            without_plain_lyrics,
            without_synced_lyrics,
        ),
{
    db::get_album_track_ids(album_id, without_plain_lyrics, without_synced_lyrics, db)
}

/// Lists the ids of one artist's tracks that pass the missing-lyrics
/// filter, ordered by album name and then track number.
pub fn get_artist_track_ids(
    artist_id: i64,
    without_plain_lyrics: bool,
    without_synced_lyrics: bool,
    db: &Database,
) -> (r: Vec<i64>)
    requires
        wf(db@),
    ensures
        r@ == db::filtered_track_ids(
            db::artist_tracks(db::sort_tracks_by_album(db@, db@.tracks), artist_id),
            without_plain_lyrics,
            without_synced_lyrics,
        ),
{
    db::get_artist_track_ids(artist_id, without_plain_lyrics, without_synced_lyrics, db)
}

/// Reads the library-initialized flag.
pub fn get_init(db: &Database) -> (r: bool)
    ensures
        r == db@.init,
{
    db::get_init(db)
}

} // verus!
