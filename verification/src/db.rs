//! The relational store, modeled as plain data: the versioned schema, the
//! normalized artist/album/track tables with their find-or-create upserts,
//! and the queries the rest of the system runs against them.

use vstd::prelude::*;
use crate::fs_track::{FsTrack, FsTrackView};
use crate::lyrics::lyrics_mark_instrumental;
use crate::persistent_entities::{
    opt_view, PersistentConfig, PersistentConfigView,
};
use crate::text::{norm_spec, prepare_input, str_eq};

verus! {

/// The schema version this build writes.
pub const CURRENT_DB_VERSION: u32 = 5;

// ---------------------------------------------------------------------------
// Rows
// ---------------------------------------------------------------------------

/// One artist row.
pub struct ArtistRow {
    pub id: i64,
    pub name: String,
    pub normalized_name: String,
}

/// The abstract value of an artist row.
#[verifier::ext_equal]
pub struct ArtistRowView {
    pub id: i64,
    pub name: Seq<char>,
    pub normalized_name: Seq<char>,
}

impl View for ArtistRow {
    type V = ArtistRowView;

    open spec fn view(&self) -> ArtistRowView {
        ArtistRowView { id: self.id, name: self.name@, normalized_name: self.normalized_name@ }
    }
}

/// One album row; the uniqueness key is the pair of name and album artist.
pub struct AlbumRow {
    pub id: i64,
    pub name: String,
    pub normalized_name: String,
    pub album_artist_name: String,
    pub normalized_album_artist_name: String,
    pub image_path: Option<String>,
}

/// The abstract value of an album row.
#[verifier::ext_equal]
pub struct AlbumRowView {
    pub id: i64,
    pub name: Seq<char>,
    pub normalized_name: Seq<char>,
    pub album_artist_name: Seq<char>,
    pub normalized_album_artist_name: Seq<char>,
    pub image_path: Option<Seq<char>>,
}

impl View for AlbumRow {
    type V = AlbumRowView;

    open spec fn view(&self) -> AlbumRowView {
        AlbumRowView {
            id: self.id,
            name: self.name@,
            normalized_name: self.normalized_name@,
            album_artist_name: self.album_artist_name@,
            normalized_album_artist_name: self.normalized_album_artist_name@,
            image_path: opt_view(self.image_path),
        }
    }
}

/// One track row.
pub struct TrackRow {
    pub id: i64,
    pub file_path: String,
    pub file_name: String,
    pub title: String,
    pub normalized_title: String,
    pub album_id: i64,
    pub artist_id: i64,
    pub duration: u64,
    pub track_number: Option<i64>,
    pub txt_lyrics: Option<String>,
    pub lrc_lyrics: Option<String>,
    pub instrumental: bool,
}

/// The abstract value of a track row.
#[verifier::ext_equal]
pub struct TrackRowView {
    pub id: i64,
    pub file_path: Seq<char>,
    pub file_name: Seq<char>,
    pub title: Seq<char>,
    pub normalized_title: Seq<char>,
    pub album_id: i64,
    pub artist_id: i64,
    pub duration: u64,
    pub track_number: Option<i64>,
    pub txt_lyrics: Option<Seq<char>>,
    pub lrc_lyrics: Option<Seq<char>>,
    pub instrumental: bool,
}

impl View for TrackRow {
    type V = TrackRowView;

    open spec fn view(&self) -> TrackRowView {
        TrackRowView {
            id: self.id,
            file_path: self.file_path@,
            file_name: self.file_name@,
            title: self.title@,
            normalized_title: self.normalized_title@,
            album_id: self.album_id,
            artist_id: self.artist_id,
            duration: self.duration,
            track_number: self.track_number,
            txt_lyrics: opt_view(self.txt_lyrics),
            lrc_lyrics: opt_view(self.lrc_lyrics),
            instrumental: self.instrumental,
        }
    }
}

// ---------------------------------------------------------------------------
// The store
// ---------------------------------------------------------------------------

/// The whole store: the schema version, the user settings, the library flag
/// and the three library tables, with the next free row id of each.
pub struct Database {
    pub version: u32,
    pub directories: Vec<String>,
    pub init: bool,
    pub config: PersistentConfig,
    pub artists: Vec<ArtistRow>,
    pub albums: Vec<AlbumRow>,
    pub tracks: Vec<TrackRow>,
    pub next_artist_id: i64,
    pub next_album_id: i64,
    pub next_track_id: i64,
}

/// The abstract value of the store.
#[verifier::ext_equal]
pub struct DbView {
    pub version: u32,
    pub directories: Seq<Seq<char>>,
    pub init: bool,
    pub config: PersistentConfigView,
    pub artists: Seq<ArtistRowView>,
    pub albums: Seq<AlbumRowView>,
    pub tracks: Seq<TrackRowView>,
    pub next_artist_id: i64,
    pub next_album_id: i64,
    pub next_track_id: i64,
}

impl View for Database {
    type V = DbView;

    open spec fn view(&self) -> DbView {
        DbView {
            version: self.version,
            directories: self.directories.deep_view(),
            init: self.init,
            config: self.config@,
            artists: self.artists@.map_values(|a: ArtistRow| a@),
            albums: self.albums@.map_values(|a: AlbumRow| a@),
            tracks: self.tracks@.map_values(|t: TrackRow| t@),
            next_artist_id: self.next_artist_id,
            next_album_id: self.next_album_id,
            next_track_id: self.next_track_id,
        }
    }
}

/// The configuration defaults of a fresh store.
pub open spec fn default_config_view() -> PersistentConfigView {
    PersistentConfigView {
        skip_not_needed_tracks: true,
        try_embed_lyrics: false,
        theme_mode: "auto"@,
        lrclib_instance: "https://lrclib.net"@,
    }
}

/// The abstract value of a store that holds nothing yet.
pub open spec fn fresh_db_view() -> DbView {
    DbView {
        version: 0,
        directories: Seq::<Seq<char>>::empty(),
        init: false,
        config: default_config_view(),
        artists: Seq::<ArtistRowView>::empty(),
        albums: Seq::<AlbumRowView>::empty(),
        tracks: Seq::<TrackRowView>::empty(),
        next_artist_id: 1,
        next_album_id: 1,
        next_track_id: 1,
    }
}

// ---------------------------------------------------------------------------
// Well-formedness
// ---------------------------------------------------------------------------

/// An artist with this row id exists.
pub open spec fn has_artist_id(d: DbView, id: i64) -> bool {
    exists|i: int| 0 <= i < d.artists.len() && #[trigger] d.artists[i].id == id
}

/// An artist with exactly this name exists.
pub open spec fn has_artist_named(d: DbView, name: Seq<char>) -> bool {
    exists|i: int| 0 <= i < d.artists.len() && #[trigger] d.artists[i].name == name
}

/// The index of the artist with this name.
pub open spec fn artist_idx_named(d: DbView, name: Seq<char>) -> int {
    choose|i: int| 0 <= i < d.artists.len() && #[trigger] d.artists[i].name == name
}

/// An album with this row id exists.
pub open spec fn has_album_id(d: DbView, id: i64) -> bool {
    exists|i: int| 0 <= i < d.albums.len() && #[trigger] d.albums[i].id == id
}

/// An album with exactly this name and album artist exists.
pub open spec fn has_album_keyed(d: DbView, name: Seq<char>, album_artist: Seq<char>) -> bool {
    exists|i: int|
        0 <= i < d.albums.len() && #[trigger] d.albums[i].name == name && d.albums[
            i
        ].album_artist_name == album_artist
}

/// The index of the album with this name and album artist.
pub open spec fn album_idx_keyed(d: DbView, name: Seq<char>, album_artist: Seq<char>) -> int {
    choose|i: int|
        0 <= i < d.albums.len() && #[trigger] d.albums[i].name == name && d.albums[
            i
        ].album_artist_name == album_artist
}

/// A track with this row id exists.
pub open spec fn has_track_id(d: DbView, id: i64) -> bool {
    exists|i: int| 0 <= i < d.tracks.len() && #[trigger] d.tracks[i].id == id
}

/// The index of the track with this row id.
pub open spec fn track_idx(d: DbView, id: i64) -> int {
    choose|i: int| 0 <= i < d.tracks.len() && #[trigger] d.tracks[i].id == id
}

/// Row ids are unique and below the next free id, names are unique where the
/// schema treats them as keys, every reference resolves, and the normalized
/// search columns hold the normalized form of their display column.
pub open spec fn wf(d: DbView) -> bool {
    &&& forall|i: int, j: int|
        0 <= i < j < d.artists.len() ==> #[trigger] d.artists[i].id != #[trigger] d.artists[j].id
    &&& forall|i: int, j: int|
        0 <= i < j < d.artists.len() ==> #[trigger] d.artists[i].name != #[trigger] d.artists[
            j
        ].name
    &&& forall|i: int|
        0 <= i < d.artists.len() ==> #[trigger] d.artists[i].id < d.next_artist_id
    &&& forall|i: int|
        0 <= i < d.artists.len() ==> #[trigger] d.artists[i].normalized_name == norm_spec(
            d.artists[i].name,
        )
    &&& forall|i: int, j: int|
        0 <= i < j < d.albums.len() ==> #[trigger] d.albums[i].id != #[trigger] d.albums[j].id
    &&& forall|i: int, j: int|
        0 <= i < j < d.albums.len() ==> !(#[trigger] d.albums[i].name == #[trigger] d.albums[
            j
        ].name && d.albums[i].album_artist_name == d.albums[j].album_artist_name)
    &&& forall|i: int| 0 <= i < d.albums.len() ==> #[trigger] d.albums[i].id < d.next_album_id
    &&& forall|i: int|
        0 <= i < d.albums.len() ==> #[trigger] d.albums[i].normalized_name == norm_spec(
            d.albums[i].name,
        ) && d.albums[i].normalized_album_artist_name == norm_spec(d.albums[i].album_artist_name)
    &&& forall|i: int, j: int|
        0 <= i < j < d.tracks.len() ==> #[trigger] d.tracks[i].id != #[trigger] d.tracks[j].id
    &&& forall|i: int| 0 <= i < d.tracks.len() ==> #[trigger] d.tracks[i].id < d.next_track_id
    &&& forall|i: int|
        0 <= i < d.tracks.len() ==> #[trigger] d.tracks[i].normalized_title == norm_spec(
            d.tracks[i].title,
        )
    &&& forall|i: int|
        0 <= i < d.tracks.len() ==> has_artist_id(d, #[trigger] d.tracks[i].artist_id)
            && has_album_id(d, d.tracks[i].album_id)
    &&& d.next_artist_id >= 1
    &&& d.next_album_id >= 1
    &&& d.next_track_id >= 1
}

impl Database {
    /// A store that holds nothing yet, at schema version zero.
    pub fn new() -> (r: Database)
        ensures
            r@ == fresh_db_view(),
            wf(r@),
    {
        let r = Database {
            version: 0,
            directories: Vec::new(),
            init: false,
            config: PersistentConfig {
                skip_not_needed_tracks: true,
                try_embed_lyrics: false,
                theme_mode: String::from_str("auto"),
                lrclib_instance: String::from_str("https://lrclib.net"),
            },
            artists: Vec::new(),
            albums: Vec::new(),
            tracks: Vec::new(),
            next_artist_id: 1,
            next_album_id: 1,
            next_track_id: 1,
        };
        assert(r@ =~~= fresh_db_view());
        r
    }
}

// ---------------------------------------------------------------------------
// Find-or-create: artists and albums
// ---------------------------------------------------------------------------

/// Looks an artist up by exact name.
pub fn find_artist(name: &str, db: &Database) -> (r: Option<i64>)
    ensures
        (match r {
            Some(id) => exists|i: int|
                0 <= i < db@.artists.len() && #[trigger] db@.artists[i].name == name@
                    && db@.artists[i].id == id,
            None => !has_artist_named(db@, name@),
        }),
{
    let n = db.artists.len();
    let mut i: usize = 0;
    while i < n
        invariant
            i <= n,
            n == db.artists@.len(),
            forall|k: int| 0 <= k < i ==> db@.artists[k].name != name@,
        decreases n - i,
    {
        assert(db@.artists[i as int] == db.artists@[i as int]@);
        if str_eq(db.artists[i].name.as_str(), name) {
            proof {
                assert(db@.artists[i as int].name == name@);
            }
            return Some(db.artists[i].id);
        }
        i = i + 1;
    }
    None
}

/// Inserts a new artist with its normalized name, handing back its row id.
pub fn add_artist(name: &str, db: &mut Database) -> (id: i64)
    requires
        wf(old(db)@),
        !has_artist_named(old(db)@, name@),
        old(db).next_artist_id < i64::MAX,
    ensures
        wf(final(db)@),
        id == old(db).next_artist_id,
        final(db)@ == (DbView {
            artists: old(db)@.artists.push(
                ArtistRowView { id, name: name@, normalized_name: norm_spec(name@) },
            ),
            next_artist_id: (old(db).next_artist_id + 1) as i64,
            ..old(db)@
        }),
{
    let id = db.next_artist_id;
    let normalized = prepare_input(name);
    let row = ArtistRow { id, name: name.to_owned(), normalized_name: normalized };
    db.artists.push(row);
    db.next_artist_id = db.next_artist_id + 1;
    proof {
        let dv = db@;
        let o = old(db)@;
        assert(dv =~~= (DbView {
            artists: o.artists.push(
                ArtistRowView { id, name: name@, normalized_name: norm_spec(name@) },
            ),
            next_artist_id: (o.next_artist_id + 1) as i64,
            ..o
        }));
        assert forall|i: int| 0 <= i < dv.tracks.len() implies has_artist_id(
            dv,
            #[trigger] dv.tracks[i].artist_id,
        ) && has_album_id(dv, dv.tracks[i].album_id) by {
            assert(has_artist_id(o, o.tracks[i].artist_id));
            let w = choose|k: int|
                0 <= k < o.artists.len() && #[trigger] o.artists[k].id == o.tracks[i].artist_id;
            assert(dv.artists[w].id == o.tracks[i].artist_id);
            assert(has_album_id(o, o.tracks[i].album_id));
            let w2 = choose|k: int|
                0 <= k < o.albums.len() && #[trigger] o.albums[k].id == o.tracks[i].album_id;
            assert(dv.albums[w2].id == o.tracks[i].album_id);
        }
        assert forall|i: int, j: int| 0 <= i < j < dv.artists.len() implies #[trigger] dv.artists[
            i
        ].name != #[trigger] dv.artists[j].name by {
            if j == dv.artists.len() - 1 {
                if dv.artists[i].name == name@ {
                    assert(o.artists[i].name == name@);
                    assert(has_artist_named(o, name@));
                }
            }
        }
        assert forall|i: int, j: int| 0 <= i < j < dv.artists.len() implies #[trigger] dv.artists[
            i
        ].id != #[trigger] dv.artists[j].id by {
            assert(dv.artists[i].id == o.artists[i].id);
            if j == dv.artists.len() - 1 {
                assert(o.artists[i].id < o.next_artist_id);
            } else {
                assert(dv.artists[j].id == o.artists[j].id);
            }
        }
        assert forall|i: int| 0 <= i < dv.artists.len() implies #[trigger] dv.artists[i].id
            < dv.next_artist_id by {
            if i < dv.artists.len() - 1 {
                assert(dv.artists[i].id == o.artists[i].id);
                assert(o.artists[i].id < o.next_artist_id);
            }
        }
        assert forall|i: int| 0 <= i < dv.artists.len() implies #[trigger] dv.artists[
            i
        ].normalized_name == norm_spec(dv.artists[i].name) by {
            if i < dv.artists.len() - 1 {
                assert(dv.artists[i] == o.artists[i]);
            }
        }
        assert(wf(dv));
    }
    id
}

/// Looks an album up by its exact name and album artist.
pub fn find_album(name: &str, album_artist_name: &str, db: &Database) -> (r: Option<i64>)
    ensures
        (match r {
            Some(id) => exists|i: int|
                0 <= i < db@.albums.len() && #[trigger] db@.albums[i].name == name@ && db@.albums[
                    i
                ].album_artist_name == album_artist_name@ && db@.albums[i].id == id,
            None => !has_album_keyed(db@, name@, album_artist_name@),
        }),
{
    let n = db.albums.len();
    let mut i: usize = 0;
    while i < n
        invariant
            i <= n,
            n == db.albums@.len(),
            forall|k: int|
                0 <= k < i ==> !(#[trigger] db@.albums[k].name == name@ && db@.albums[
                    k
                ].album_artist_name == album_artist_name@),
        decreases n - i,
    {
        assert(db@.albums[i as int] == db.albums@[i as int]@);
        if str_eq(db.albums[i].name.as_str(), name) && str_eq(
            db.albums[i].album_artist_name.as_str(),
            album_artist_name,
        ) {
            proof {
                assert(db@.albums[i as int].name == name@);
                assert(db@.albums[i as int].album_artist_name == album_artist_name@);
            }
            return Some(db.albums[i].id);
        }
        i = i + 1;
    }
    None
}

/// Inserts a new album with its normalized columns, handing back its row id.
pub fn add_album(name: &str, album_artist_name: &str, db: &mut Database) -> (id: i64)
    requires
        wf(old(db)@),
        !has_album_keyed(old(db)@, name@, album_artist_name@),
        old(db).next_album_id < i64::MAX,
    ensures
        wf(final(db)@),
        id == old(db).next_album_id,
        final(db)@ == (DbView {
            albums: old(db)@.albums.push(
                AlbumRowView {
                    id,
                    name: name@,
                    normalized_name: norm_spec(name@),
                    album_artist_name: album_artist_name@,
                    normalized_album_artist_name: norm_spec(album_artist_name@),
                    image_path: None,
                },
            ),
            next_album_id: (old(db).next_album_id + 1) as i64,
            ..old(db)@
        }),
{
    let id = db.next_album_id;
    let normalized = prepare_input(name);
    let normalized_artist = prepare_input(album_artist_name);
    let row = AlbumRow {
        id,
        name: name.to_owned(),
        normalized_name: normalized,
        album_artist_name: album_artist_name.to_owned(),
        normalized_album_artist_name: normalized_artist,
        image_path: None,
    };
    db.albums.push(row);
    db.next_album_id = db.next_album_id + 1;
    proof {
        let dv = db@;
        let o = old(db)@;
        assert(dv =~~= (DbView {
            albums: o.albums.push(
                AlbumRowView {
                    id,
                    name: name@,
                    normalized_name: norm_spec(name@),
                    album_artist_name: album_artist_name@,
                    normalized_album_artist_name: norm_spec(album_artist_name@),
                    image_path: None,
                },
            ),
            next_album_id: (o.next_album_id + 1) as i64,
            ..o
        }));
        assert forall|i: int| 0 <= i < dv.tracks.len() implies has_artist_id(
            dv,
            #[trigger] dv.tracks[i].artist_id,
        ) && has_album_id(dv, dv.tracks[i].album_id) by {
            assert(has_artist_id(o, o.tracks[i].artist_id));
            let w = choose|k: int|
                0 <= k < o.artists.len() && #[trigger] o.artists[k].id == o.tracks[i].artist_id;
            assert(dv.artists[w].id == o.tracks[i].artist_id);
            assert(has_album_id(o, o.tracks[i].album_id));
            let w2 = choose|k: int|
                0 <= k < o.albums.len() && #[trigger] o.albums[k].id == o.tracks[i].album_id;
            assert(dv.albums[w2].id == o.tracks[i].album_id);
        }
        assert forall|i: int, j: int| 0 <= i < j < dv.albums.len() implies !(
            #[trigger] dv.albums[i].name == #[trigger] dv.albums[j].name && dv.albums[
                i
            ].album_artist_name == dv.albums[j].album_artist_name) by {
            if j == dv.albums.len() - 1 {
                if dv.albums[i].name == name@ && dv.albums[i].album_artist_name
                    == album_artist_name@ {
                    assert(o.albums[i].name == name@);
                    assert(has_album_keyed(o, name@, album_artist_name@));
                }
            }
        }
        assert(wf(dv));
    }
    id
}

// ---------------------------------------------------------------------------
// Ingesting scanned tracks
// ---------------------------------------------------------------------------

/// The row id the artist of this name has after find-or-create.
pub open spec fn artist_id_for(d: DbView, name: Seq<char>) -> i64 {
    if has_artist_named(d, name) {
        d.artists[artist_idx_named(d, name)].id
    } else {
        d.next_artist_id
    }
}

/// The store after find-or-create of the artist of this name.
pub open spec fn ingest_artist(d: DbView, name: Seq<char>) -> DbView {
    if has_artist_named(d, name) {
        d
    } else {
        DbView {
            artists: d.artists.push(
                ArtistRowView {
                    id: d.next_artist_id,
                    name: name,
                    normalized_name: norm_spec(name),
                },
            ),
            next_artist_id: (d.next_artist_id + 1) as i64,
            ..d
        }
    }
}

/// The row id the album of this key has after find-or-create.
pub open spec fn album_id_for(d: DbView, name: Seq<char>, album_artist: Seq<char>) -> i64 {
    if has_album_keyed(d, name, album_artist) {
        d.albums[album_idx_keyed(d, name, album_artist)].id
    } else {
        d.next_album_id
    }
}

/// The store after find-or-create of the album of this key.
pub open spec fn ingest_album(d: DbView, name: Seq<char>, album_artist: Seq<char>) -> DbView {
    if has_album_keyed(d, name, album_artist) {
        d
    } else {
        DbView {
            albums: d.albums.push(
                AlbumRowView {
                    id: d.next_album_id,
                    name: name,
                    normalized_name: norm_spec(name),
                    album_artist_name: album_artist,
                    normalized_album_artist_name: norm_spec(album_artist),
                    image_path: None,
                },
            ),
            next_album_id: (d.next_album_id + 1) as i64,
            ..d
        }
    }
}

/// The track row that ingesting a scanned track inserts, given the resolved
/// artist and album ids and the id the new row receives.
pub open spec fn ingested_track_row(t: FsTrackView, id: i64, album_id: i64, artist_id: i64)
    -> TrackRowView {
    TrackRowView {
        id,
        file_path: t.file_path,
        file_name: t.file_name,
        title: t.title,
        normalized_title: norm_spec(t.title),
        album_id,
        artist_id,
        duration: t.duration,
        track_number: None,
        txt_lyrics: t.txt_lyrics,
        lrc_lyrics: t.lrc_lyrics,
        instrumental: lyrics_mark_instrumental(t.lrc_lyrics),
    }
}

/// The store after one scanned track is ingested: the artist and the album
/// are found or created, then the track row is inserted.
pub open spec fn spec_add_track(d: DbView, t: FsTrackView) -> DbView {
    let artist_id = artist_id_for(d, t.artist);
    let d1 = ingest_artist(d, t.artist);
    let album_id = album_id_for(d1, t.album, t.album_artist);
    let d2 = ingest_album(d1, t.album, t.album_artist);
    DbView {
        tracks: d2.tracks.push(ingested_track_row(t, d2.next_track_id, album_id, artist_id)),
        next_track_id: (d2.next_track_id + 1) as i64,
        ..d2
    }
}

/// The store after a sequence of scanned tracks is ingested in order.
pub open spec fn spec_add_tracks(d: DbView, ts: Seq<FsTrackView>) -> DbView
    decreases ts.len(),
{
    if ts.len() == 0 {
        d
    } else {
        spec_add_tracks(spec_add_track(d, ts[0]), ts.drop_first())
    }
}

/// Ingests one scanned track: artist and album by find-or-create, then the
/// track row with its normalized title and the instrumental test on its
/// sidecar timed lyrics.
pub fn add_track(track: &FsTrack, db: &mut Database)
    requires
        wf(old(db)@),
        old(db).next_artist_id < i64::MAX,
        old(db).next_album_id < i64::MAX,
        old(db).next_track_id < i64::MAX,
    ensures
        wf(final(db)@),
        final(db)@ == spec_add_track(old(db)@, track@),
        final(db)@.tracks.len() == old(db)@.tracks.len() + 1,
        final(db).next_artist_id <= old(db).next_artist_id + 1,
        final(db).next_album_id <= old(db).next_album_id + 1,
        final(db).next_track_id == old(db).next_track_id + 1,
{
    let ghost o = db@;
    let artist = track.artist();
    let artist_id = match find_artist(artist.as_str(), db) {
        Some(id) => {
            proof {
                let i = choose|i: int|
                    0 <= i < o.artists.len() && #[trigger] o.artists[i].name == artist@
                        && o.artists[i].id == id;
                let ci = artist_idx_named(o, artist@);
                assert(o.artists[ci].name == artist@);
                if ci != i {
                    assert(false);
                }
                assert(artist_id_for(o, artist@) == id);
                assert(ingest_artist(o, artist@) == o);
            }
            id
        },
        None => {
            let id = add_artist(artist.as_str(), db);
            proof {
                assert(artist_id_for(o, artist@) == id);
                assert(db@ =~~= ingest_artist(o, artist@));
            }
            id
        },
    };
    let ghost d1 = db@;
    let album = track.album();
    let album_artist = track.album_artist();
    let album_id = match find_album(album.as_str(), album_artist.as_str(), db) {
        Some(id) => {
            proof {
                let i = choose|i: int|
                    0 <= i < d1.albums.len() && #[trigger] d1.albums[i].name == album@
                        && d1.albums[i].album_artist_name == album_artist@ && d1.albums[i].id
                        == id;
                let ci = album_idx_keyed(d1, album@, album_artist@);
                assert(d1.albums[ci].name == album@ && d1.albums[ci].album_artist_name
                    == album_artist@);
                if ci != i {
                    assert(false);
                }
                assert(album_id_for(d1, album@, album_artist@) == id);
                assert(ingest_album(d1, album@, album_artist@) == d1);
            }
            id
        },
        None => {
            let id = add_album(album.as_str(), album_artist.as_str(), db);
            proof {
                assert(album_id_for(d1, album@, album_artist@) == id);
                assert(db@ =~~= ingest_album(d1, album@, album_artist@));
            }
            id
        },
    };
    let ghost d2 = db@;
    let title = track.title();
    let normalized_title = prepare_input(title.as_str());
    let lrc = track.lrc_lyrics();
    let instrumental = match &lrc {
        Some(l) => crate::lyrics::is_instrumental_lyrics(l.as_str()),
        None => false,
    };
    let id = db.next_track_id;
    let row = TrackRow {
        id,
        file_path: track.file_path(),
        file_name: track.file_name(),
        title,
        normalized_title,
        album_id,
        artist_id,
        duration: track.duration(),
        track_number: None,
        txt_lyrics: track.txt_lyrics(),
        lrc_lyrics: lrc,
        instrumental,
    };
    db.tracks.push(row);
    db.next_track_id = db.next_track_id + 1;
    proof {
        let dv = db@;
        assert(instrumental == lyrics_mark_instrumental(track@.lrc_lyrics));
        assert(dv =~~= (DbView {
            tracks: d2.tracks.push(ingested_track_row(track@, id, album_id, artist_id)),
            next_track_id: (d2.next_track_id + 1) as i64,
            ..d2
        }));
        assert(dv =~~= spec_add_track(o, track@));
        // the new track's references resolve
        assert(has_artist_id(dv, artist_id)) by {
            if has_artist_named(o, artist@) {
                let ci = artist_idx_named(o, artist@);
                assert(dv.artists[ci].id == artist_id);
            } else {
                let last = ingest_artist(o, artist@).artists.len() - 1;
                assert(dv.artists[last].id == artist_id);
            }
        }
        assert(has_album_id(dv, album_id)) by {
            if has_album_keyed(d1, album@, album_artist@) {
                let ci = album_idx_keyed(d1, album@, album_artist@);
                assert(dv.albums[ci].id == album_id);
            } else {
                let last = ingest_album(d1, album@, album_artist@).albums.len() - 1;
                assert(dv.albums[last].id == album_id);
            }
        }
        assert forall|i: int| 0 <= i < dv.tracks.len() implies has_artist_id(
            dv,
            #[trigger] dv.tracks[i].artist_id,
        ) && has_album_id(dv, dv.tracks[i].album_id) by {
            if i < dv.tracks.len() - 1 {
                assert(has_artist_id(d2, d2.tracks[i].artist_id));
                let w = choose|k: int|
                    0 <= k < d2.artists.len() && #[trigger] d2.artists[k].id == d2.tracks[
                        i
                    ].artist_id;
                assert(dv.artists[w].id == d2.tracks[i].artist_id);
                assert(has_album_id(d2, d2.tracks[i].album_id));
                let w2 = choose|k: int|
                    0 <= k < d2.albums.len() && #[trigger] d2.albums[k].id == d2.tracks[
                        i
                    ].album_id;
                assert(dv.albums[w2].id == d2.tracks[i].album_id);
            }
        }
        assert forall|i: int, j: int| 0 <= i < j < dv.tracks.len() implies #[trigger] dv.tracks[
            i
        ].id != #[trigger] dv.tracks[j].id by {
            assert(dv.tracks[i].id == d2.tracks[i].id);
            if j == dv.tracks.len() - 1 {
                assert(d2.tracks[i].id < d2.next_track_id);
            } else {
                assert(dv.tracks[j].id == d2.tracks[j].id);
            }
        }
        assert forall|i: int| 0 <= i < dv.tracks.len() implies #[trigger] dv.tracks[i].id
            < dv.next_track_id by {
            if i < dv.tracks.len() - 1 {
                assert(dv.tracks[i].id == d2.tracks[i].id);
                assert(d2.tracks[i].id < d2.next_track_id);
            }
        }
        assert forall|i: int| 0 <= i < dv.tracks.len() implies #[trigger] dv.tracks[
            i
        ].normalized_title == norm_spec(dv.tracks[i].title) by {
            if i < dv.tracks.len() - 1 {
                assert(dv.tracks[i] == d2.tracks[i]);
            }
        }
        assert(wf(dv));
    }
}

/// Ingests a batch of scanned tracks in order.
pub fn add_tracks(tracks: &Vec<FsTrack>, db: &mut Database)
    requires
        wf(old(db)@),
        old(db).next_artist_id + tracks@.len() <= i64::MAX,
        old(db).next_album_id + tracks@.len() <= i64::MAX,
        old(db).next_track_id + tracks@.len() <= i64::MAX,
    ensures
        wf(final(db)@),
        final(db)@ == spec_add_tracks(old(db)@, tracks@.map_values(|t: FsTrack| t@)),
{
    let ghost o = db@;
    let ghost ts = tracks@.map_values(|t: FsTrack| t@);
    let n = tracks.len();
    let mut i: usize = 0;
    proof {
        assert(ts.skip(0) =~= ts);
    }
    while i < n
        invariant
            i <= n,
            n == tracks@.len(),
            ts == tracks@.map_values(|t: FsTrack| t@),
            wf(db@),
            spec_add_tracks(o, ts) == spec_add_tracks(db@, ts.skip(i as int)),
            db.next_artist_id <= o.next_artist_id + i,
            db.next_album_id <= o.next_album_id + i,
            db.next_track_id <= o.next_track_id + i,
            o.next_artist_id + n <= i64::MAX,
            o.next_album_id + n <= i64::MAX,
            o.next_track_id + n <= i64::MAX,
        decreases n - i,
    {
        let ghost before = db@;
        add_track(&tracks[i], db);
        i = i + 1;
        proof {
            let rem = ts.skip(i - 1);
            assert(rem[0] == ts[i - 1]);
            assert(rem.drop_first() =~= ts.skip(i as int));
            assert(spec_add_tracks(before, rem) == spec_add_tracks(
                spec_add_track(before, ts[i - 1]),
                ts.skip(i as int),
            ));
        }
    }
    proof {
        assert(ts.skip(n as int).len() == 0);
        assert(spec_add_tracks(db@, ts.skip(n as int)) == db@);
    }
}

/// Ingesting the same artist, album and album artist twice creates the
/// artist row and the album row only once, and a track row each time.
pub proof fn lemma_ingest_dedup(d: DbView, t1: FsTrackView, t2: FsTrackView)
    requires
        t1.artist == t2.artist,
        t1.album == t2.album,
        t1.album_artist == t2.album_artist,
    ensures
        ({
            let d1 = spec_add_track(d, t1);
            let d2 = spec_add_track(d1, t2);
            d2.artists == d1.artists && d2.albums == d1.albums && d2.tracks.len()
                == d.tracks.len() + 2
        }),
{
    let da = ingest_artist(d, t1.artist);
    assert(has_artist_named(da, t1.artist)) by {
        if has_artist_named(d, t1.artist) {
            let w = artist_idx_named(d, t1.artist);
            assert(da.artists[w].name == t1.artist);
        } else {
            assert(da.artists[da.artists.len() - 1].name == t1.artist);
        }
    }
    let db_ = ingest_album(da, t1.album, t1.album_artist);
    let d1 = spec_add_track(d, t1);
    assert(d1.artists == db_.artists && d1.albums == db_.albums);
    assert(has_artist_named(d1, t2.artist)) by {
        let w = choose|i: int|
            0 <= i < da.artists.len() && #[trigger] da.artists[i].name == t1.artist;
        assert(d1.artists[w].name == t2.artist);
    }
    assert(has_album_keyed(d1, t2.album, t2.album_artist)) by {
        if has_album_keyed(da, t1.album, t1.album_artist) {
            let w = album_idx_keyed(da, t1.album, t1.album_artist);
            assert(d1.albums[w].name == t2.album && d1.albums[w].album_artist_name
                == t2.album_artist);
        } else {
            let last = db_.albums.len() - 1;
            assert(d1.albums[last].name == t2.album && d1.albums[last].album_artist_name
                == t2.album_artist);
        }
    }
    let d2 = spec_add_track(d1, t2);
    assert(ingest_artist(d1, t2.artist) == d1);
    assert(ingest_album(d1, t2.album, t2.album_artist) == d1);
    assert(d2.artists == d1.artists && d2.albums == d1.albums);
}

// ---------------------------------------------------------------------------
// Track lookup and projection
// ---------------------------------------------------------------------------

/// The index of the artist with this row id.
pub open spec fn artist_idx_by_id(d: DbView, id: i64) -> int {
    choose|i: int| 0 <= i < d.artists.len() && #[trigger] d.artists[i].id == id
}

/// The index of the album with this row id.
pub open spec fn album_idx_by_id(d: DbView, id: i64) -> int {
    choose|i: int| 0 <= i < d.albums.len() && #[trigger] d.albums[i].id == id
}

/// One track row joined with its album and artist rows.
pub open spec fn track_projection(d: DbView, t: TrackRowView) -> crate::persistent_entities::PersistentTrackView {
    let al = d.albums[album_idx_by_id(d, t.album_id)];
    let ar = d.artists[artist_idx_by_id(d, t.artist_id)];
    crate::persistent_entities::PersistentTrackView {
        id: t.id,
        file_path: t.file_path,
        file_name: t.file_name,
        title: t.title,
        album_name: al.name,
        album_artist_name: Some(al.album_artist_name),
        album_id: t.album_id,
        artist_name: ar.name,
        artist_id: t.artist_id,
        image_path: al.image_path,
        track_number: t.track_number,
        txt_lyrics: t.txt_lyrics,
        lrc_lyrics: t.lrc_lyrics,
        duration: t.duration,
        instrumental: t.instrumental,
    }
}

/// Finds the position of the track with this row id.
fn find_track_idx(id: i64, db: &Database) -> (r: Option<usize>)
    requires
        wf(db@),
    ensures
        (match r {
            Some(i) => i < db@.tracks.len() && db@.tracks[i as int].id == id && i as int
                == track_idx(db@, id) && has_track_id(db@, id),
            None => !has_track_id(db@, id),
        }),
{
    let n = db.tracks.len();
    let mut i: usize = 0;
    while i < n
        invariant
            i <= n,
            n == db.tracks@.len(),
            wf(db@),
            forall|k: int| 0 <= k < i ==> db@.tracks[k].id != id,
        decreases n - i,
    {
        assert(db@.tracks[i as int] == db.tracks@[i as int]@);
        if db.tracks[i].id == id {
            proof {
                assert(db@.tracks[i as int].id == id);
                let ci = track_idx(db@, id);
                assert(db@.tracks[ci].id == id);
                if ci != i {
                    assert(false);
                }
            }
            return Some(i);
        }
        i = i + 1;
    }
    None
}

/// Finds the position of the artist with this row id.
fn find_artist_idx_by_id(id: i64, db: &Database) -> (r: Option<usize>)
    ensures
        (match r {
            Some(i) => i < db@.artists.len() && db@.artists[i as int].id == id,
            None => !has_artist_id(db@, id),
        }),
{
    let n = db.artists.len();
    let mut i: usize = 0;
    while i < n
        invariant
            i <= n,
            n == db.artists@.len(),
            forall|k: int| 0 <= k < i ==> db@.artists[k].id != id,
        decreases n - i,
    {
        assert(db@.artists[i as int] == db.artists@[i as int]@);
        if db.artists[i].id == id {
            return Some(i);
        }
        i = i + 1;
    }
    None
}

/// Finds the position of the album with this row id.
fn find_album_idx_by_id(id: i64, db: &Database) -> (r: Option<usize>)
    ensures
        (match r {
            Some(i) => i < db@.albums.len() && db@.albums[i as int].id == id,
            None => !has_album_id(db@, id),
        }),
{
    let n = db.albums.len();
    let mut i: usize = 0;
    while i < n
        invariant
            i <= n,
            n == db.albums@.len(),
            forall|k: int| 0 <= k < i ==> db@.albums[k].id != id,
        decreases n - i,
    {
        assert(db@.albums[i as int] == db.albums@[i as int]@);
        if db.albums[i].id == id {
            return Some(i);
        }
        i = i + 1;
    }
    None
}

/// Builds the joined projection of the track at one position.
fn project_track(ti: usize, db: &Database) -> (r: crate::persistent_entities::PersistentTrack)
    requires
        wf(db@),
        ti < db@.tracks.len(),
    ensures
        r@ == track_projection(db@, db@.tracks[ti as int]),
{
    let ghost d = db@;
    let ghost t = d.tracks[ti as int];
    assert(db@.tracks[ti as int] == db.tracks@[ti as int]@);
    let album_id = db.tracks[ti].album_id;
    let artist_id = db.tracks[ti].artist_id;
    assert(has_album_id(d, t.album_id));
    assert(has_artist_id(d, t.artist_id));
    let ai = match find_album_idx_by_id(album_id, db) {
        Some(i) => i,
        None => {
            proof {
                assert(false);
            }
            vstd::pervasive::unreached()
        },
    };
    let ri = match find_artist_idx_by_id(artist_id, db) {
        Some(i) => i,
        None => {
            proof {
                assert(false);
            }
            vstd::pervasive::unreached()
        },
    };
    proof {
        let ci = album_idx_by_id(d, t.album_id);
        assert(d.albums[ci].id == t.album_id);
        if ci != ai {
            assert(false);
        }
        let ci2 = artist_idx_by_id(d, t.artist_id);
        assert(d.artists[ci2].id == t.artist_id);
        if ci2 != ri {
            assert(false);
        }
        assert(db@.albums[ai as int] == db.albums@[ai as int]@);
        assert(db@.artists[ri as int] == db.artists@[ri as int]@);
    }
    let row = &db.tracks[ti];
    let album = &db.albums[ai];
    let artist = &db.artists[ri];
    let r = crate::persistent_entities::PersistentTrack {
        id: row.id,
        file_path: row.file_path.clone(),
        file_name: row.file_name.clone(),
        title: row.title.clone(),
        album_name: album.name.clone(),
        album_artist_name: Some(album.album_artist_name.clone()),
        album_id: row.album_id,
        artist_name: artist.name.clone(),
        artist_id: row.artist_id,
        image_path: (match &album.image_path {
            Some(p) => Some(p.clone()),
            None => None,
        }),
        track_number: row.track_number,
        txt_lyrics: (match &row.txt_lyrics {
            Some(p) => Some(p.clone()),
            None => None,
        }),
        lrc_lyrics: (match &row.lrc_lyrics {
            Some(p) => Some(p.clone()),
            None => None,
        }),
        duration: row.duration,
        instrumental: row.instrumental,
    };
    proof {
        assert(r@ =~~= track_projection(db@, db@.tracks[ti as int]));
    }
    r
}

/// Fetches one track with its album and artist names.
pub fn get_track_by_id(id: i64, db: &Database) -> (r: Option<
    crate::persistent_entities::PersistentTrack,
>)
    requires
        wf(db@),
    ensures
        (match r {
            Some(p) => has_track_id(db@, id) && p@ == track_projection(
                db@,
                db@.tracks[track_idx(db@, id)],
            ),
            None => !has_track_id(db@, id),
        }),
{
    match find_track_idx(id, db) {
        Some(i) => Some(project_track(i, db)),
        None => None,
    }
}

// ---------------------------------------------------------------------------
// Lyrics updates
// ---------------------------------------------------------------------------

/// A well-formed store stays well-formed when one track's lyrics fields
/// change and everything else about the row is kept.
proof fn lemma_wf_track_update(o: DbView, idx: int, nt: TrackRowView)
    requires
        wf(o),
        0 <= idx < o.tracks.len(),
        nt.id == o.tracks[idx].id,
        nt.title == o.tracks[idx].title,
        nt.normalized_title == o.tracks[idx].normalized_title,
        nt.artist_id == o.tracks[idx].artist_id,
        nt.album_id == o.tracks[idx].album_id,
    ensures
        wf(DbView { tracks: o.tracks.update(idx, nt), ..o }),
{
    let dv = DbView { tracks: o.tracks.update(idx, nt), ..o };
    assert forall|i: int| 0 <= i < dv.tracks.len() implies has_artist_id(
        dv,
        #[trigger] dv.tracks[i].artist_id,
    ) && has_album_id(dv, dv.tracks[i].album_id) by {
        assert(dv.tracks[i].artist_id == o.tracks[i].artist_id);
        assert(dv.tracks[i].album_id == o.tracks[i].album_id);
        assert(has_artist_id(o, o.tracks[i].artist_id));
        let w = choose|k: int|
            0 <= k < o.artists.len() && #[trigger] o.artists[k].id == o.tracks[i].artist_id;
        assert(dv.artists[w].id == o.tracks[i].artist_id);
        assert(has_album_id(o, o.tracks[i].album_id));
        let w2 = choose|k: int|
            0 <= k < o.albums.len() && #[trigger] o.albums[k].id == o.tracks[i].album_id;
        assert(dv.albums[w2].id == o.tracks[i].album_id);
    }
    assert forall|i: int, j: int| 0 <= i < j < dv.tracks.len() implies #[trigger] dv.tracks[i].id
        != #[trigger] dv.tracks[j].id by {
        assert(dv.tracks[i].id == o.tracks[i].id);
        assert(dv.tracks[j].id == o.tracks[j].id);
    }
    assert forall|i: int| 0 <= i < dv.tracks.len() implies #[trigger] dv.tracks[i].id
        < dv.next_track_id by {
        assert(dv.tracks[i].id == o.tracks[i].id);
    }
    assert forall|i: int| 0 <= i < dv.tracks.len() implies #[trigger] dv.tracks[
        i
    ].normalized_title == norm_spec(dv.tracks[i].title) by {
        assert(dv.tracks[i].normalized_title == o.tracks[i].normalized_title);
        assert(dv.tracks[i].title == o.tracks[i].title);
    }
    assert(wf(dv));
}

/// Replaces one track's lyrics fields, keeping the rest of the row; hands
/// back the updated joined projection.
fn set_track_lyrics(
    id: i64,
    txt_lyrics: Option<String>,
    lrc_lyrics: Option<String>,
    instrumental: bool,
    db: &mut Database,
) -> (r: Option<crate::persistent_entities::PersistentTrack>)
    requires
        wf(old(db)@),
    ensures
        wf(final(db)@),
        (match r {
            Some(p) => {
                let o = old(db)@;
                let idx = track_idx(o, id);
                has_track_id(o, id) && final(db)@ == (DbView {
                    tracks: o.tracks.update(
                        idx,
                        (TrackRowView {
                            txt_lyrics: opt_view(txt_lyrics),
                            lrc_lyrics: opt_view(lrc_lyrics),
                            instrumental,
                            ..o.tracks[idx]
                        }),
                    ),
                    ..o
                }) && p@ == track_projection(final(db)@, final(db)@.tracks[idx])
            },
            None => !has_track_id(old(db)@, id) && final(db)@ == old(db)@,
        }),
{
    let ghost o = db@;
    let i = match find_track_idx(id, db) {
        Some(i) => i,
        None => {
            return None;
        },
    };
    let row = &db.tracks[i];
    let new_row = TrackRow {
        id: row.id,
        file_path: row.file_path.clone(),
        file_name: row.file_name.clone(),
        title: row.title.clone(),
        normalized_title: row.normalized_title.clone(),
        album_id: row.album_id,
        artist_id: row.artist_id,
        duration: row.duration,
        track_number: row.track_number,
        txt_lyrics,
        lrc_lyrics,
        instrumental,
    };
    let ghost nt = new_row@;
    db.tracks[i] = new_row;
    proof {
        assert(db@ =~~= (DbView { tracks: o.tracks.update(i as int, nt), ..o }));
        assert(nt =~~= (TrackRowView {
            txt_lyrics: opt_view(txt_lyrics),
            lrc_lyrics: opt_view(lrc_lyrics),
            instrumental,
            ..o.tracks[i as int]
        }));
        lemma_wf_track_update(o, i as int, nt);
    }
    let p = project_track(i, db);
    proof {
        assert(db@.tracks[i as int] == db@.tracks[track_idx(o, id) as int]);
    }
    Some(p)
}

/// Stores timed lyrics with their plain fallback on a track.
pub fn update_track_synced_lyrics(
    id: i64,
    synced_lyrics: &str,
    plain_lyrics: &str,
    db: &mut Database,
) -> (r: Option<crate::persistent_entities::PersistentTrack>)
    requires
        wf(old(db)@),
    ensures
        wf(final(db)@),
        (match r {
            Some(p) => {
                let o = old(db)@;
                let idx = track_idx(o, id);
                has_track_id(o, id) && final(db)@ == (DbView {
                    tracks: o.tracks.update(
                        idx,
                        (TrackRowView {
                            txt_lyrics: Some(plain_lyrics@),
                            lrc_lyrics: Some(synced_lyrics@),
                            instrumental: false,
                            ..o.tracks[idx]
                        }),
                    ),
                    ..o
                }) && p@ == track_projection(final(db)@, final(db)@.tracks[idx])
            },
            None => !has_track_id(old(db)@, id) && final(db)@ == old(db)@,
        }),
{
    set_track_lyrics(id, Some(plain_lyrics.to_owned()), Some(synced_lyrics.to_owned()), false, db)
}

/// Stores plain lyrics on a track, clearing any timed lyrics.
pub fn update_track_plain_lyrics(id: i64, plain_lyrics: &str, db: &mut Database) -> (r: Option<
    crate::persistent_entities::PersistentTrack,
>)
    requires
        wf(old(db)@),
    ensures
        wf(final(db)@),
        (match r {
            Some(p) => {
                let o = old(db)@;
                let idx = track_idx(o, id);
                has_track_id(o, id) && final(db)@ == (DbView {
                    tracks: o.tracks.update(
                        idx,
                        (TrackRowView {
                            txt_lyrics: Some(plain_lyrics@),
                            lrc_lyrics: None,
                            instrumental: false,
                            ..o.tracks[idx]
                        }),
                    ),
                    ..o
                }) && p@ == track_projection(final(db)@, final(db)@.tracks[idx])
            },
            None => !has_track_id(old(db)@, id) && final(db)@ == old(db)@,
        }),
{
    set_track_lyrics(id, Some(plain_lyrics.to_owned()), None, false, db)
}

/// Clears all lyrics from a track.
pub fn update_track_null_lyrics(id: i64, db: &mut Database) -> (r: Option<
    crate::persistent_entities::PersistentTrack,
>)
    requires
        wf(old(db)@),
    ensures
        wf(final(db)@),
        (match r {
            Some(p) => {
                let o = old(db)@;
                let idx = track_idx(o, id);
                has_track_id(o, id) && final(db)@ == (DbView {
                    tracks: o.tracks.update(
                        idx,
                        (TrackRowView {
                            txt_lyrics: None,
                            lrc_lyrics: None,
                            instrumental: false,
                            ..o.tracks[idx]
                        }),
                    ),
                    ..o
                }) && p@ == track_projection(final(db)@, final(db)@.tracks[idx])
            },
            None => !has_track_id(old(db)@, id) && final(db)@ == old(db)@,
        }),
{
    set_track_lyrics(id, None, None, false, db)
}

/// Marks a track instrumental: the timed-lyrics column holds the reserved
/// sentinel and the plain-lyrics column is cleared.
pub fn update_track_instrumental(id: i64, db: &mut Database) -> (r: Option<
    crate::persistent_entities::PersistentTrack,
>)
    requires
        wf(old(db)@),
    ensures
        wf(final(db)@),
        (match r {
            Some(p) => {
                let o = old(db)@;
                let idx = track_idx(o, id);
                has_track_id(o, id) && final(db)@ == (DbView {
                    tracks: o.tracks.update(
                        idx,
                        (TrackRowView {
                            txt_lyrics: None,
                            lrc_lyrics: Some("[au: instrumental]"@),
                            instrumental: true,
                            ..o.tracks[idx]
                        }),
                    ),
                    ..o
                }) && p@ == track_projection(final(db)@, final(db)@.tracks[idx])
            },
            None => !has_track_id(old(db)@, id) && final(db)@ == old(db)@,
        }),
{
    set_track_lyrics(id, None, Some(String::from_str("[au: instrumental]")), true, db)
}

// ---------------------------------------------------------------------------
// Sorted listings
// ---------------------------------------------------------------------------

/// Order on track rows: ascending by normalized title.
pub open spec fn track_title_leq(a: TrackRowView, b: TrackRowView) -> bool {
    crate::text::lex_leq(a.normalized_title, b.normalized_title)
}

/// Stable insertion of a track row into a title-ordered sequence: the new
/// row goes after every row whose title does not exceed its own.
pub open spec fn insert_track_by_title(acc: Seq<TrackRowView>, x: TrackRowView) -> Seq<
    TrackRowView,
>
    decreases acc.len(),
{
    if acc.len() == 0 {
        seq![x]
    } else if track_title_leq(acc[0], x) {
        seq![acc[0]] + insert_track_by_title(acc.drop_first(), x)
    } else {
        seq![x] + acc
    }
}

/// The rows of `rest` inserted in order into `acc`.
pub open spec fn sort_tracks_by_title_from(acc: Seq<TrackRowView>, rest: Seq<TrackRowView>) -> Seq<
    TrackRowView,
>
    decreases rest.len(),
{
    if rest.len() == 0 {
        acc
    } else {
        sort_tracks_by_title_from(insert_track_by_title(acc, rest[0]), rest.drop_first())
    }
}

/// The track rows in ascending order of their normalized titles; rows with
/// equal titles keep their store order.
pub open spec fn sort_tracks_by_title(s: Seq<TrackRowView>) -> Seq<TrackRowView> {
    sort_tracks_by_title_from(Seq::<TrackRowView>::empty(), s)
}

proof fn lemma_insert_track_by_title_at(acc: Seq<TrackRowView>, x: TrackRowView, p: int)
    requires
        0 <= p <= acc.len(),
        forall|k: int| 0 <= k < p ==> track_title_leq(#[trigger] acc[k], x),
        p < acc.len() ==> !track_title_leq(acc[p], x),
    ensures
        insert_track_by_title(acc, x) == acc.take(p) + seq![x] + acc.skip(p),
    decreases acc.len(),
{
    if acc.len() == 0 {
        assert(insert_track_by_title(acc, x) =~= acc.take(p) + seq![x] + acc.skip(p));
    } else if p == 0 {
        assert(insert_track_by_title(acc, x) =~= acc.take(0) + seq![x] + acc.skip(0));
    } else {
        assert(track_title_leq(acc[0], x));
        let t = acc.drop_first();
        assert(forall|k: int| 0 <= k < t.len() ==> t[k] == acc[k + 1]);
        assert forall|k: int| 0 <= k < p - 1 implies track_title_leq(#[trigger] t[k], x) by {
            assert(t[k] == acc[k + 1]);
        }
        lemma_insert_track_by_title_at(t, x, p - 1);
        assert(insert_track_by_title(acc, x) =~= acc.take(p) + seq![x] + acc.skip(p));
    }
}

proof fn lemma_insert_track_by_title_elems(acc: Seq<TrackRowView>, x: TrackRowView)
    ensures
        forall|idx: int|
            0 <= idx < insert_track_by_title(acc, x).len() ==> #[trigger] insert_track_by_title(
                acc,
                x,
            )[idx] == x || acc.contains(insert_track_by_title(acc, x)[idx]),
    decreases acc.len(),
{
    let r = insert_track_by_title(acc, x);
    if acc.len() == 0 {
    } else if track_title_leq(acc[0], x) {
        let rest = acc.drop_first();
        lemma_insert_track_by_title_elems(rest, x);
        assert forall|idx: int| 0 <= idx < r.len() implies #[trigger] r[idx] == x || acc.contains(
            r[idx],
        ) by {
            if idx == 0 {
                assert(r[0] == acc[0]);
                assert(acc.contains(acc[0]));
            } else {
                let ri = insert_track_by_title(rest, x);
                assert(r[idx] == ri[idx - 1]);
                if ri[idx - 1] != x {
                    assert(rest.contains(ri[idx - 1]));
                    let w = choose|k: int| 0 <= k < rest.len() && rest[k] == ri[idx - 1];
                    assert(acc[w + 1] == ri[idx - 1]);
                    assert(acc.contains(ri[idx - 1]));
                }
            }
        }
    } else {
        assert forall|idx: int| 0 <= idx < r.len() implies #[trigger] r[idx] == x || acc.contains(
            r[idx],
        ) by {
            if idx > 0 {
                assert(r[idx] == acc[idx - 1]);
                assert(acc.contains(acc[idx - 1]));
            }
        }
    }
}

proof fn lemma_insert_track_by_title_sorted(acc: Seq<TrackRowView>, x: TrackRowView)
    requires
        forall|i: int, j: int|
            0 <= i < j < acc.len() ==> track_title_leq(#[trigger] acc[i], #[trigger] acc[j]),
    ensures
        forall|i: int, j: int|
            0 <= i < j < insert_track_by_title(acc, x).len() ==> track_title_leq(
                #[trigger] insert_track_by_title(acc, x)[i],
                #[trigger] insert_track_by_title(acc, x)[j],
            ),
    decreases acc.len(),
{
    let r = insert_track_by_title(acc, x);
    if acc.len() == 0 {
    } else if track_title_leq(acc[0], x) {
        let rest = acc.drop_first();
        assert(forall|k: int| 0 <= k < rest.len() ==> rest[k] == acc[k + 1]);
        assert forall|i: int, j: int| 0 <= i < j < rest.len() implies track_title_leq(
            #[trigger] rest[i],
            #[trigger] rest[j],
        ) by {
            assert(rest[i] == acc[i + 1] && rest[j] == acc[j + 1]);
        }
        lemma_insert_track_by_title_sorted(rest, x);
        lemma_insert_track_by_title_elems(rest, x);
        let ri = insert_track_by_title(rest, x);
        assert forall|i: int, j: int| 0 <= i < j < r.len() implies track_title_leq(
            #[trigger] r[i],
            #[trigger] r[j],
        ) by {
            if i == 0 {
                assert(r[0] == acc[0]);
                assert(r[j] == ri[j - 1]);
                if ri[j - 1] == x {
                } else {
                    assert(rest.contains(ri[j - 1]));
                    let w = choose|k: int| 0 <= k < rest.len() && rest[k] == ri[j - 1];
                    assert(acc[w + 1] == ri[j - 1]);
                    assert(track_title_leq(acc[0], acc[w + 1]));
                }
            } else {
                assert(r[i] == ri[i - 1] && r[j] == ri[j - 1]);
            }
        }
    } else {
        crate::text::lemma_lex_total(acc[0].normalized_title, x.normalized_title);
        assert(track_title_leq(x, acc[0]));
        assert forall|i: int, j: int| 0 <= i < j < r.len() implies track_title_leq(
            #[trigger] r[i],
            #[trigger] r[j],
        ) by {
            if i == 0 {
                assert(r[j] == acc[j - 1]);
                if j - 1 > 0 {
                    assert(track_title_leq(acc[0], acc[j - 1]));
                    crate::text::lemma_lex_trans(
                        x.normalized_title,
                        acc[0].normalized_title,
                        acc[j - 1].normalized_title,
                    );
                }
            } else {
                assert(r[i] == acc[i - 1] && r[j] == acc[j - 1]);
            }
        }
    }
}

proof fn lemma_sort_tracks_by_title_from_sorted(acc: Seq<TrackRowView>, rest: Seq<TrackRowView>)
    requires
        forall|i: int, j: int|
            0 <= i < j < acc.len() ==> track_title_leq(#[trigger] acc[i], #[trigger] acc[j]),
    ensures
        forall|i: int, j: int|
            0 <= i < j < sort_tracks_by_title_from(acc, rest).len() ==> track_title_leq(
                #[trigger] sort_tracks_by_title_from(acc, rest)[i],
                #[trigger] sort_tracks_by_title_from(acc, rest)[j],
            ),
    decreases rest.len(),
{
    if rest.len() > 0 {
        lemma_insert_track_by_title_sorted(acc, rest[0]);
        lemma_sort_tracks_by_title_from_sorted(
            insert_track_by_title(acc, rest[0]),
            rest.drop_first(),
        );
        assert(sort_tracks_by_title_from(acc, rest) == sort_tracks_by_title_from(
            insert_track_by_title(acc, rest[0]),
            rest.drop_first(),
        ));
    }
}

/// The sorted track listing is ordered: each row's normalized title is
/// lexicographically at most the next one's.
pub proof fn lemma_sort_tracks_by_title_sorted(s: Seq<TrackRowView>)
    ensures
        forall|i: int, j: int|
            0 <= i < j < sort_tracks_by_title(s).len() ==> track_title_leq(
                #[trigger] sort_tracks_by_title(s)[i],
                #[trigger] sort_tracks_by_title(s)[j],
            ),
{
    lemma_sort_tracks_by_title_from_sorted(Seq::<TrackRowView>::empty(), s);
}

/// Computes the title-sorted order of the track rows, as store positions.
fn sorted_track_order_by_title(db: &Database) -> (r: Vec<usize>)
    ensures
        r@.len() == db@.tracks.len(),
        forall|k: int| 0 <= k < r@.len() ==> #[trigger] r@[k] < db@.tracks.len(),
        r@.map_values(|i: usize| db@.tracks[i as int]) == sort_tracks_by_title(db@.tracks),
{
    let ghost d = db@;
    let n = db.tracks.len();
    let mut out: Vec<usize> = Vec::new();
    let mut j: usize = 0;
    proof {
        assert(d.tracks.skip(0) =~= d.tracks);
        assert(out@.map_values(|i: usize| d.tracks[i as int]) =~= Seq::<TrackRowView>::empty());
    }
    while j < n
        invariant
            j <= n,
            n == db.tracks@.len(),
            db@ == d,
            out@.len() == j,
            forall|k: int| 0 <= k < out@.len() ==> #[trigger] out@[k] < n,
            sort_tracks_by_title_from(
                out@.map_values(|i: usize| d.tracks[i as int]),
                d.tracks.skip(j as int),
            ) == sort_tracks_by_title(d.tracks),
        decreases n - j,
    {
        let ghost acc = out@.map_values(|i: usize| d.tracks[i as int]);
        assert(db@.tracks[j as int] == db.tracks@[j as int]@);
        let m = out.len();
        let mut p: usize = 0;
        while p < m && crate::text::str_leq(
            db.tracks[out[p]].normalized_title.as_str(),
            db.tracks[j].normalized_title.as_str(),
        )
            invariant
                p <= m,
                m == out@.len(),
                j < n,
                n == db.tracks@.len(),
                db@ == d,
                acc == out@.map_values(|i: usize| d.tracks[i as int]),
                forall|k: int| 0 <= k < out@.len() ==> #[trigger] out@[k] < n,
                forall|k: int|
                    0 <= k < p ==> track_title_leq(#[trigger] acc[k], d.tracks[j as int]),
            decreases m - p,
        {
            proof {
                assert(db@.tracks[out@[p as int] as int] == db.tracks@[out@[p as int] as int]@);
                assert(acc[p as int] == d.tracks[out@[p as int] as int]);
            }
            p = p + 1;
        }
        proof {
            if p < m {
                assert(db@.tracks[out@[p as int] as int] == db.tracks@[out@[p as int] as int]@);
                assert(acc[p as int] == d.tracks[out@[p as int] as int]);
                assert(!track_title_leq(acc[p as int], d.tracks[j as int]));
            }
            lemma_insert_track_by_title_at(acc, d.tracks[j as int], p as int);
        }
        out.insert(p, j);
        j = j + 1;
        proof {
            assert(out@.map_values(|i: usize| d.tracks[i as int]) =~= acc.take(p as int) + seq![
                d.tracks[j - 1],
            ] + acc.skip(p as int));
            let rem = d.tracks.skip(j - 1);
            assert(rem[0] == d.tracks[j - 1]);
            assert(rem.drop_first() =~= d.tracks.skip(j as int));
            assert(out@.map_values(|i: usize| d.tracks[i as int]) == insert_track_by_title(
                acc,
                d.tracks[j - 1],
            ));
        }
    }
    proof {
        assert(d.tracks.skip(n as int).len() == 0);
    }
    out
}

/// Order on album rows: ascending by normalized name.
pub open spec fn album_name_leq(a: AlbumRowView, b: AlbumRowView) -> bool {
    crate::text::lex_leq(a.normalized_name, b.normalized_name)
}

/// Stable insertion of one row into a name-ordered sequence.
pub open spec fn insert_album_by_name(acc: Seq<AlbumRowView>, x: AlbumRowView) -> Seq<AlbumRowView>
    decreases acc.len(),
{
    if acc.len() == 0 {
        seq![x]
    } else if album_name_leq(acc[0], x) {
        seq![acc[0]] + insert_album_by_name(acc.drop_first(), x)
    } else {
        seq![x] + acc
    }
}

/// The rows of `rest` inserted in order into `acc`.
pub open spec fn sort_albums_by_name_from(acc: Seq<AlbumRowView>, rest: Seq<AlbumRowView>) -> Seq<AlbumRowView>
    decreases rest.len(),
{
    if rest.len() == 0 {
        acc
    } else {
        sort_albums_by_name_from(insert_album_by_name(acc, rest[0]), rest.drop_first())
    }
}

/// The album rows in ascending order of their normalized names; rows with
/// equal names keep their store order.
pub open spec fn sort_albums_by_name(s: Seq<AlbumRowView>) -> Seq<AlbumRowView> {
    sort_albums_by_name_from(Seq::<AlbumRowView>::empty(), s)
}

proof fn lemma_insert_album_by_name_at(acc: Seq<AlbumRowView>, x: AlbumRowView, p: int)
    requires
        0 <= p <= acc.len(),
        forall|k: int| 0 <= k < p ==> album_name_leq(#[trigger] acc[k], x),
        p < acc.len() ==> !album_name_leq(acc[p], x),
    ensures
        insert_album_by_name(acc, x) == acc.take(p) + seq![x] + acc.skip(p),
    decreases acc.len(),
{
    if acc.len() == 0 {
        assert(insert_album_by_name(acc, x) =~= acc.take(p) + seq![x] + acc.skip(p));
    } else if p == 0 {
        assert(insert_album_by_name(acc, x) =~= acc.take(0) + seq![x] + acc.skip(0));
    } else {
        assert(album_name_leq(acc[0], x));
        let t = acc.drop_first();
        assert(forall|k: int| 0 <= k < t.len() ==> t[k] == acc[k + 1]);
        assert forall|k: int| 0 <= k < p - 1 implies album_name_leq(#[trigger] t[k], x) by {
            assert(t[k] == acc[k + 1]);
        }
        lemma_insert_album_by_name_at(t, x, p - 1);
        assert(insert_album_by_name(acc, x) =~= acc.take(p) + seq![x] + acc.skip(p));
    }
}

proof fn lemma_insert_album_by_name_elems(acc: Seq<AlbumRowView>, x: AlbumRowView)
    ensures
        forall|idx: int|
            0 <= idx < insert_album_by_name(acc, x).len() ==> #[trigger] insert_album_by_name(
                acc,
                x,
            )[idx] == x || acc.contains(insert_album_by_name(acc, x)[idx]),
    decreases acc.len(),
{
    let r = insert_album_by_name(acc, x);
    if acc.len() == 0 {
    } else if album_name_leq(acc[0], x) {
        let rest = acc.drop_first();
        lemma_insert_album_by_name_elems(rest, x);
        assert forall|idx: int| 0 <= idx < r.len() implies #[trigger] r[idx] == x || acc.contains(
            r[idx],
        ) by {
            if idx == 0 {
                assert(r[0] == acc[0]);
                assert(acc.contains(acc[0]));
            } else {
                let ri = insert_album_by_name(rest, x);
                assert(r[idx] == ri[idx - 1]);
                if ri[idx - 1] != x {
                    assert(rest.contains(ri[idx - 1]));
                    let w = choose|k: int| 0 <= k < rest.len() && rest[k] == ri[idx - 1];
                    assert(acc[w + 1] == ri[idx - 1]);
                    assert(acc.contains(ri[idx - 1]));
                }
            }
        }
    } else {
        assert forall|idx: int| 0 <= idx < r.len() implies #[trigger] r[idx] == x || acc.contains(
            r[idx],
        ) by {
            if idx > 0 {
                assert(r[idx] == acc[idx - 1]);
                assert(acc.contains(acc[idx - 1]));
            }
        }
    }
}

proof fn lemma_insert_album_by_name_sorted(acc: Seq<AlbumRowView>, x: AlbumRowView)
    requires
        forall|i: int, j: int|
            0 <= i < j < acc.len() ==> album_name_leq(#[trigger] acc[i], #[trigger] acc[j]),
    ensures
        forall|i: int, j: int|
            0 <= i < j < insert_album_by_name(acc, x).len() ==> album_name_leq(
                #[trigger] insert_album_by_name(acc, x)[i],
                #[trigger] insert_album_by_name(acc, x)[j],
            ),
    decreases acc.len(),
{
    let r = insert_album_by_name(acc, x);
    if acc.len() == 0 {
    } else if album_name_leq(acc[0], x) {
        let rest = acc.drop_first();
        assert(forall|k: int| 0 <= k < rest.len() ==> rest[k] == acc[k + 1]);
        assert forall|i: int, j: int| 0 <= i < j < rest.len() implies album_name_leq(
            #[trigger] rest[i],
            #[trigger] rest[j],
        ) by {
            assert(rest[i] == acc[i + 1] && rest[j] == acc[j + 1]);
        }
        lemma_insert_album_by_name_sorted(rest, x);
        lemma_insert_album_by_name_elems(rest, x);
        let ri = insert_album_by_name(rest, x);
        assert forall|i: int, j: int| 0 <= i < j < r.len() implies album_name_leq(
            #[trigger] r[i],
            #[trigger] r[j],
        ) by {
            if i == 0 {
                assert(r[0] == acc[0]);
                assert(r[j] == ri[j - 1]);
                if ri[j - 1] == x {
                } else {
                    assert(rest.contains(ri[j - 1]));
                    let w = choose|k: int| 0 <= k < rest.len() && rest[k] == ri[j - 1];
                    assert(acc[w + 1] == ri[j - 1]);
                    assert(album_name_leq(acc[0], acc[w + 1]));
                }
            } else {
                assert(r[i] == ri[i - 1] && r[j] == ri[j - 1]);
            }
        }
    } else {
        crate::text::lemma_lex_total(acc[0].normalized_name, x.normalized_name);
        assert(album_name_leq(x, acc[0]));
        assert forall|i: int, j: int| 0 <= i < j < r.len() implies album_name_leq(
            #[trigger] r[i],
            #[trigger] r[j],
        ) by {
            if i == 0 {
                assert(r[j] == acc[j - 1]);
                if j - 1 > 0 {
                    assert(album_name_leq(acc[0], acc[j - 1]));
                    crate::text::lemma_lex_trans(
                        x.normalized_name,
                        acc[0].normalized_name,
                        acc[j - 1].normalized_name,
                    );
                }
            } else {
                assert(r[i] == acc[i - 1] && r[j] == acc[j - 1]);
            }
        }
    }
}

proof fn lemma_sort_albums_by_name_from_sorted(acc: Seq<AlbumRowView>, rest: Seq<AlbumRowView>)
    requires
        forall|i: int, j: int|
            0 <= i < j < acc.len() ==> album_name_leq(#[trigger] acc[i], #[trigger] acc[j]),
    ensures
        forall|i: int, j: int|
            0 <= i < j < sort_albums_by_name_from(acc, rest).len() ==> album_name_leq(
                #[trigger] sort_albums_by_name_from(acc, rest)[i],
                #[trigger] sort_albums_by_name_from(acc, rest)[j],
            ),
    decreases rest.len(),
{
    if rest.len() > 0 {
        lemma_insert_album_by_name_sorted(acc, rest[0]);
        lemma_sort_albums_by_name_from_sorted(
            insert_album_by_name(acc, rest[0]),
            rest.drop_first(),
        );
        assert(sort_albums_by_name_from(acc, rest) == sort_albums_by_name_from(
            insert_album_by_name(acc, rest[0]),
            rest.drop_first(),
        ));
    }
}

/// The sorted album listing is ordered: each row's normalized name is
/// lexicographically at most the next one's.
pub proof fn lemma_sort_albums_by_name_sorted(s: Seq<AlbumRowView>)
    ensures
        forall|i: int, j: int|
            0 <= i < j < sort_albums_by_name(s).len() ==> album_name_leq(
                #[trigger] sort_albums_by_name(s)[i],
                #[trigger] sort_albums_by_name(s)[j],
            ),
{
    lemma_sort_albums_by_name_from_sorted(Seq::<AlbumRowView>::empty(), s);
}

/// Computes the name-sorted order of the album rows, as store positions.
fn sorted_album_order_by_name(db: &Database) -> (r: Vec<usize>)
    ensures
        r@.len() == db@.albums.len(),
        forall|k: int| 0 <= k < r@.len() ==> #[trigger] r@[k] < db@.albums.len(),
        r@.map_values(|i: usize| db@.albums[i as int]) == sort_albums_by_name(db@.albums),
{
    let ghost d = db@;
    let n = db.albums.len();
    let mut out: Vec<usize> = Vec::new();
    let mut j: usize = 0;
    proof {
        assert(d.albums.skip(0) =~= d.albums);
        assert(out@.map_values(|i: usize| d.albums[i as int]) =~= Seq::<AlbumRowView>::empty());
    }
    while j < n
        invariant
            j <= n,
            n == db.albums@.len(),
            db@ == d,
            out@.len() == j,
            forall|k: int| 0 <= k < out@.len() ==> #[trigger] out@[k] < n,
            sort_albums_by_name_from(
                out@.map_values(|i: usize| d.albums[i as int]),
                d.albums.skip(j as int),
            ) == sort_albums_by_name(d.albums),
        decreases n - j,
    {
        let ghost acc = out@.map_values(|i: usize| d.albums[i as int]);
        assert(db@.albums[j as int] == db.albums@[j as int]@);
        let m = out.len();
        let mut p: usize = 0;
        while p < m && crate::text::str_leq(
            db.albums[out[p]].normalized_name.as_str(),
            db.albums[j].normalized_name.as_str(),
        )
            invariant
                p <= m,
                m == out@.len(),
                j < n,
                n == db.albums@.len(),
                db@ == d,
                acc == out@.map_values(|i: usize| d.albums[i as int]),
                forall|k: int| 0 <= k < out@.len() ==> #[trigger] out@[k] < n,
                forall|k: int|
                    0 <= k < p ==> album_name_leq(#[trigger] acc[k], d.albums[j as int]),
            decreases m - p,
        {
            proof {
                assert(db@.albums[out@[p as int] as int] == db.albums@[out@[p as int] as int]@);
                assert(acc[p as int] == d.albums[out@[p as int] as int]);
            }
            p = p + 1;
        }
        proof {
            if p < m {
                assert(db@.albums[out@[p as int] as int] == db.albums@[out@[p as int] as int]@);
                assert(acc[p as int] == d.albums[out@[p as int] as int]);
                assert(!album_name_leq(acc[p as int], d.albums[j as int]));
            }
            lemma_insert_album_by_name_at(acc, d.albums[j as int], p as int);
        }
        out.insert(p, j);
        j = j + 1;
        proof {
            assert(out@.map_values(|i: usize| d.albums[i as int]) =~= acc.take(p as int) + seq![
                d.albums[j - 1],
            ] + acc.skip(p as int));
            let rem = d.albums.skip(j - 1);
            assert(rem[0] == d.albums[j - 1]);
            assert(rem.drop_first() =~= d.albums.skip(j as int));
            assert(out@.map_values(|i: usize| d.albums[i as int]) == insert_album_by_name(
                acc,
                d.albums[j - 1],
            ));
        }
    }
    proof {
        assert(d.albums.skip(n as int).len() == 0);
    }
    out
}

/// Order on artist rows: ascending by normalized name.
pub open spec fn artist_name_leq(a: ArtistRowView, b: ArtistRowView) -> bool {
    crate::text::lex_leq(a.normalized_name, b.normalized_name)
}

/// Stable insertion of one row into a name-ordered sequence.
pub open spec fn insert_artist_by_name(acc: Seq<ArtistRowView>, x: ArtistRowView) -> Seq<ArtistRowView>
    decreases acc.len(),
{
    if acc.len() == 0 {
        seq![x]
    } else if artist_name_leq(acc[0], x) {
        seq![acc[0]] + insert_artist_by_name(acc.drop_first(), x)
    } else {
        seq![x] + acc
    }
}

/// The rows of `rest` inserted in order into `acc`.
pub open spec fn sort_artists_by_name_from(acc: Seq<ArtistRowView>, rest: Seq<ArtistRowView>) -> Seq<ArtistRowView>
    decreases rest.len(),
{
    if rest.len() == 0 {
        acc
    } else {
        sort_artists_by_name_from(insert_artist_by_name(acc, rest[0]), rest.drop_first())
    }
}

/// The artist rows in ascending order of their normalized names; rows with
/// equal names keep their store order.
pub open spec fn sort_artists_by_name(s: Seq<ArtistRowView>) -> Seq<ArtistRowView> {
    sort_artists_by_name_from(Seq::<ArtistRowView>::empty(), s)
}

proof fn lemma_insert_artist_by_name_at(acc: Seq<ArtistRowView>, x: ArtistRowView, p: int)
    requires
        0 <= p <= acc.len(),
        forall|k: int| 0 <= k < p ==> artist_name_leq(#[trigger] acc[k], x),
        p < acc.len() ==> !artist_name_leq(acc[p], x),
    ensures
        insert_artist_by_name(acc, x) == acc.take(p) + seq![x] + acc.skip(p),
    decreases acc.len(),
{
    if acc.len() == 0 {
        assert(insert_artist_by_name(acc, x) =~= acc.take(p) + seq![x] + acc.skip(p));
    } else if p == 0 {
        assert(insert_artist_by_name(acc, x) =~= acc.take(0) + seq![x] + acc.skip(0));
    } else {
        assert(artist_name_leq(acc[0], x));
        let t = acc.drop_first();
        assert(forall|k: int| 0 <= k < t.len() ==> t[k] == acc[k + 1]);
        assert forall|k: int| 0 <= k < p - 1 implies artist_name_leq(#[trigger] t[k], x) by {
            assert(t[k] == acc[k + 1]);
        }
        lemma_insert_artist_by_name_at(t, x, p - 1);
        assert(insert_artist_by_name(acc, x) =~= acc.take(p) + seq![x] + acc.skip(p));
    }
}

proof fn lemma_insert_artist_by_name_elems(acc: Seq<ArtistRowView>, x: ArtistRowView)
    ensures
        forall|idx: int|
            0 <= idx < insert_artist_by_name(acc, x).len() ==> #[trigger] insert_artist_by_name(
                acc,
                x,
            )[idx] == x || acc.contains(insert_artist_by_name(acc, x)[idx]),
    decreases acc.len(),
{
    let r = insert_artist_by_name(acc, x);
    if acc.len() == 0 {
    } else if artist_name_leq(acc[0], x) {
        let rest = acc.drop_first();
        lemma_insert_artist_by_name_elems(rest, x);
        assert forall|idx: int| 0 <= idx < r.len() implies #[trigger] r[idx] == x || acc.contains(
            r[idx],
        ) by {
            if idx == 0 {
                assert(r[0] == acc[0]);
                assert(acc.contains(acc[0]));
            } else {
                let ri = insert_artist_by_name(rest, x);
                assert(r[idx] == ri[idx - 1]);
                if ri[idx - 1] != x {
                    assert(rest.contains(ri[idx - 1]));
                    let w = choose|k: int| 0 <= k < rest.len() && rest[k] == ri[idx - 1];
                    assert(acc[w + 1] == ri[idx - 1]);
                    assert(acc.contains(ri[idx - 1]));
                }
            }
        }
    } else {
        assert forall|idx: int| 0 <= idx < r.len() implies #[trigger] r[idx] == x || acc.contains(
            r[idx],
        ) by {
            if idx > 0 {
                assert(r[idx] == acc[idx - 1]);
                assert(acc.contains(acc[idx - 1]));
            }
        }
    }
}

proof fn lemma_insert_artist_by_name_sorted(acc: Seq<ArtistRowView>, x: ArtistRowView)
    requires
        forall|i: int, j: int|
            0 <= i < j < acc.len() ==> artist_name_leq(#[trigger] acc[i], #[trigger] acc[j]),
    ensures
        forall|i: int, j: int|
            0 <= i < j < insert_artist_by_name(acc, x).len() ==> artist_name_leq(
                #[trigger] insert_artist_by_name(acc, x)[i],
                #[trigger] insert_artist_by_name(acc, x)[j],
            ),
    decreases acc.len(),
{
    let r = insert_artist_by_name(acc, x);
    if acc.len() == 0 {
    } else if artist_name_leq(acc[0], x) {
        let rest = acc.drop_first();
        assert(forall|k: int| 0 <= k < rest.len() ==> rest[k] == acc[k + 1]);
        assert forall|i: int, j: int| 0 <= i < j < rest.len() implies artist_name_leq(
            #[trigger] rest[i],
            #[trigger] rest[j],
        ) by {
            assert(rest[i] == acc[i + 1] && rest[j] == acc[j + 1]);
        }
        lemma_insert_artist_by_name_sorted(rest, x);
        lemma_insert_artist_by_name_elems(rest, x);
        let ri = insert_artist_by_name(rest, x);
        assert forall|i: int, j: int| 0 <= i < j < r.len() implies artist_name_leq(
            #[trigger] r[i],
            #[trigger] r[j],
        ) by {
            if i == 0 {
                assert(r[0] == acc[0]);
                assert(r[j] == ri[j - 1]);
                if ri[j - 1] == x {
                } else {
                    assert(rest.contains(ri[j - 1]));
                    let w = choose|k: int| 0 <= k < rest.len() && rest[k] == ri[j - 1];
                    assert(acc[w + 1] == ri[j - 1]);
                    assert(artist_name_leq(acc[0], acc[w + 1]));
                }
            } else {
                assert(r[i] == ri[i - 1] && r[j] == ri[j - 1]);
            }
        }
    } else {
        crate::text::lemma_lex_total(acc[0].normalized_name, x.normalized_name);
        assert(artist_name_leq(x, acc[0]));
        assert forall|i: int, j: int| 0 <= i < j < r.len() implies artist_name_leq(
            #[trigger] r[i],
            #[trigger] r[j],
        ) by {
            if i == 0 {
                assert(r[j] == acc[j - 1]);
                if j - 1 > 0 {
                    assert(artist_name_leq(acc[0], acc[j - 1]));
                    crate::text::lemma_lex_trans(
                        x.normalized_name,
                        acc[0].normalized_name,
                        acc[j - 1].normalized_name,
                    );
                }
            } else {
                assert(r[i] == acc[i - 1] && r[j] == acc[j - 1]);
            }
        }
    }
}

proof fn lemma_sort_artists_by_name_from_sorted(acc: Seq<ArtistRowView>, rest: Seq<ArtistRowView>)
    requires
        forall|i: int, j: int|
            0 <= i < j < acc.len() ==> artist_name_leq(#[trigger] acc[i], #[trigger] acc[j]),
    ensures
        forall|i: int, j: int|
            0 <= i < j < sort_artists_by_name_from(acc, rest).len() ==> artist_name_leq(
                #[trigger] sort_artists_by_name_from(acc, rest)[i],
                #[trigger] sort_artists_by_name_from(acc, rest)[j],
            ),
    decreases rest.len(),
{
    if rest.len() > 0 {
        lemma_insert_artist_by_name_sorted(acc, rest[0]);
        lemma_sort_artists_by_name_from_sorted(
            insert_artist_by_name(acc, rest[0]),
            rest.drop_first(),
        );
        assert(sort_artists_by_name_from(acc, rest) == sort_artists_by_name_from(
            insert_artist_by_name(acc, rest[0]),
            rest.drop_first(),
        ));
    }
}

/// The sorted artist listing is ordered: each row's normalized name is
/// lexicographically at most the next one's.
pub proof fn lemma_sort_artists_by_name_sorted(s: Seq<ArtistRowView>)
    ensures
        forall|i: int, j: int|
            0 <= i < j < sort_artists_by_name(s).len() ==> artist_name_leq(
                #[trigger] sort_artists_by_name(s)[i],
                #[trigger] sort_artists_by_name(s)[j],
            ),
{
    lemma_sort_artists_by_name_from_sorted(Seq::<ArtistRowView>::empty(), s);
}

/// Computes the name-sorted order of the artist rows, as store positions.
fn sorted_artist_order_by_name(db: &Database) -> (r: Vec<usize>)
    ensures
        r@.len() == db@.artists.len(),
        forall|k: int| 0 <= k < r@.len() ==> #[trigger] r@[k] < db@.artists.len(),
        r@.map_values(|i: usize| db@.artists[i as int]) == sort_artists_by_name(db@.artists),
{
    let ghost d = db@;
    let n = db.artists.len();
    let mut out: Vec<usize> = Vec::new();
    let mut j: usize = 0;
    proof {
        assert(d.artists.skip(0) =~= d.artists);
        assert(out@.map_values(|i: usize| d.artists[i as int]) =~= Seq::<ArtistRowView>::empty());
    }
    while j < n
        invariant
            j <= n,
            n == db.artists@.len(),
            db@ == d,
            out@.len() == j,
            forall|k: int| 0 <= k < out@.len() ==> #[trigger] out@[k] < n,
            sort_artists_by_name_from(
                out@.map_values(|i: usize| d.artists[i as int]),
                d.artists.skip(j as int),
            ) == sort_artists_by_name(d.artists),
        decreases n - j,
    {
        let ghost acc = out@.map_values(|i: usize| d.artists[i as int]);
        assert(db@.artists[j as int] == db.artists@[j as int]@);
        let m = out.len();
        let mut p: usize = 0;
        while p < m && crate::text::str_leq(
            db.artists[out[p]].normalized_name.as_str(),
            db.artists[j].normalized_name.as_str(),
        )
            invariant
                p <= m,
                m == out@.len(),
                j < n,
                n == db.artists@.len(),
                db@ == d,
                acc == out@.map_values(|i: usize| d.artists[i as int]),
                forall|k: int| 0 <= k < out@.len() ==> #[trigger] out@[k] < n,
                forall|k: int|
                    0 <= k < p ==> artist_name_leq(#[trigger] acc[k], d.artists[j as int]),
            decreases m - p,
        {
            proof {
                assert(db@.artists[out@[p as int] as int] == db.artists@[out@[p as int] as int]@);
                assert(acc[p as int] == d.artists[out@[p as int] as int]);
            }
            p = p + 1;
        }
        proof {
            if p < m {
                assert(db@.artists[out@[p as int] as int] == db.artists@[out@[p as int] as int]@);
                assert(acc[p as int] == d.artists[out@[p as int] as int]);
                assert(!artist_name_leq(acc[p as int], d.artists[j as int]));
            }
            lemma_insert_artist_by_name_at(acc, d.artists[j as int], p as int);
        }
        out.insert(p, j);
        j = j + 1;
        proof {
            assert(out@.map_values(|i: usize| d.artists[i as int]) =~= acc.take(p as int) + seq![
                d.artists[j - 1],
            ] + acc.skip(p as int));
            let rem = d.artists.skip(j - 1);
            assert(rem[0] == d.artists[j - 1]);
            assert(rem.drop_first() =~= d.artists.skip(j as int));
            assert(out@.map_values(|i: usize| d.artists[i as int]) == insert_artist_by_name(
                acc,
                d.artists[j - 1],
            ));
        }
    }
    proof {
        assert(d.artists.skip(n as int).len() == 0);
    }
    out
}

/// Order on optional track numbers: a missing number sorts before every
/// present one, as the store reads absent values.
pub open spec fn opt_num_leq(a: Option<i64>, b: Option<i64>) -> bool {
    match a {
        None => true,
        Some(x) => match b {
            None => false,
            Some(y) => x <= y,
        },
    }
}

/// Decides the order on optional track numbers.
fn track_number_le(a: Option<i64>, b: Option<i64>) -> (r: bool)
    ensures
        r == opt_num_leq(a, b),
{
    match a {
        None => true,
        Some(x) => match b {
            None => false,
            Some(y) => x <= y,
        },
    }
}

/// Order on track rows: ascending by track number.
pub open spec fn track_number_leq(a: TrackRowView, b: TrackRowView) -> bool {
    opt_num_leq(a.track_number, b.track_number)
}

/// Stable insertion of a track row into a number-ordered sequence.
pub open spec fn insert_track_by_number(acc: Seq<TrackRowView>, x: TrackRowView) -> Seq<
    TrackRowView,
>
    decreases acc.len(),
{
    if acc.len() == 0 {
        seq![x]
    } else if track_number_leq(acc[0], x) {
        seq![acc[0]] + insert_track_by_number(acc.drop_first(), x)
    } else {
        seq![x] + acc
    }
}

/// The rows of `rest` inserted in order into `acc`.
pub open spec fn sort_tracks_by_number_from(acc: Seq<TrackRowView>, rest: Seq<TrackRowView>)
    -> Seq<TrackRowView>
    decreases rest.len(),
{
    if rest.len() == 0 {
        acc
    } else {
        sort_tracks_by_number_from(insert_track_by_number(acc, rest[0]), rest.drop_first())
    }
}

/// The track rows in ascending order of their track numbers; rows with
/// equal numbers keep their store order.
pub open spec fn sort_tracks_by_number(s: Seq<TrackRowView>) -> Seq<TrackRowView> {
    sort_tracks_by_number_from(Seq::<TrackRowView>::empty(), s)
}

proof fn lemma_insert_track_by_number_at(acc: Seq<TrackRowView>, x: TrackRowView, p: int)
    requires
        0 <= p <= acc.len(),
        forall|k: int| 0 <= k < p ==> track_number_leq(#[trigger] acc[k], x),
        p < acc.len() ==> !track_number_leq(acc[p], x),
    ensures
        insert_track_by_number(acc, x) == acc.take(p) + seq![x] + acc.skip(p),
    decreases acc.len(),
{
    if acc.len() == 0 {
        assert(insert_track_by_number(acc, x) =~= acc.take(p) + seq![x] + acc.skip(p));
    } else if p == 0 {
        assert(insert_track_by_number(acc, x) =~= acc.take(0) + seq![x] + acc.skip(0));
    } else {
        assert(track_number_leq(acc[0], x));
        let t = acc.drop_first();
        assert(forall|k: int| 0 <= k < t.len() ==> t[k] == acc[k + 1]);
        assert forall|k: int| 0 <= k < p - 1 implies track_number_leq(#[trigger] t[k], x) by {
            assert(t[k] == acc[k + 1]);
        }
        lemma_insert_track_by_number_at(t, x, p - 1);
        assert(insert_track_by_number(acc, x) =~= acc.take(p) + seq![x] + acc.skip(p));
    }
}

proof fn lemma_insert_track_by_number_elems(acc: Seq<TrackRowView>, x: TrackRowView)
    ensures
        forall|idx: int|
            0 <= idx < insert_track_by_number(acc, x).len() ==> #[trigger] insert_track_by_number(
                acc,
                x,
            )[idx] == x || acc.contains(insert_track_by_number(acc, x)[idx]),
    decreases acc.len(),
{
    let r = insert_track_by_number(acc, x);
    if acc.len() == 0 {
    } else if track_number_leq(acc[0], x) {
        let rest = acc.drop_first();
        lemma_insert_track_by_number_elems(rest, x);
        assert forall|idx: int| 0 <= idx < r.len() implies #[trigger] r[idx] == x || acc.contains(
            r[idx],
        ) by {
            if idx == 0 {
                assert(r[0] == acc[0]);
                assert(acc.contains(acc[0]));
            } else {
                let ri = insert_track_by_number(rest, x);
                assert(r[idx] == ri[idx - 1]);
                if ri[idx - 1] != x {
                    assert(rest.contains(ri[idx - 1]));
                    let w = choose|k: int| 0 <= k < rest.len() && rest[k] == ri[idx - 1];
                    assert(acc[w + 1] == ri[idx - 1]);
                    assert(acc.contains(ri[idx - 1]));
                }
            }
        }
    } else {
        assert forall|idx: int| 0 <= idx < r.len() implies #[trigger] r[idx] == x || acc.contains(
            r[idx],
        ) by {
            if idx > 0 {
                assert(r[idx] == acc[idx - 1]);
                assert(acc.contains(acc[idx - 1]));
            }
        }
    }
}

proof fn lemma_insert_track_by_number_sorted(acc: Seq<TrackRowView>, x: TrackRowView)
    requires
        forall|i: int, j: int|
            0 <= i < j < acc.len() ==> track_number_leq(#[trigger] acc[i], #[trigger] acc[j]),
    ensures
        forall|i: int, j: int|
            0 <= i < j < insert_track_by_number(acc, x).len() ==> track_number_leq(
                #[trigger] insert_track_by_number(acc, x)[i],
                #[trigger] insert_track_by_number(acc, x)[j],
            ),
    decreases acc.len(),
{
    let r = insert_track_by_number(acc, x);
    if acc.len() == 0 {
    } else if track_number_leq(acc[0], x) {
        let rest = acc.drop_first();
        assert(forall|k: int| 0 <= k < rest.len() ==> rest[k] == acc[k + 1]);
        assert forall|i: int, j: int| 0 <= i < j < rest.len() implies track_number_leq(
            #[trigger] rest[i],
            #[trigger] rest[j],
        ) by {
            assert(rest[i] == acc[i + 1] && rest[j] == acc[j + 1]);
        }
        lemma_insert_track_by_number_sorted(rest, x);
        lemma_insert_track_by_number_elems(rest, x);
        let ri = insert_track_by_number(rest, x);
        assert forall|i: int, j: int| 0 <= i < j < r.len() implies track_number_leq(
            #[trigger] r[i],
            #[trigger] r[j],
        ) by {
            if i == 0 {
                assert(r[0] == acc[0]);
                assert(r[j] == ri[j - 1]);
                if ri[j - 1] == x {
                } else {
                    assert(rest.contains(ri[j - 1]));
                    let w = choose|k: int| 0 <= k < rest.len() && rest[k] == ri[j - 1];
                    assert(acc[w + 1] == ri[j - 1]);
                    assert(track_number_leq(acc[0], acc[w + 1]));
                }
            } else {
                assert(r[i] == ri[i - 1] && r[j] == ri[j - 1]);
            }
        }
    } else {
        assert(track_number_leq(x, acc[0]));
        assert forall|i: int, j: int| 0 <= i < j < r.len() implies track_number_leq(
            #[trigger] r[i],
            #[trigger] r[j],
        ) by {
            if i == 0 {
                assert(r[j] == acc[j - 1]);
                if j - 1 > 0 {
                    assert(track_number_leq(acc[0], acc[j - 1]));
                }
            } else {
                assert(r[i] == acc[i - 1] && r[j] == acc[j - 1]);
            }
        }
    }
}

proof fn lemma_sort_tracks_by_number_from_sorted(acc: Seq<TrackRowView>, rest: Seq<TrackRowView>)
    requires
        forall|i: int, j: int|
            0 <= i < j < acc.len() ==> track_number_leq(#[trigger] acc[i], #[trigger] acc[j]),
    ensures
        forall|i: int, j: int|
            0 <= i < j < sort_tracks_by_number_from(acc, rest).len() ==> track_number_leq(
                #[trigger] sort_tracks_by_number_from(acc, rest)[i],
                #[trigger] sort_tracks_by_number_from(acc, rest)[j],
            ),
    decreases rest.len(),
{
    if rest.len() > 0 {
        lemma_insert_track_by_number_sorted(acc, rest[0]);
        lemma_sort_tracks_by_number_from_sorted(
            insert_track_by_number(acc, rest[0]),
            rest.drop_first(),
        );
        assert(sort_tracks_by_number_from(acc, rest) == sort_tracks_by_number_from(
            insert_track_by_number(acc, rest[0]),
            rest.drop_first(),
        ));
    }
}

/// The number-sorted track listing is ordered: each row's track number is
/// at most the next one's, with missing numbers first.
pub proof fn lemma_sort_tracks_by_number_sorted(s: Seq<TrackRowView>)
    ensures
        forall|i: int, j: int|
            0 <= i < j < sort_tracks_by_number(s).len() ==> track_number_leq(
                #[trigger] sort_tracks_by_number(s)[i],
                #[trigger] sort_tracks_by_number(s)[j],
            ),
{
    lemma_sort_tracks_by_number_from_sorted(Seq::<TrackRowView>::empty(), s);
}

/// Computes the number-sorted order of the track rows, as store positions.
fn sorted_track_order_by_number(db: &Database) -> (r: Vec<usize>)
    ensures
        r@.len() == db@.tracks.len(),
        forall|k: int| 0 <= k < r@.len() ==> #[trigger] r@[k] < db@.tracks.len(),
        r@.map_values(|i: usize| db@.tracks[i as int]) == sort_tracks_by_number(db@.tracks),
{
    let ghost d = db@;
    let n = db.tracks.len();
    let mut out: Vec<usize> = Vec::new();
    let mut j: usize = 0;
    proof {
        assert(d.tracks.skip(0) =~= d.tracks);
        assert(out@.map_values(|i: usize| d.tracks[i as int]) =~= Seq::<TrackRowView>::empty());
    }
    while j < n
        invariant
            j <= n,
            n == db.tracks@.len(),
            db@ == d,
            out@.len() == j,
            forall|k: int| 0 <= k < out@.len() ==> #[trigger] out@[k] < n,
            sort_tracks_by_number_from(
                out@.map_values(|i: usize| d.tracks[i as int]),
                d.tracks.skip(j as int),
            ) == sort_tracks_by_number(d.tracks),
        decreases n - j,
    {
        let ghost acc = out@.map_values(|i: usize| d.tracks[i as int]);
        assert(db@.tracks[j as int] == db.tracks@[j as int]@);
        let m = out.len();
        let mut p: usize = 0;
        while p < m && track_number_le(db.tracks[out[p]].track_number, db.tracks[j].track_number)
            invariant
                p <= m,
                m == out@.len(),
                j < n,
                n == db.tracks@.len(),
                db@ == d,
                acc == out@.map_values(|i: usize| d.tracks[i as int]),
                forall|k: int| 0 <= k < out@.len() ==> #[trigger] out@[k] < n,
                forall|k: int|
                    0 <= k < p ==> track_number_leq(#[trigger] acc[k], d.tracks[j as int]),
            decreases m - p,
        {
            proof {
                assert(db@.tracks[out@[p as int] as int] == db.tracks@[out@[p as int] as int]@);
                assert(acc[p as int] == d.tracks[out@[p as int] as int]);
            }
            p = p + 1;
        }
        proof {
            if p < m {
                assert(db@.tracks[out@[p as int] as int] == db.tracks@[out@[p as int] as int]@);
                assert(acc[p as int] == d.tracks[out@[p as int] as int]);
                assert(!track_number_leq(acc[p as int], d.tracks[j as int]));
            }
            lemma_insert_track_by_number_at(acc, d.tracks[j as int], p as int);
        }
        out.insert(p, j);
        j = j + 1;
        proof {
            assert(out@.map_values(|i: usize| d.tracks[i as int]) =~= acc.take(p as int) + seq![
                d.tracks[j - 1],
            ] + acc.skip(p as int));
            let rem = d.tracks.skip(j - 1);
            assert(rem[0] == d.tracks[j - 1]);
            assert(rem.drop_first() =~= d.tracks.skip(j as int));
            assert(out@.map_values(|i: usize| d.tracks[i as int]) == insert_track_by_number(
                acc,
                d.tracks[j - 1],
            ));
        }
    }
    proof {
        assert(d.tracks.skip(n as int).len() == 0);
    }
    out
}

/// Order on track rows within one artist's listing: ascending by the
/// album's normalized name, then by track number.
pub open spec fn track_album_number_leq(d: DbView, a: TrackRowView, b: TrackRowView) -> bool {
    let an = d.albums[album_idx_by_id(d, a.album_id)].normalized_name;
    let bn = d.albums[album_idx_by_id(d, b.album_id)].normalized_name;
    if an != bn {
        crate::text::lex_leq(an, bn)
    } else {
        opt_num_leq(a.track_number, b.track_number)
    }
}

/// Stable insertion of a track row into an album-then-number ordered
/// sequence.
pub open spec fn insert_track_by_album(d: DbView, acc: Seq<TrackRowView>, x: TrackRowView) -> Seq<
    TrackRowView,
>
    decreases acc.len(),
{
    if acc.len() == 0 {
        seq![x]
    } else if track_album_number_leq(d, acc[0], x) {
        seq![acc[0]] + insert_track_by_album(d, acc.drop_first(), x)
    } else {
        seq![x] + acc
    }
}

/// The rows of `rest` inserted in order into `acc`.
pub open spec fn sort_tracks_by_album_from(
    d: DbView,
    acc: Seq<TrackRowView>,
    rest: Seq<TrackRowView>,
) -> Seq<TrackRowView>
    decreases rest.len(),
{
    if rest.len() == 0 {
        acc
    } else {
        sort_tracks_by_album_from(d, insert_track_by_album(d, acc, rest[0]), rest.drop_first())
    }
}

/// The track rows in ascending order of their album's normalized name and
/// then their track number; ties keep their store order.
pub open spec fn sort_tracks_by_album(d: DbView, s: Seq<TrackRowView>) -> Seq<TrackRowView> {
    sort_tracks_by_album_from(d, Seq::<TrackRowView>::empty(), s)
}

proof fn lemma_insert_track_by_album_at(d: DbView, acc: Seq<TrackRowView>, x: TrackRowView, p: int)
    requires
        0 <= p <= acc.len(),
        forall|k: int| 0 <= k < p ==> track_album_number_leq(d, #[trigger] acc[k], x),
        p < acc.len() ==> !track_album_number_leq(d, acc[p], x),
    ensures
        insert_track_by_album(d, acc, x) == acc.take(p) + seq![x] + acc.skip(p),
    decreases acc.len(),
{
    if acc.len() == 0 {
        assert(insert_track_by_album(d, acc, x) =~= acc.take(p) + seq![x] + acc.skip(p));
    } else if p == 0 {
        assert(insert_track_by_album(d, acc, x) =~= acc.take(0) + seq![x] + acc.skip(0));
    } else {
        assert(track_album_number_leq(d, acc[0], x));
        let t = acc.drop_first();
        assert(forall|k: int| 0 <= k < t.len() ==> t[k] == acc[k + 1]);
        assert forall|k: int| 0 <= k < p - 1 implies track_album_number_leq(
            d,
            #[trigger] t[k],
            x,
        ) by {
            assert(t[k] == acc[k + 1]);
        }
        lemma_insert_track_by_album_at(d, t, x, p - 1);
        assert(insert_track_by_album(d, acc, x) =~= acc.take(p) + seq![x] + acc.skip(p));
    }
}

proof fn lemma_track_album_leq_total(d: DbView, a: TrackRowView, b: TrackRowView)
    ensures
        track_album_number_leq(d, a, b) || track_album_number_leq(d, b, a),
{
    let an = d.albums[album_idx_by_id(d, a.album_id)].normalized_name;
    let bn = d.albums[album_idx_by_id(d, b.album_id)].normalized_name;
    if an != bn {
        crate::text::lemma_lex_total(an, bn);
    }
}

proof fn lemma_track_album_leq_trans(d: DbView, a: TrackRowView, b: TrackRowView, c: TrackRowView)
    requires
        track_album_number_leq(d, a, b),
        track_album_number_leq(d, b, c),
    ensures
        track_album_number_leq(d, a, c),
{
    let an = d.albums[album_idx_by_id(d, a.album_id)].normalized_name;
    let bn = d.albums[album_idx_by_id(d, b.album_id)].normalized_name;
    let cn = d.albums[album_idx_by_id(d, c.album_id)].normalized_name;
    if an != bn && bn != cn {
        crate::text::lemma_lex_trans(an, bn, cn);
        if an == cn {
            crate::text::lemma_lex_antisym(an, bn);
        }
    }
}

proof fn lemma_insert_track_by_album_elems(d: DbView, acc: Seq<TrackRowView>, x: TrackRowView)
    ensures
        forall|idx: int|
            0 <= idx < insert_track_by_album(d, acc, x).len() ==> #[trigger] insert_track_by_album(
                d,
                acc,
                x,
            )[idx] == x || acc.contains(insert_track_by_album(d, acc, x)[idx]),
    decreases acc.len(),
{
    let r = insert_track_by_album(d, acc, x);
    if acc.len() == 0 {
    } else if track_album_number_leq(d, acc[0], x) {
        let rest = acc.drop_first();
        lemma_insert_track_by_album_elems(d, rest, x);
        assert forall|idx: int| 0 <= idx < r.len() implies #[trigger] r[idx] == x || acc.contains(
            r[idx],
        ) by {
            if idx == 0 {
                assert(r[0] == acc[0]);
                assert(acc.contains(acc[0]));
            } else {
                let ri = insert_track_by_album(d, rest, x);
                assert(r[idx] == ri[idx - 1]);
                if ri[idx - 1] != x {
                    assert(rest.contains(ri[idx - 1]));
                    let w = choose|k: int| 0 <= k < rest.len() && rest[k] == ri[idx - 1];
                    assert(acc[w + 1] == ri[idx - 1]);
                    assert(acc.contains(ri[idx - 1]));
                }
            }
        }
    } else {
        assert forall|idx: int| 0 <= idx < r.len() implies #[trigger] r[idx] == x || acc.contains(
            r[idx],
        ) by {
            if idx > 0 {
                assert(r[idx] == acc[idx - 1]);
                assert(acc.contains(acc[idx - 1]));
            }
        }
    }
}

proof fn lemma_insert_track_by_album_sorted(d: DbView, acc: Seq<TrackRowView>, x: TrackRowView)
    requires
        forall|i: int, j: int|
            0 <= i < j < acc.len() ==> track_album_number_leq(
                d,
                #[trigger] acc[i],
                #[trigger] acc[j],
            ),
    ensures
        forall|i: int, j: int|
            0 <= i < j < insert_track_by_album(d, acc, x).len() ==> track_album_number_leq(
                d,
                #[trigger] insert_track_by_album(d, acc, x)[i],
                #[trigger] insert_track_by_album(d, acc, x)[j],
            ),
    decreases acc.len(),
{
    let r = insert_track_by_album(d, acc, x);
    if acc.len() == 0 {
    } else if track_album_number_leq(d, acc[0], x) {
        let rest = acc.drop_first();
        assert(forall|k: int| 0 <= k < rest.len() ==> rest[k] == acc[k + 1]);
        assert forall|i: int, j: int| 0 <= i < j < rest.len() implies track_album_number_leq(
            d,
            #[trigger] rest[i],
            #[trigger] rest[j],
        ) by {
            assert(rest[i] == acc[i + 1] && rest[j] == acc[j + 1]);
        }
        lemma_insert_track_by_album_sorted(d, rest, x);
        lemma_insert_track_by_album_elems(d, rest, x);
        let ri = insert_track_by_album(d, rest, x);
        assert forall|i: int, j: int| 0 <= i < j < r.len() implies track_album_number_leq(
            d,
            #[trigger] r[i],
            #[trigger] r[j],
        ) by {
            if i == 0 {
                assert(r[0] == acc[0]);
                assert(r[j] == ri[j - 1]);
                if ri[j - 1] == x {
                } else {
                    assert(rest.contains(ri[j - 1]));
                    let w = choose|k: int| 0 <= k < rest.len() && rest[k] == ri[j - 1];
                    assert(acc[w + 1] == ri[j - 1]);
                    assert(track_album_number_leq(d, acc[0], acc[w + 1]));
                }
            } else {
                assert(r[i] == ri[i - 1] && r[j] == ri[j - 1]);
            }
        }
    } else {
        lemma_track_album_leq_total(d, acc[0], x);
        assert(track_album_number_leq(d, x, acc[0]));
        assert forall|i: int, j: int| 0 <= i < j < r.len() implies track_album_number_leq(
            d,
            #[trigger] r[i],
            #[trigger] r[j],
        ) by {
            if i == 0 {
                assert(r[j] == acc[j - 1]);
                if j - 1 > 0 {
                    assert(track_album_number_leq(d, acc[0], acc[j - 1]));
                    lemma_track_album_leq_trans(d, x, acc[0], acc[j - 1]);
                }
            } else {
                assert(r[i] == acc[i - 1] && r[j] == acc[j - 1]);
            }
        }
    }
}

proof fn lemma_sort_tracks_by_album_from_sorted(
    d: DbView,
    acc: Seq<TrackRowView>,
    rest: Seq<TrackRowView>,
)
    requires
        forall|i: int, j: int|
            0 <= i < j < acc.len() ==> track_album_number_leq(
                d,
                #[trigger] acc[i],
                #[trigger] acc[j],
            ),
    ensures
        forall|i: int, j: int|
            0 <= i < j < sort_tracks_by_album_from(d, acc, rest).len() ==> track_album_number_leq(
                d,
                #[trigger] sort_tracks_by_album_from(d, acc, rest)[i],
                #[trigger] sort_tracks_by_album_from(d, acc, rest)[j],
            ),
    decreases rest.len(),
{
    if rest.len() > 0 {
        lemma_insert_track_by_album_sorted(d, acc, rest[0]);
        lemma_sort_tracks_by_album_from_sorted(
            d,
            insert_track_by_album(d, acc, rest[0]),
            rest.drop_first(),
        );
        assert(sort_tracks_by_album_from(d, acc, rest) == sort_tracks_by_album_from(
            d,
            insert_track_by_album(d, acc, rest[0]),
            rest.drop_first(),
        ));
    }
}

/// The album-sorted track listing is ordered: each row comes at or before
/// the next under the album-name-then-number order.
pub proof fn lemma_sort_tracks_by_album_sorted(d: DbView, s: Seq<TrackRowView>)
    ensures
        forall|i: int, j: int|
            0 <= i < j < sort_tracks_by_album(d, s).len() ==> track_album_number_leq(
                d,
                #[trigger] sort_tracks_by_album(d, s)[i],
                #[trigger] sort_tracks_by_album(d, s)[j],
            ),
{
    lemma_sort_tracks_by_album_from_sorted(d, Seq::<TrackRowView>::empty(), s);
}

/// Decides the album-then-number order on two tracks of the store.
fn track_album_number_le(ti: usize, tj: usize, db: &Database) -> (r: bool)
    requires
        wf(db@),
        ti < db@.tracks.len(),
        tj < db@.tracks.len(),
    ensures
        r == track_album_number_leq(db@, db@.tracks[ti as int], db@.tracks[tj as int]),
{
    let ghost d = db@;
    assert(db@.tracks[ti as int] == db.tracks@[ti as int]@);
    assert(db@.tracks[tj as int] == db.tracks@[tj as int]@);
    assert(has_artist_id(d, d.tracks[ti as int].artist_id) && has_album_id(
        d,
        d.tracks[ti as int].album_id,
    ));
    assert(has_artist_id(d, d.tracks[tj as int].artist_id) && has_album_id(
        d,
        d.tracks[tj as int].album_id,
    ));
    let ai = match find_album_idx_by_id(db.tracks[ti].album_id, db) {
        Some(i) => i,
        None => {
            proof {
                assert(false);
            }
            vstd::pervasive::unreached()
        },
    };
    let aj = match find_album_idx_by_id(db.tracks[tj].album_id, db) {
        Some(i) => i,
        None => {
            proof {
                assert(false);
            }
            vstd::pervasive::unreached()
        },
    };
    proof {
        let ci = album_idx_by_id(d, d.tracks[ti as int].album_id);
        assert(d.albums[ci].id == d.tracks[ti as int].album_id);
        if ci != ai {
            assert(false);
        }
        let cj = album_idx_by_id(d, d.tracks[tj as int].album_id);
        assert(d.albums[cj].id == d.tracks[tj as int].album_id);
        if cj != aj {
            assert(false);
        }
        assert(db@.albums[ai as int] == db.albums@[ai as int]@);
        assert(db@.albums[aj as int] == db.albums@[aj as int]@);
    }
    if !crate::text::str_eq(
        db.albums[ai].normalized_name.as_str(),
        db.albums[aj].normalized_name.as_str(),
    ) {
        crate::text::str_leq(
            db.albums[ai].normalized_name.as_str(),
            db.albums[aj].normalized_name.as_str(),
        )
    } else {
        track_number_le(db.tracks[ti].track_number, db.tracks[tj].track_number)
    }
}

/// Computes the album-then-number order of the track rows, as store
/// positions.
fn sorted_track_order_by_album(db: &Database) -> (r: Vec<usize>)
    requires
        wf(db@),
    ensures
        r@.len() == db@.tracks.len(),
        forall|k: int| 0 <= k < r@.len() ==> #[trigger] r@[k] < db@.tracks.len(),
        r@.map_values(|i: usize| db@.tracks[i as int]) == sort_tracks_by_album(db@, db@.tracks),
{
    let ghost d = db@;
    let n = db.tracks.len();
    let mut out: Vec<usize> = Vec::new();
    let mut j: usize = 0;
    proof {
        assert(d.tracks.skip(0) =~= d.tracks);
        assert(out@.map_values(|i: usize| d.tracks[i as int]) =~= Seq::<TrackRowView>::empty());
    }
    while j < n
        invariant
            j <= n,
            n == db.tracks@.len(),
            wf(db@),
            db@ == d,
            out@.len() == j,
            forall|k: int| 0 <= k < out@.len() ==> #[trigger] out@[k] < n,
            sort_tracks_by_album_from(
                d,
                out@.map_values(|i: usize| d.tracks[i as int]),
                d.tracks.skip(j as int),
            ) == sort_tracks_by_album(d, d.tracks),
        decreases n - j,
    {
        let ghost acc = out@.map_values(|i: usize| d.tracks[i as int]);
        assert(db@.tracks[j as int] == db.tracks@[j as int]@);
        let m = out.len();
        let mut p: usize = 0;
        while p < m && track_album_number_le(out[p], j, db)
            invariant
                p <= m,
                m == out@.len(),
                j < n,
                n == db.tracks@.len(),
                wf(db@),
                db@ == d,
                acc == out@.map_values(|i: usize| d.tracks[i as int]),
                forall|k: int| 0 <= k < out@.len() ==> #[trigger] out@[k] < n,
                forall|k: int|
                    0 <= k < p ==> track_album_number_leq(d, #[trigger] acc[k], d.tracks[j as int]),
            decreases m - p,
        {
            proof {
                assert(acc[p as int] == d.tracks[out@[p as int] as int]);
            }
            p = p + 1;
        }
        proof {
            if p < m {
                assert(acc[p as int] == d.tracks[out@[p as int] as int]);
                assert(!track_album_number_leq(d, acc[p as int], d.tracks[j as int]));
            }
            lemma_insert_track_by_album_at(d, acc, d.tracks[j as int], p as int);
        }
        out.insert(p, j);
        j = j + 1;
        proof {
            assert(out@.map_values(|i: usize| d.tracks[i as int]) =~= acc.take(p as int) + seq![
                d.tracks[j - 1],
            ] + acc.skip(p as int));
            let rem = d.tracks.skip(j - 1);
            assert(rem[0] == d.tracks[j - 1]);
            assert(rem.drop_first() =~= d.tracks.skip(j as int));
            assert(out@.map_values(|i: usize| d.tracks[i as int]) == insert_track_by_album(
                d,
                acc,
                d.tracks[j - 1],
            ));
        }
    }
    proof {
        assert(d.tracks.skip(n as int).len() == 0);
    }
    out
}

// ---------------------------------------------------------------------------
// Queries over tracks
// ---------------------------------------------------------------------------

/// Whether a track passes the missing-lyrics filter.
pub open spec fn track_matches_filter(t: TrackRowView, without_plain: bool, without_synced: bool)
    -> bool {
    if without_plain && without_synced {
        t.txt_lyrics is None && t.lrc_lyrics is None && !t.instrumental
    } else if without_plain {
        t.txt_lyrics is None && !t.instrumental
    } else if without_synced {
        t.lrc_lyrics is None && !t.instrumental
    } else {
        true
    }
}

/// The ids of the tracks that pass the missing-lyrics filter, in store
/// order.
pub open spec fn filtered_track_ids(
    s: Seq<TrackRowView>,
    without_plain: bool,
    without_synced: bool,
) -> Seq<i64>
    decreases s.len(),
{
    if s.len() == 0 {
        Seq::<i64>::empty()
    } else {
        (if track_matches_filter(s[0], without_plain, without_synced) {
            seq![s[0].id]
        } else {
            Seq::<i64>::empty()
        }) + filtered_track_ids(s.drop_first(), without_plain, without_synced)
    }
}

/// The joined projections of a sequence of track rows.
pub open spec fn projected_tracks(d: DbView, s: Seq<TrackRowView>) -> Seq<
    crate::persistent_entities::PersistentTrackView,
>
    decreases s.len(),
{
    if s.len() == 0 {
        Seq::<crate::persistent_entities::PersistentTrackView>::empty()
    } else {
        seq![track_projection(d, s[0])] + projected_tracks(d, s.drop_first())
    }
}

/// The track rows of one album, in store order.
pub open spec fn album_tracks(s: Seq<TrackRowView>, album_id: i64) -> Seq<TrackRowView>
    decreases s.len(),
{
    if s.len() == 0 {
        Seq::<TrackRowView>::empty()
    } else {
        (if s[0].album_id == album_id {
            seq![s[0]]
        } else {
            Seq::<TrackRowView>::empty()
        }) + album_tracks(s.drop_first(), album_id)
    }
}

/// The track rows of one artist, in store order.
pub open spec fn artist_tracks(s: Seq<TrackRowView>, artist_id: i64) -> Seq<TrackRowView>
    decreases s.len(),
{
    if s.len() == 0 {
        Seq::<TrackRowView>::empty()
    } else {
        (if s[0].artist_id == artist_id {
            seq![s[0]]
        } else {
            Seq::<TrackRowView>::empty()
        }) + artist_tracks(s.drop_first(), artist_id)
    }
}

/// Lists every track with its album and artist names, in ascending order of
/// normalized title.
pub fn get_tracks(db: &Database) -> (r: Vec<crate::persistent_entities::PersistentTrack>)
    requires
        wf(db@),
    ensures
        r@.map_values(|p: crate::persistent_entities::PersistentTrack| p@) == projected_tracks(
            db@,
            sort_tracks_by_title(db@.tracks),
        ),
{
    let ghost d = db@;
    let ghost sorted = sort_tracks_by_title(d.tracks);
    let ord = sorted_track_order_by_title(db);
    let m = ord.len();
    let mut out: Vec<crate::persistent_entities::PersistentTrack> = Vec::new();
    let mut k: usize = 0;
    proof {
        assert(sorted.skip(0) =~= sorted);
        assert(out@.map_values(|p: crate::persistent_entities::PersistentTrack| p@)
            + projected_tracks(d, sorted.skip(0)) =~= projected_tracks(d, sorted));
        assert(m == sorted.len());
    }
    while k < m
        invariant
            k <= m,
            m == ord@.len(),
            m == sorted.len(),
            wf(db@),
            db@ == d,
            sorted == sort_tracks_by_title(d.tracks),
            ord@.map_values(|i: usize| d.tracks[i as int]) == sorted,
            forall|k2: int| 0 <= k2 < ord@.len() ==> #[trigger] ord@[k2] < d.tracks.len(),
            out@.map_values(|p: crate::persistent_entities::PersistentTrack| p@)
                + projected_tracks(d, sorted.skip(k as int)) == projected_tracks(d, sorted),
        decreases m - k,
    {
        proof {
            assert(sorted[k as int] == ord@.map_values(|i: usize| d.tracks[i as int])[k as int]);
        }
        let p = project_track(ord[k], db);
        out.push(p);
        k = k + 1;
        proof {
            let rem = sorted.skip(k - 1);
            assert(rem[0] == sorted[k - 1]);
            assert(rem.drop_first() =~= sorted.skip(k as int));
            assert(out@.map_values(|p: crate::persistent_entities::PersistentTrack| p@)
                + projected_tracks(d, sorted.skip(k as int)) =~= projected_tracks(d, sorted));
        }
    }
    proof {
        assert(sorted.skip(m as int).len() == 0);
        assert(out@.map_values(|p: crate::persistent_entities::PersistentTrack| p@)
            =~= projected_tracks(d, sorted));
    }
    out
}

/// Lists the ids of the tracks that pass the missing-lyrics filter, in
/// ascending order of normalized title.
pub fn get_track_ids(without_plain_lyrics: bool, without_synced_lyrics: bool, db: &Database) -> (r:
    Vec<i64>)
    ensures
        r@ == filtered_track_ids(
            sort_tracks_by_title(db@.tracks),
            without_plain_lyrics,
            without_synced_lyrics,
        ),
{
    let ghost d = db@;
    let ghost sorted = sort_tracks_by_title(d.tracks);
    let ord = sorted_track_order_by_title(db);
    let m = ord.len();
    let mut out: Vec<i64> = Vec::new();
    let mut k: usize = 0;
    proof {
        assert(sorted.skip(0) =~= sorted);
        assert(out@ + filtered_track_ids(sorted.skip(0), without_plain_lyrics,
            without_synced_lyrics) =~= filtered_track_ids(sorted, without_plain_lyrics,
            without_synced_lyrics));
        assert(m == sorted.len());
    }
    while k < m
        invariant
            k <= m,
            m == ord@.len(),
            m == sorted.len(),
            db@ == d,
            sorted == sort_tracks_by_title(d.tracks),
            ord@.map_values(|i: usize| d.tracks[i as int]) == sorted,
            forall|k2: int| 0 <= k2 < ord@.len() ==> #[trigger] ord@[k2] < d.tracks.len(),
            out@ + filtered_track_ids(sorted.skip(k as int), without_plain_lyrics,
                without_synced_lyrics) == filtered_track_ids(sorted, without_plain_lyrics,
                without_synced_lyrics),
        decreases m - k,
    {
        proof {
            assert(sorted[k as int] == ord@.map_values(|i: usize| d.tracks[i as int])[k as int]);
            assert(db@.tracks[ord@[k as int] as int] == db.tracks@[ord@[k as int] as int]@);
        }
        let row = &db.tracks[ord[k]];
        let keep = if without_plain_lyrics && without_synced_lyrics {
            row.txt_lyrics.is_none() && row.lrc_lyrics.is_none() && !row.instrumental
        } else if without_plain_lyrics {
            row.txt_lyrics.is_none() && !row.instrumental
        } else if without_synced_lyrics {
            row.lrc_lyrics.is_none() && !row.instrumental
        } else {
            true
        };
        if keep {
            out.push(row.id);
        }
        k = k + 1;
        proof {
            let rem = sorted.skip(k - 1);
            assert(rem[0] == sorted[k - 1]);
            assert(rem.drop_first() =~= sorted.skip(k as int));
            assert(keep == track_matches_filter(sorted[k - 1], without_plain_lyrics,
                without_synced_lyrics));
            assert(out@ + filtered_track_ids(sorted.skip(k as int), without_plain_lyrics,
                without_synced_lyrics) =~= filtered_track_ids(sorted, without_plain_lyrics,
                without_synced_lyrics));
        }
    }
    proof {
        assert(filtered_track_ids(sorted.skip(m as int), without_plain_lyrics,
            without_synced_lyrics).len() == 0);
        assert(out@ =~= filtered_track_ids(sorted, without_plain_lyrics,
            without_synced_lyrics));
    }
    out
}

/// Lists one album's tracks with their album and artist names, in
/// ascending order of track number.
pub fn get_album_tracks(album_id: i64, db: &Database) -> (r: Vec<
    crate::persistent_entities::PersistentTrack,
>)
    requires
        wf(db@),
    ensures
        r@.map_values(|p: crate::persistent_entities::PersistentTrack| p@) == projected_tracks(
            db@,
            album_tracks(sort_tracks_by_number(db@.tracks), album_id),
        ),
{
    let ghost d = db@;
    let ghost sorted = sort_tracks_by_number(d.tracks);
    let ord = sorted_track_order_by_number(db);
    let m = ord.len();
    let mut out: Vec<crate::persistent_entities::PersistentTrack> = Vec::new();
    let mut k: usize = 0;
    proof {
        assert(sorted.skip(0) =~= sorted);
        assert(m == sorted.len());
    }
    while k < m
        invariant
            k <= m,
            m == ord@.len(),
            m == sorted.len(),
            wf(db@),
            db@ == d,
            sorted == sort_tracks_by_number(d.tracks),
            ord@.map_values(|i: usize| d.tracks[i as int]) == sorted,
            forall|k2: int| 0 <= k2 < ord@.len() ==> #[trigger] ord@[k2] < d.tracks.len(),
            out@.map_values(|p: crate::persistent_entities::PersistentTrack| p@)
                + projected_tracks(d, album_tracks(sorted.skip(k as int), album_id))
                == projected_tracks(d, album_tracks(sorted, album_id)),
        decreases m - k,
    {
        proof {
            assert(sorted[k as int] == ord@.map_values(|i: usize| d.tracks[i as int])[k as int]);
            assert(db@.tracks[ord@[k as int] as int] == db.tracks@[ord@[k as int] as int]@);
        }
        let ghost rem = sorted.skip(k as int);
        if db.tracks[ord[k]].album_id == album_id {
            let p = project_track(ord[k], db);
            out.push(p);
        }
        k = k + 1;
        proof {
            assert(rem[0] == sorted[k - 1]);
            assert(rem.drop_first() =~= sorted.skip(k as int));
            assert(album_tracks(rem, album_id) == (if sorted[k - 1].album_id == album_id {
                seq![sorted[k - 1]]
            } else {
                Seq::<TrackRowView>::empty()
            }) + album_tracks(sorted.skip(k as int), album_id));
            if sorted[k - 1].album_id == album_id {
                let tail = album_tracks(sorted.skip(k as int), album_id);
                let cons = seq![sorted[k - 1]] + tail;
                assert(cons[0] == sorted[k - 1]);
                assert(cons.drop_first() =~= tail);
                assert(projected_tracks(d, cons) == seq![track_projection(d, sorted[k - 1])]
                    + projected_tracks(d, tail));
            }
            assert(out@.map_values(|p: crate::persistent_entities::PersistentTrack| p@)
                + projected_tracks(d, album_tracks(sorted.skip(k as int), album_id))
                =~= projected_tracks(d, album_tracks(sorted, album_id)));
        }
    }
    proof {
        assert(album_tracks(sorted.skip(m as int), album_id).len() == 0);
        assert(out@.map_values(|p: crate::persistent_entities::PersistentTrack| p@)
            =~= projected_tracks(d, album_tracks(sorted, album_id)));
    }
    out
}

/// Lists one artist's tracks with their album and artist names, ordered by
/// album name and then track number.
pub fn get_artist_tracks(artist_id: i64, db: &Database) -> (r: Vec<
    crate::persistent_entities::PersistentTrack,
>)
    requires
        wf(db@),
    ensures
        r@.map_values(|p: crate::persistent_entities::PersistentTrack| p@) == projected_tracks(
            db@,
            artist_tracks(sort_tracks_by_album(db@, db@.tracks), artist_id),
        ),
{
    let ghost d = db@;
    let ghost sorted = sort_tracks_by_album(d, d.tracks);
    let ord = sorted_track_order_by_album(db);
    let m = ord.len();
    let mut out: Vec<crate::persistent_entities::PersistentTrack> = Vec::new();
    let mut k: usize = 0;
    proof {
        assert(sorted.skip(0) =~= sorted);
        assert(m == sorted.len());
    }
    while k < m
        invariant
            k <= m,
            m == ord@.len(),
            m == sorted.len(),
            wf(db@),
            db@ == d,
            sorted == sort_tracks_by_album(d, d.tracks),
            ord@.map_values(|i: usize| d.tracks[i as int]) == sorted,
            forall|k2: int| 0 <= k2 < ord@.len() ==> #[trigger] ord@[k2] < d.tracks.len(),
            out@.map_values(|p: crate::persistent_entities::PersistentTrack| p@)
                + projected_tracks(d, artist_tracks(sorted.skip(k as int), artist_id))
                == projected_tracks(d, artist_tracks(sorted, artist_id)),
        decreases m - k,
    {
        proof {
            assert(sorted[k as int] == ord@.map_values(|i: usize| d.tracks[i as int])[k as int]);
            assert(db@.tracks[ord@[k as int] as int] == db.tracks@[ord@[k as int] as int]@);
        }
        let ghost rem = sorted.skip(k as int);
        if db.tracks[ord[k]].artist_id == artist_id {
            let p = project_track(ord[k], db);
            out.push(p);
        }
        k = k + 1;
        proof {
            assert(rem[0] == sorted[k - 1]);
            assert(rem.drop_first() =~= sorted.skip(k as int));
            assert(artist_tracks(rem, artist_id) == (if sorted[k - 1].artist_id == artist_id {
                seq![sorted[k - 1]]
            } else {
                Seq::<TrackRowView>::empty()
            }) + artist_tracks(sorted.skip(k as int), artist_id));
            if sorted[k - 1].artist_id == artist_id {
                let tail = artist_tracks(sorted.skip(k as int), artist_id);
                let cons = seq![sorted[k - 1]] + tail;
                assert(cons[0] == sorted[k - 1]);
                assert(cons.drop_first() =~= tail);
                assert(projected_tracks(d, cons) == seq![track_projection(d, sorted[k - 1])]
                    + projected_tracks(d, tail));
            }
            assert(out@.map_values(|p: crate::persistent_entities::PersistentTrack| p@)
                + projected_tracks(d, artist_tracks(sorted.skip(k as int), artist_id))
                =~= projected_tracks(d, artist_tracks(sorted, artist_id)));
        }
    }
    proof {
        assert(artist_tracks(sorted.skip(m as int), artist_id).len() == 0);
        assert(out@.map_values(|p: crate::persistent_entities::PersistentTrack| p@)
            =~= projected_tracks(d, artist_tracks(sorted, artist_id)));
    }
    out
}

/// Lists the ids of one album's tracks that pass the missing-lyrics
/// filter, in ascending order of track number.
pub fn get_album_track_ids(
    album_id: i64,
    without_plain_lyrics: bool,
    without_synced_lyrics: bool,
    db: &Database,
) -> (r: Vec<i64>)
    ensures
        r@ == filtered_track_ids(
            album_tracks(sort_tracks_by_number(db@.tracks), album_id),
            without_plain_lyrics,
            without_synced_lyrics,
        ),
{
    let ghost d = db@;
    let ghost sorted = sort_tracks_by_number(d.tracks);
    let ord = sorted_track_order_by_number(db);
    let m = ord.len();
    let mut out: Vec<i64> = Vec::new();
    let mut k: usize = 0;
    proof {
        assert(sorted.skip(0) =~= sorted);
        assert(m == sorted.len());
    }
    while k < m
        invariant
            k <= m,
            m == ord@.len(),
            m == sorted.len(),
            db@ == d,
            sorted == sort_tracks_by_number(d.tracks),
            ord@.map_values(|i: usize| d.tracks[i as int]) == sorted,
            forall|k2: int| 0 <= k2 < ord@.len() ==> #[trigger] ord@[k2] < d.tracks.len(),
            out@ + filtered_track_ids(album_tracks(sorted.skip(k as int), album_id),
                without_plain_lyrics, without_synced_lyrics) == filtered_track_ids(
                album_tracks(sorted, album_id),
                without_plain_lyrics,
                without_synced_lyrics,
            ),
        decreases m - k,
    {
        proof {
            assert(sorted[k as int] == ord@.map_values(|i: usize| d.tracks[i as int])[k as int]);
            assert(db@.tracks[ord@[k as int] as int] == db.tracks@[ord@[k as int] as int]@);
        }
        let ghost rem = sorted.skip(k as int);
        let row = &db.tracks[ord[k]];
        if row.album_id == album_id {
            let keep = if without_plain_lyrics && without_synced_lyrics {
                row.txt_lyrics.is_none() && row.lrc_lyrics.is_none() && !row.instrumental
            } else if without_plain_lyrics {
                row.txt_lyrics.is_none() && !row.instrumental
            } else if without_synced_lyrics {
                row.lrc_lyrics.is_none() && !row.instrumental
            } else {
                true
            };
            if keep {
                out.push(row.id);
            }
        }
        k = k + 1;
        proof {
            assert(rem[0] == sorted[k - 1]);
            assert(rem.drop_first() =~= sorted.skip(k as int));
            assert(album_tracks(rem, album_id) == (if sorted[k - 1].album_id == album_id {
                seq![sorted[k - 1]]
            } else {
                Seq::<TrackRowView>::empty()
            }) + album_tracks(sorted.skip(k as int), album_id));
            if sorted[k - 1].album_id == album_id {
                let tail = album_tracks(sorted.skip(k as int), album_id);
                let cons = seq![sorted[k - 1]] + tail;
                assert(cons[0] == sorted[k - 1]);
                assert(cons.drop_first() =~= tail);
                assert(filtered_track_ids(cons, without_plain_lyrics, without_synced_lyrics)
                    == (if track_matches_filter(sorted[k - 1], without_plain_lyrics,
                    without_synced_lyrics) {
                    seq![sorted[k - 1].id]
                } else {
                    Seq::<i64>::empty()
                }) + filtered_track_ids(tail, without_plain_lyrics, without_synced_lyrics));
            }
            assert(out@ + filtered_track_ids(album_tracks(sorted.skip(k as int), album_id),
                without_plain_lyrics, without_synced_lyrics) =~= filtered_track_ids(
                album_tracks(sorted, album_id),
                without_plain_lyrics,
                without_synced_lyrics,
            ));
        }
    }
    proof {
        assert(filtered_track_ids(album_tracks(sorted.skip(m as int), album_id),
            without_plain_lyrics, without_synced_lyrics).len() == 0);
        assert(out@ =~= filtered_track_ids(
            album_tracks(sorted, album_id),
            without_plain_lyrics,
            without_synced_lyrics,
        ));
    }
    out
}

/// Lists the ids of one artist's tracks that pass the missing-lyrics
/// filter, ordered by album name and then track number.
pub fn get_artist_track_ids(
    artist_id: i64,
    without_plain_lyrics: bool,
    without_synced_lyrics: bool,
    db: &Database,
) -> (r: Vec<i64>)
    requires
        wf(db@),
    ensures
        r@ == filtered_track_ids(
            artist_tracks(sort_tracks_by_album(db@, db@.tracks), artist_id),
            without_plain_lyrics,
            without_synced_lyrics,
        ),
{
    let ghost d = db@;
    let ghost sorted = sort_tracks_by_album(d, d.tracks);
    let ord = sorted_track_order_by_album(db);
    let m = ord.len();
    let mut out: Vec<i64> = Vec::new();
    let mut k: usize = 0;
    proof {
        assert(sorted.skip(0) =~= sorted);
        assert(m == sorted.len());
    }
    while k < m
        invariant
            k <= m,
            m == ord@.len(),
            m == sorted.len(),
            db@ == d,
            sorted == sort_tracks_by_album(d, d.tracks),
            ord@.map_values(|i: usize| d.tracks[i as int]) == sorted,
            forall|k2: int| 0 <= k2 < ord@.len() ==> #[trigger] ord@[k2] < d.tracks.len(),
            out@ + filtered_track_ids(artist_tracks(sorted.skip(k as int), artist_id),
                without_plain_lyrics, without_synced_lyrics) == filtered_track_ids(
                artist_tracks(sorted, artist_id),
                without_plain_lyrics,
                without_synced_lyrics,
            ),
        decreases m - k,
    {
        proof {
            assert(sorted[k as int] == ord@.map_values(|i: usize| d.tracks[i as int])[k as int]);
            assert(db@.tracks[ord@[k as int] as int] == db.tracks@[ord@[k as int] as int]@);
        }
        let ghost rem = sorted.skip(k as int);
        let row = &db.tracks[ord[k]];
        if row.artist_id == artist_id {
            let keep = if without_plain_lyrics && without_synced_lyrics {
                row.txt_lyrics.is_none() && row.lrc_lyrics.is_none() && !row.instrumental
            } else if without_plain_lyrics {
                row.txt_lyrics.is_none() && !row.instrumental
            } else if without_synced_lyrics {
                row.lrc_lyrics.is_none() && !row.instrumental
            } else {
                true
            };
            if keep {
                out.push(row.id);
            }
        }
        k = k + 1;
        proof {
            assert(rem[0] == sorted[k - 1]);
            assert(rem.drop_first() =~= sorted.skip(k as int));
            assert(artist_tracks(rem, artist_id) == (if sorted[k - 1].artist_id == artist_id {
                seq![sorted[k - 1]]
            } else {
                Seq::<TrackRowView>::empty()
            }) + artist_tracks(sorted.skip(k as int), artist_id));
            if sorted[k - 1].artist_id == artist_id {
                let tail = artist_tracks(sorted.skip(k as int), artist_id);
                let cons = seq![sorted[k - 1]] + tail;
                assert(cons[0] == sorted[k - 1]);
                assert(cons.drop_first() =~= tail);
                assert(filtered_track_ids(cons, without_plain_lyrics, without_synced_lyrics)
                    == (if track_matches_filter(sorted[k - 1], without_plain_lyrics,
                    without_synced_lyrics) {
                    seq![sorted[k - 1].id]
                } else {
                    Seq::<i64>::empty()
                }) + filtered_track_ids(tail, without_plain_lyrics, without_synced_lyrics));
            }
            assert(out@ + filtered_track_ids(artist_tracks(sorted.skip(k as int), artist_id),
                without_plain_lyrics, without_synced_lyrics) =~= filtered_track_ids(
                artist_tracks(sorted, artist_id),
                without_plain_lyrics,
                without_synced_lyrics,
            ));
        }
    }
    proof {
        assert(filtered_track_ids(artist_tracks(sorted.skip(m as int), artist_id),
            without_plain_lyrics, without_synced_lyrics).len() == 0);
        assert(out@ =~= filtered_track_ids(
            artist_tracks(sorted, artist_id),
            without_plain_lyrics,
            without_synced_lyrics,
        ));
    }
    out
}

// ---------------------------------------------------------------------------
// Album and artist summaries
// ---------------------------------------------------------------------------

/// One album's summary, with its track count.
pub open spec fn album_summary(d: DbView, a: AlbumRowView)
    -> crate::persistent_entities::PersistentAlbumView {
    crate::persistent_entities::PersistentAlbumView {
        id: a.id,
        name: a.name,
        image_path: a.image_path,
        artist_name: a.album_artist_name,
        album_artist_name: Some(a.album_artist_name),
        tracks_count: album_tracks(d.tracks, a.id).len() as i64,
    }
}

/// The summaries of the albums that have at least one track, in store
/// order.
pub open spec fn album_summaries(d: DbView, s: Seq<AlbumRowView>) -> Seq<
    crate::persistent_entities::PersistentAlbumView,
>
    decreases s.len(),
{
    if s.len() == 0 {
        Seq::<crate::persistent_entities::PersistentAlbumView>::empty()
    } else {
        (if album_tracks(d.tracks, s[0].id).len() > 0 {
            seq![album_summary(d, s[0])]
        } else {
            Seq::<crate::persistent_entities::PersistentAlbumView>::empty()
        }) + album_summaries(d, s.drop_first())
    }
}

/// One artist's summary, with its track count.
pub open spec fn artist_summary(d: DbView, a: ArtistRowView)
    -> crate::persistent_entities::PersistentArtistView {
    crate::persistent_entities::PersistentArtistView {
        id: a.id,
        name: a.name,
        tracks_count: artist_tracks(d.tracks, a.id).len() as i64,
    }
}

/// The summaries of the artists that have at least one track, in store
/// order.
pub open spec fn artist_summaries(d: DbView, s: Seq<ArtistRowView>) -> Seq<
    crate::persistent_entities::PersistentArtistView,
>
    decreases s.len(),
{
    if s.len() == 0 {
        Seq::<crate::persistent_entities::PersistentArtistView>::empty()
    } else {
        (if artist_tracks(d.tracks, s[0].id).len() > 0 {
            seq![artist_summary(d, s[0])]
        } else {
            Seq::<crate::persistent_entities::PersistentArtistView>::empty()
        }) + artist_summaries(d, s.drop_first())
    }
}

proof fn lemma_album_tracks_len(s: Seq<TrackRowView>, album_id: i64)
    ensures
        album_tracks(s, album_id).len() <= s.len(),
    decreases s.len(),
{
    if s.len() > 0 {
        lemma_album_tracks_len(s.drop_first(), album_id);
    }
}

proof fn lemma_artist_tracks_len(s: Seq<TrackRowView>, artist_id: i64)
    ensures
        artist_tracks(s, artist_id).len() <= s.len(),
    decreases s.len(),
{
    if s.len() > 0 {
        lemma_artist_tracks_len(s.drop_first(), artist_id);
    }
}

/// Counts the tracks of one album.
fn count_album_tracks(album_id: i64, db: &Database) -> (r: usize)
    ensures
        r == album_tracks(db@.tracks, album_id).len(),
{
    let ghost d = db@;
    let n = db.tracks.len();
    let mut cnt: usize = 0;
    let mut i: usize = 0;
    proof {
        assert(d.tracks.skip(0) =~= d.tracks);
        lemma_album_tracks_len(d.tracks, album_id);
    }
    while i < n
        invariant
            i <= n,
            n == db.tracks@.len(),
            db@ == d,
            cnt + album_tracks(d.tracks.skip(i as int), album_id).len() == album_tracks(
                d.tracks,
                album_id,
            ).len(),
            cnt <= i,
        decreases n - i,
    {
        assert(db@.tracks[i as int] == db.tracks@[i as int]@);
        let ghost rem = d.tracks.skip(i as int);
        if db.tracks[i].album_id == album_id {
            cnt = cnt + 1;
        }
        i = i + 1;
        proof {
            assert(rem[0] == d.tracks[i - 1]);
            assert(rem.drop_first() =~= d.tracks.skip(i as int));
        }
    }
    proof {
        assert(album_tracks(d.tracks.skip(n as int), album_id).len() == 0);
    }
    cnt
}

/// Counts the tracks of one artist.
fn count_artist_tracks(artist_id: i64, db: &Database) -> (r: usize)
    ensures
        r == artist_tracks(db@.tracks, artist_id).len(),
{
    let ghost d = db@;
    let n = db.tracks.len();
    let mut cnt: usize = 0;
    let mut i: usize = 0;
    proof {
        assert(d.tracks.skip(0) =~= d.tracks);
        lemma_artist_tracks_len(d.tracks, artist_id);
    }
    while i < n
        invariant
            i <= n,
            n == db.tracks@.len(),
            db@ == d,
            cnt + artist_tracks(d.tracks.skip(i as int), artist_id).len() == artist_tracks(
                d.tracks,
                artist_id,
            ).len(),
            cnt <= i,
        decreases n - i,
    {
        assert(db@.tracks[i as int] == db.tracks@[i as int]@);
        let ghost rem = d.tracks.skip(i as int);
        if db.tracks[i].artist_id == artist_id {
            cnt = cnt + 1;
        }
        i = i + 1;
        proof {
            assert(rem[0] == d.tracks[i - 1]);
            assert(rem.drop_first() =~= d.tracks.skip(i as int));
        }
    }
    proof {
        assert(artist_tracks(d.tracks.skip(n as int), artist_id).len() == 0);
    }
    cnt
}

/// Builds one album's summary row.
fn build_album_summary(ai: usize, db: &Database) -> (r:
    crate::persistent_entities::PersistentAlbum)
    requires
        ai < db@.albums.len(),
        db@.tracks.len() <= i64::MAX,
    ensures
        r@ == album_summary(db@, db@.albums[ai as int]),
{
    assert(db@.albums[ai as int] == db.albums@[ai as int]@);
    let cnt = count_album_tracks(db.albums[ai].id, db);
    proof {
        lemma_album_tracks_len(db@.tracks, db@.albums[ai as int].id);
    }
    let album = &db.albums[ai];
    let r = crate::persistent_entities::PersistentAlbum {
        id: album.id,
        name: album.name.clone(),
        image_path: (match &album.image_path {
            Some(p) => Some(p.clone()),
            None => None,
        }),
        artist_name: album.album_artist_name.clone(),
        album_artist_name: Some(album.album_artist_name.clone()),
        tracks_count: cnt as i64,
    };
    proof {
        assert(r@ =~~= album_summary(db@, db@.albums[ai as int]));
    }
    r
}

/// Lists the albums that have tracks, each with its track count, in
/// ascending order of normalized name.
pub fn get_albums(db: &Database) -> (r: Vec<crate::persistent_entities::PersistentAlbum>)
    requires
        db@.tracks.len() <= i64::MAX,
    ensures
        r@.map_values(|p: crate::persistent_entities::PersistentAlbum| p@) == album_summaries(
            db@,
            sort_albums_by_name(db@.albums),
        ),
{
    let ghost d = db@;
    let ghost sorted = sort_albums_by_name(d.albums);
    let ord = sorted_album_order_by_name(db);
    let m = ord.len();
    let mut out: Vec<crate::persistent_entities::PersistentAlbum> = Vec::new();
    let mut k: usize = 0;
    proof {
        assert(sorted.skip(0) =~= sorted);
        assert(out@.map_values(|p: crate::persistent_entities::PersistentAlbum| p@)
            + album_summaries(d, sorted.skip(0)) =~= album_summaries(d, sorted));
        assert(m == sorted.len());
    }
    while k < m
        invariant
            k <= m,
            m == ord@.len(),
            m == sorted.len(),
            db@ == d,
            d.tracks.len() <= i64::MAX,
            sorted == sort_albums_by_name(d.albums),
            ord@.map_values(|i: usize| d.albums[i as int]) == sorted,
            forall|k2: int| 0 <= k2 < ord@.len() ==> #[trigger] ord@[k2] < d.albums.len(),
            out@.map_values(|p: crate::persistent_entities::PersistentAlbum| p@)
                + album_summaries(d, sorted.skip(k as int)) == album_summaries(d, sorted),
        decreases m - k,
    {
        proof {
            assert(sorted[k as int] == ord@.map_values(|i: usize| d.albums[i as int])[k as int]);
            assert(db@.albums[ord@[k as int] as int] == db.albums@[ord@[k as int] as int]@);
        }
        let ghost rem = sorted.skip(k as int);
        let cnt = count_album_tracks(db.albums[ord[k]].id, db);
        if cnt > 0 {
            let p = build_album_summary(ord[k], db);
            out.push(p);
        }
        k = k + 1;
        proof {
            assert(rem[0] == sorted[k - 1]);
            assert(rem.drop_first() =~= sorted.skip(k as int));
            assert(out@.map_values(|p: crate::persistent_entities::PersistentAlbum| p@)
                + album_summaries(d, sorted.skip(k as int)) =~= album_summaries(d, sorted));
        }
    }
    proof {
        assert(album_summaries(d, sorted.skip(m as int)).len() == 0);
        assert(out@.map_values(|p: crate::persistent_entities::PersistentAlbum| p@)
            =~= album_summaries(d, sorted));
    }
    out
}

/// Fetches one album's summary; an album without tracks yields nothing.
pub fn get_album_by_id(id: i64, db: &Database) -> (r: Option<
    crate::persistent_entities::PersistentAlbum,
>)
    requires
        wf(db@),
        db@.tracks.len() <= i64::MAX,
    ensures
        (match r {
            Some(p) => has_album_id(db@, id) && album_tracks(db@.tracks, id).len() > 0 && p@
                == (crate::persistent_entities::PersistentAlbumView {
                image_path: None,
                ..album_summary(db@, db@.albums[album_idx_by_id(db@, id)])
            }),
            None => !has_album_id(db@, id) || album_tracks(db@.tracks, id).len() == 0,
        }),
{
    let ai = match find_album_idx_by_id(id, db) {
        Some(i) => i,
        None => {
            return None;
        },
    };
    let cnt = count_album_tracks(id, db);
    if cnt == 0 {
        return None;
    }
    proof {
        let ci = album_idx_by_id(db@, id);
        assert(db@.albums[ci].id == id);
        if ci != ai {
            assert(false);
        }
        lemma_album_tracks_len(db@.tracks, id);
    }
    let album = &db.albums[ai];
    let r = crate::persistent_entities::PersistentAlbum {
        id: album.id,
        name: album.name.clone(),
        image_path: None,
        artist_name: album.album_artist_name.clone(),
        album_artist_name: Some(album.album_artist_name.clone()),
        tracks_count: cnt as i64,
    };
    proof {
        assert(db@.albums[ai as int] == db.albums@[ai as int]@);
        assert(r@ =~~= (crate::persistent_entities::PersistentAlbumView {
            image_path: None,
            ..album_summary(db@, db@.albums[album_idx_by_id(db@, id)])
        }));
    }
    Some(r)
}

/// Lists every album's id, in ascending order of normalized name.
pub fn get_album_ids(db: &Database) -> (r: Vec<i64>)
    ensures
        r@ == sort_albums_by_name(db@.albums).map_values(|a: AlbumRowView| a.id),
{
    let ghost d = db@;
    let ghost sorted = sort_albums_by_name(d.albums);
    let ord = sorted_album_order_by_name(db);
    let m = ord.len();
    let mut out: Vec<i64> = Vec::new();
    let mut k: usize = 0;
    proof {
        assert(m == sorted.len());
    }
    while k < m
        invariant
            k <= m,
            m == ord@.len(),
            m == sorted.len(),
            db@ == d,
            sorted == sort_albums_by_name(d.albums),
            ord@.map_values(|i: usize| d.albums[i as int]) == sorted,
            forall|k2: int| 0 <= k2 < ord@.len() ==> #[trigger] ord@[k2] < d.albums.len(),
            out@ == sorted.subrange(0, k as int).map_values(|a: AlbumRowView| a.id),
        decreases m - k,
    {
        proof {
            assert(sorted[k as int] == ord@.map_values(|i: usize| d.albums[i as int])[k as int]);
            assert(db@.albums[ord@[k as int] as int] == db.albums@[ord@[k as int] as int]@);
        }
        out.push(db.albums[ord[k]].id);
        k = k + 1;
        assert(out@ =~= sorted.subrange(0, k as int).map_values(|a: AlbumRowView| a.id));
    }
    proof {
        assert(sorted.subrange(0, m as int) =~= sorted);
    }
    out
}

/// Lists the artists that have tracks, each with its track count, in
/// ascending order of normalized name.
pub fn get_artists(db: &Database) -> (r: Vec<crate::persistent_entities::PersistentArtist>)
    requires
        db@.tracks.len() <= i64::MAX,
    ensures
        r@.map_values(|p: crate::persistent_entities::PersistentArtist| p@) == artist_summaries(
            db@,
            sort_artists_by_name(db@.artists),
        ),
{
    let ghost d = db@;
    let ghost sorted = sort_artists_by_name(d.artists);
    let ord = sorted_artist_order_by_name(db);
    let m = ord.len();
    let mut out: Vec<crate::persistent_entities::PersistentArtist> = Vec::new();
    let mut k: usize = 0;
    proof {
        assert(sorted.skip(0) =~= sorted);
        assert(out@.map_values(|p: crate::persistent_entities::PersistentArtist| p@)
            + artist_summaries(d, sorted.skip(0)) =~= artist_summaries(d, sorted));
        assert(m == sorted.len());
    }
    while k < m
        invariant
            k <= m,
            m == ord@.len(),
            m == sorted.len(),
            db@ == d,
            d.tracks.len() <= i64::MAX,
            sorted == sort_artists_by_name(d.artists),
            ord@.map_values(|i: usize| d.artists[i as int]) == sorted,
            forall|k2: int| 0 <= k2 < ord@.len() ==> #[trigger] ord@[k2] < d.artists.len(),
            out@.map_values(|p: crate::persistent_entities::PersistentArtist| p@)
                + artist_summaries(d, sorted.skip(k as int)) == artist_summaries(d, sorted),
        decreases m - k,
    {
        proof {
            assert(sorted[k as int] == ord@.map_values(|i: usize| d.artists[i as int])[k as int]);
            assert(db@.artists[ord@[k as int] as int] == db.artists@[ord@[k as int] as int]@);
        }
        let ghost rem = sorted.skip(k as int);
        let cnt = count_artist_tracks(db.artists[ord[k]].id, db);
        if cnt > 0 {
            proof {
                lemma_artist_tracks_len(d.tracks, d.artists[ord@[k as int] as int].id);
            }
            let artist = &db.artists[ord[k]];
            let p = crate::persistent_entities::PersistentArtist {
                id: artist.id,
                name: artist.name.clone(),
                tracks_count: cnt as i64,
            };
            proof {
                assert(p@ =~~= artist_summary(d, d.artists[ord@[k as int] as int]));
            }
            out.push(p);
        }
        k = k + 1;
        proof {
            assert(rem[0] == sorted[k - 1]);
            assert(rem.drop_first() =~= sorted.skip(k as int));
            assert(out@.map_values(|p: crate::persistent_entities::PersistentArtist| p@)
                + artist_summaries(d, sorted.skip(k as int)) =~= artist_summaries(d, sorted));
        }
    }
    proof {
        assert(artist_summaries(d, sorted.skip(m as int)).len() == 0);
        assert(out@.map_values(|p: crate::persistent_entities::PersistentArtist| p@)
            =~= artist_summaries(d, sorted));
    }
    out
}

/// Fetches one artist's summary; an artist without tracks yields nothing.
pub fn get_artist_by_id(id: i64, db: &Database) -> (r: Option<
    crate::persistent_entities::PersistentArtist,
>)
    requires
        wf(db@),
        db@.tracks.len() <= i64::MAX,
    ensures
        (match r {
            Some(p) => has_artist_id(db@, id) && artist_tracks(db@.tracks, id).len() > 0 && p@
                == artist_summary(db@, db@.artists[artist_idx_by_id(db@, id)]),
            None => !has_artist_id(db@, id) || artist_tracks(db@.tracks, id).len() == 0,
        }),
{
    let ai = match find_artist_idx_by_id(id, db) {
        Some(i) => i,
        None => {
            return None;
        },
    };
    let cnt = count_artist_tracks(id, db);
    if cnt == 0 {
        return None;
    }
    proof {
        let ci = artist_idx_by_id(db@, id);
        assert(db@.artists[ci].id == id);
        if ci != ai {
            assert(false);
        }
        lemma_artist_tracks_len(db@.tracks, id);
    }
    let artist = &db.artists[ai];
    let r = crate::persistent_entities::PersistentArtist {
        id: artist.id,
        name: artist.name.clone(),
        tracks_count: cnt as i64,
    };
    proof {
        assert(db@.artists[ai as int] == db.artists@[ai as int]@);
        assert(r@ =~~= artist_summary(db@, db@.artists[artist_idx_by_id(db@, id)]));
    }
    Some(r)
}

/// Lists every artist's id, in ascending order of normalized name.
pub fn get_artist_ids(db: &Database) -> (r: Vec<i64>)
    ensures
        r@ == sort_artists_by_name(db@.artists).map_values(|a: ArtistRowView| a.id),
{
    let ghost d = db@;
    let ghost sorted = sort_artists_by_name(d.artists);
    let ord = sorted_artist_order_by_name(db);
    let m = ord.len();
    let mut out: Vec<i64> = Vec::new();
    let mut k: usize = 0;
    proof {
        assert(m == sorted.len());
    }
    while k < m
        invariant
            k <= m,
            m == ord@.len(),
            m == sorted.len(),
            db@ == d,
            sorted == sort_artists_by_name(d.artists),
            ord@.map_values(|i: usize| d.artists[i as int]) == sorted,
            forall|k2: int| 0 <= k2 < ord@.len() ==> #[trigger] ord@[k2] < d.artists.len(),
            out@ == sorted.subrange(0, k as int).map_values(|a: ArtistRowView| a.id),
        decreases m - k,
    {
        proof {
            assert(sorted[k as int] == ord@.map_values(|i: usize| d.artists[i as int])[k as int]);
            assert(db@.artists[ord@[k as int] as int] == db.artists@[ord@[k as int] as int]@);
        }
        out.push(db.artists[ord[k]].id);
        k = k + 1;
        assert(out@ =~= sorted.subrange(0, k as int).map_values(|a: ArtistRowView| a.id));
    }
    proof {
        assert(sorted.subrange(0, m as int) =~= sorted);
    }
    out
}

// ---------------------------------------------------------------------------
// Search
// ---------------------------------------------------------------------------

/// Whether a track matches a normalized search term: the term occurs in the
/// normalized artist name, album name or title.
pub open spec fn track_matches_search(d: DbView, t: TrackRowView, q: Seq<char>) -> bool {
    ||| crate::text::is_substring(q, d.artists[artist_idx_by_id(d, t.artist_id)].normalized_name)
    ||| crate::text::is_substring(q, d.albums[album_idx_by_id(d, t.album_id)].normalized_name)
    ||| crate::text::is_substring(q, t.normalized_title)
}

/// The ids of the tracks matching a normalized search term, in store order.
pub open spec fn searched_track_ids(d: DbView, s: Seq<TrackRowView>, q: Seq<char>) -> Seq<i64>
    decreases s.len(),
{
    if s.len() == 0 {
        Seq::<i64>::empty()
    } else {
        (if track_matches_search(d, s[0], q) {
            seq![s[0].id]
        } else {
            Seq::<i64>::empty()
        }) + searched_track_ids(d, s.drop_first(), q)
    }
}

/// Decides whether the track at one position matches a normalized term.
fn track_search_hit(ti: usize, nq: &str, db: &Database) -> (r: bool)
    requires
        wf(db@),
        ti < db@.tracks.len(),
    ensures
        r == track_matches_search(db@, db@.tracks[ti as int], nq@),
{
    let ghost d = db@;
    let ghost t = d.tracks[ti as int];
    assert(db@.tracks[ti as int] == db.tracks@[ti as int]@);
    assert(has_artist_id(d, t.artist_id));
    assert(has_album_id(d, t.album_id));
    let ri = match find_artist_idx_by_id(db.tracks[ti].artist_id, db) {
        Some(i) => i,
        None => {
            proof {
                assert(false);
            }
            vstd::pervasive::unreached()
        },
    };
    let ai = match find_album_idx_by_id(db.tracks[ti].album_id, db) {
        Some(i) => i,
        None => {
            proof {
                assert(false);
            }
            vstd::pervasive::unreached()
        },
    };
    proof {
        let ci = artist_idx_by_id(d, t.artist_id);
        assert(d.artists[ci].id == t.artist_id);
        if ci != ri {
            assert(false);
        }
        let ci2 = album_idx_by_id(d, t.album_id);
        assert(d.albums[ci2].id == t.album_id);
        if ci2 != ai {
            assert(false);
        }
        assert(db@.artists[ri as int] == db.artists@[ri as int]@);
        assert(db@.albums[ai as int] == db.albums@[ai as int]@);
    }
    crate::text::str_contains(db.artists[ri].normalized_name.as_str(), nq)
        || crate::text::str_contains(db.albums[ai].normalized_name.as_str(), nq)
        || crate::text::str_contains(db.tracks[ti].normalized_title.as_str(), nq)
}

/// Lists the ids of the tracks whose normalized artist, album or title
/// contains the normalized search term, in ascending order of normalized
/// title.
pub fn get_search_track_ids(query_str: &String, db: &Database) -> (r: Vec<i64>)
    requires
        wf(db@),
    ensures
        r@ == searched_track_ids(db@, sort_tracks_by_title(db@.tracks), norm_spec(query_str@)),
{
    let nq = prepare_input(query_str.as_str());
    let ghost d = db@;
    let ghost q = norm_spec(query_str@);
    let ghost sorted = sort_tracks_by_title(d.tracks);
    let ord = sorted_track_order_by_title(db);
    let m = ord.len();
    let mut out: Vec<i64> = Vec::new();
    let mut k: usize = 0;
    proof {
        assert(sorted.skip(0) =~= sorted);
        assert(out@ + searched_track_ids(d, sorted.skip(0), q) =~= searched_track_ids(
            d,
            sorted,
            q,
        ));
        assert(m == sorted.len());
    }
    while k < m
        invariant
            k <= m,
            m == ord@.len(),
            m == sorted.len(),
            wf(db@),
            db@ == d,
            nq@ == q,
            sorted == sort_tracks_by_title(d.tracks),
            ord@.map_values(|i: usize| d.tracks[i as int]) == sorted,
            forall|k2: int| 0 <= k2 < ord@.len() ==> #[trigger] ord@[k2] < d.tracks.len(),
            out@ + searched_track_ids(d, sorted.skip(k as int), q) == searched_track_ids(
                d,
                sorted,
                q,
            ),
        decreases m - k,
    {
        proof {
            assert(sorted[k as int] == ord@.map_values(|i: usize| d.tracks[i as int])[k as int]);
            assert(db@.tracks[ord@[k as int] as int] == db.tracks@[ord@[k as int] as int]@);
        }
        let ghost rem = sorted.skip(k as int);
        if track_search_hit(ord[k], nq.as_str(), db) {
            out.push(db.tracks[ord[k]].id);
        }
        k = k + 1;
        proof {
            assert(rem[0] == sorted[k - 1]);
            assert(rem.drop_first() =~= sorted.skip(k as int));
            assert(out@ + searched_track_ids(d, sorted.skip(k as int), q)
                =~= searched_track_ids(d, sorted, q));
        }
    }
    proof {
        assert(searched_track_ids(d, sorted.skip(m as int), q).len() == 0);
        assert(out@ =~= searched_track_ids(d, sorted, q));
    }
    out
}

// ---------------------------------------------------------------------------
// Library reset, directories, the library flag and the configuration
// ---------------------------------------------------------------------------

/// A well-formed store stays well-formed when only its version, its
/// directories, its flag or its configuration change.
proof fn lemma_wf_library_unchanged(o: DbView, n: DbView)
    requires
        wf(o),
        n.artists == o.artists,
        n.albums == o.albums,
        n.tracks == o.tracks,
        n.next_artist_id == o.next_artist_id,
        n.next_album_id == o.next_album_id,
        n.next_track_id == o.next_track_id,
    ensures
        wf(n),
{
    assert forall|i: int| 0 <= i < n.tracks.len() implies has_artist_id(
        n,
        #[trigger] n.tracks[i].artist_id,
    ) && has_album_id(n, n.tracks[i].album_id) by {
        assert(has_artist_id(o, o.tracks[i].artist_id));
        let w = choose|k: int|
            0 <= k < o.artists.len() && #[trigger] o.artists[k].id == o.tracks[i].artist_id;
        assert(n.artists[w].id == o.tracks[i].artist_id);
        assert(has_album_id(o, o.tracks[i].album_id));
        let w2 = choose|k: int|
            0 <= k < o.albums.len() && #[trigger] o.albums[k].id == o.tracks[i].album_id;
        assert(n.albums[w2].id == o.tracks[i].album_id);
    }
    assert(wf(n));
}

/// Empties the three library tables; a fully emptied table hands out row
/// ids from one again.
pub fn clean_library(db: &mut Database)
    requires
        wf(old(db)@),
    ensures
        wf(final(db)@),
        final(db)@ == (DbView {
            artists: Seq::<ArtistRowView>::empty(),
            albums: Seq::<AlbumRowView>::empty(),
            tracks: Seq::<TrackRowView>::empty(),
            next_artist_id: 1,
            next_album_id: 1,
            next_track_id: 1,
            ..old(db)@
        }),
{
    db.artists.clear();
    db.albums.clear();
    db.tracks.clear();
    db.next_artist_id = 1;
    db.next_album_id = 1;
    db.next_track_id = 1;
    proof {
        assert(db@ =~~= (DbView {
            artists: Seq::<ArtistRowView>::empty(),
            albums: Seq::<AlbumRowView>::empty(),
            tracks: Seq::<TrackRowView>::empty(),
            next_artist_id: 1,
            next_album_id: 1,
            next_track_id: 1,
            ..old(db)@
        }));
    }
}

/// Lists the configured root directories.
pub fn get_directories(db: &Database) -> (r: Vec<String>)
    ensures
        r.deep_view() == db@.directories,
{
    let n = db.directories.len();
    let mut out: Vec<String> = Vec::new();
    let mut i: usize = 0;
    while i < n
        invariant
            i <= n,
            n == db.directories@.len(),
            out@.len() == i,
            forall|k: int| 0 <= k < i ==> #[trigger] out@[k]@ == db.directories@[k]@,
        decreases n - i,
    {
        out.push(db.directories[i].clone());
        i = i + 1;
    }
    proof {
        assert forall|k: int| 0 <= k < n implies out.deep_view()[k] == db@.directories[k] by {
            assert(out@[k]@ == db.directories@[k]@);
        }
        assert(out.deep_view() =~~= db@.directories);
    }
    out
}

/// Replaces the configured root directories wholesale.
pub fn set_directories(directories: Vec<String>, db: &mut Database)
    requires
        wf(old(db)@),
    ensures
        wf(final(db)@),
        final(db)@ == (DbView { directories: directories.deep_view(), ..old(db)@ }),
{
    db.directories = directories;
    proof {
        assert(db@ =~~= (DbView { directories: directories.deep_view(), ..old(db)@ }));
        lemma_wf_library_unchanged(old(db)@, db@);
    }
}

/// Reads the library-initialized flag.
pub fn get_init(db: &Database) -> (r: bool)
    ensures
        r == db@.init,
{
    db.init
}

/// Sets the library-initialized flag.
pub fn set_init(init: bool, db: &mut Database)
    requires
        wf(old(db)@),
    ensures
        wf(final(db)@),
        final(db)@ == (DbView { init, ..old(db)@ }),
{
    db.init = init;
    proof {
        assert(db@ =~~= (DbView { init, ..old(db)@ }));
        lemma_wf_library_unchanged(old(db)@, db@);
    }
}

/// Reads the configuration row.
pub fn get_config(db: &Database) -> (r: PersistentConfig)
    ensures
        r@ == db@.config,
{
    let r = PersistentConfig {
        skip_not_needed_tracks: db.config.skip_not_needed_tracks,
        try_embed_lyrics: db.config.try_embed_lyrics,
        theme_mode: db.config.theme_mode.clone(),
        lrclib_instance: db.config.lrclib_instance.clone(),
    };
    proof {
        assert(r@ =~~= db@.config);
    }
    r
}

/// Replaces the configuration row.
pub fn set_config(
    skip_not_needed_tracks: bool,
    try_embed_lyrics: bool,
    theme_mode: &str,
    lrclib_instance: &str,
    db: &mut Database,
)
    requires
        wf(old(db)@),
    ensures
        wf(final(db)@),
        final(db)@ == (DbView {
            config: (PersistentConfigView {
                skip_not_needed_tracks,
                try_embed_lyrics,
                theme_mode: theme_mode@,
                lrclib_instance: lrclib_instance@,
            }),
            ..old(db)@
        }),
{
    db.config = PersistentConfig {
        skip_not_needed_tracks,
        try_embed_lyrics,
        theme_mode: theme_mode.to_owned(),
        lrclib_instance: lrclib_instance.to_owned(),
    };
    proof {
        assert(db@ =~~= (DbView {
            config: (PersistentConfigView {
                skip_not_needed_tracks,
                try_embed_lyrics,
                theme_mode: theme_mode@,
                lrclib_instance: lrclib_instance@,
            }),
            ..old(db)@
        }));
        lemma_wf_library_unchanged(old(db)@, db@);
    }
}

// ---------------------------------------------------------------------------
// Schema migrations
// ---------------------------------------------------------------------------

/// What one migration step does to the store.  The first step creates the
/// tables of a fresh store; the steps after it add columns and indexes,
/// which the model already carries; the fifth also wipes the library tables
/// and resets the initialized flag, forcing a re-scan, and sets the
/// configuration columns it introduces to their defaults.
pub open spec fn spec_step(d: DbView, k: u32) -> DbView {
    if k == 1 {
        DbView {
            version: 1,
            directories: Seq::<Seq<char>>::empty(),
            init: false,
            config: default_config_view(),
            artists: Seq::<ArtistRowView>::empty(),
            albums: Seq::<AlbumRowView>::empty(),
            tracks: Seq::<TrackRowView>::empty(),
            next_artist_id: 1,
            next_album_id: 1,
            next_track_id: 1,
        }
    } else if k == 5 {
        DbView {
            version: 5,
            init: false,
            config: PersistentConfigView {
                theme_mode: "auto"@,
                lrclib_instance: "https://lrclib.net"@,
                ..d.config
            },
            artists: Seq::<ArtistRowView>::empty(),
            albums: Seq::<AlbumRowView>::empty(),
            tracks: Seq::<TrackRowView>::empty(),
            next_artist_id: 1,
            next_album_id: 1,
            next_track_id: 1,
            ..d
        }
    } else {
        DbView { version: k, ..d }
    }
}

/// The store after the steps `k ..= target` run in ascending order.
pub open spec fn upgrade_steps(d: DbView, k: int, target: int) -> DbView
    decreases target + 1 - k,
{
    if k > target {
        d
    } else {
        upgrade_steps(spec_step(d, k as u32), k + 1, target)
    }
}

/// The store after the migrations pending below `target` run: the steps
/// from just past the stored version up to `target`, each exactly once.
pub open spec fn spec_upgrade_to(d: DbView, target: u32) -> DbView {
    if d.version < target {
        upgrade_steps(d, d.version as int + 1, target as int)
    } else {
        d
    }
}

/// The store after all pending migrations run.
pub open spec fn spec_upgrade(d: DbView) -> DbView {
    spec_upgrade_to(d, CURRENT_DB_VERSION)
}

proof fn lemma_upgrade_steps_version(d: DbView, k: int, target: int)
    requires
        1 <= k <= target <= 5,
    ensures
        upgrade_steps(d, k, target).version == target,
    decreases target + 1 - k,
{
    if k == target {
        assert(spec_step(d, k as u32).version == k);
        assert(upgrade_steps(spec_step(d, k as u32), k + 1, target) == spec_step(d, k as u32));
    } else {
        lemma_upgrade_steps_version(spec_step(d, k as u32), k + 1, target);
    }
}

proof fn lemma_upgrade_steps_split(d: DbView, a: int, b: int, c: int)
    requires
        a <= b + 1,
        b <= c,
    ensures
        upgrade_steps(d, a, c) == upgrade_steps(upgrade_steps(d, a, b), b + 1, c),
    decreases b + 1 - a,
{
    if a > b {
        assert(upgrade_steps(d, a, b) == d);
    } else {
        lemma_upgrade_steps_split(spec_step(d, a as u32), a + 1, b, c);
    }
}

/// Migrating to an intermediate version and then onward reaches the same
/// state as migrating in one pass: no migration step runs twice.
pub proof fn lemma_migrations_compose(d: DbView, v: u32)
    requires
        d.version <= v <= CURRENT_DB_VERSION,
    ensures
        spec_upgrade(spec_upgrade_to(d, v)) == spec_upgrade(d),
{
    if d.version < v {
        let m = spec_upgrade_to(d, v);
        lemma_upgrade_steps_version(d, d.version as int + 1, v as int);
        assert(m.version == v);
        if v < CURRENT_DB_VERSION {
            lemma_upgrade_steps_split(d, d.version as int + 1, v as int, 5);
            assert(spec_upgrade(m) == upgrade_steps(m, v as int + 1, 5));
        } else {
            assert(spec_upgrade(m) == m);
            lemma_upgrade_steps_split(d, d.version as int + 1, 5, 5);
        }
    }
}

/// Running the pending migrations twice is the same as running them once.
pub proof fn lemma_migrations_idempotent(d: DbView)
    ensures
        spec_upgrade(spec_upgrade(d)) == spec_upgrade(d),
{
    if d.version < CURRENT_DB_VERSION {
        lemma_upgrade_steps_version(d, d.version as int + 1, 5);
    }
}

/// Applies each pending migration step exactly once, in ascending order, up
/// to the current schema version.
pub fn upgrade_database_if_needed(db: &mut Database, existing_version: u32)
    requires
        wf(old(db)@),
        old(db)@.version == existing_version,
    ensures
        wf(final(db)@),
        final(db)@ == spec_upgrade(old(db)@),
{
    let ghost o = db@;
    if existing_version < CURRENT_DB_VERSION {
        if existing_version == 0 {
            db.version = 1;
            db.directories.clear();
            db.init = false;
            db.config = PersistentConfig {
                skip_not_needed_tracks: true,
                try_embed_lyrics: false,
                theme_mode: String::from_str("auto"),
                lrclib_instance: String::from_str("https://lrclib.net"),
            };
            db.artists.clear();
            db.albums.clear();
            db.tracks.clear();
            db.next_artist_id = 1;
            db.next_album_id = 1;
            db.next_track_id = 1;
            proof {
                assert(db@ =~~= spec_step(o, 1));
            }
        }
        let ghost g1 = db@;
        if existing_version <= 1 {
            db.version = 2;
            proof {
                assert(db@ =~~= spec_step(g1, 2));
            }
        }
        let ghost g2 = db@;
        if existing_version <= 2 {
            db.version = 3;
            proof {
                assert(db@ =~~= spec_step(g2, 3));
            }
        }
        let ghost g3 = db@;
        if existing_version <= 3 {
            db.version = 4;
            proof {
                assert(db@ =~~= spec_step(g3, 4));
            }
        }
        let ghost g4 = db@;
        if existing_version <= 4 {
            db.version = 5;
            db.init = false;
            let theme = String::from_str("auto");
            let instance = String::from_str("https://lrclib.net");
            db.config = PersistentConfig {
                skip_not_needed_tracks: db.config.skip_not_needed_tracks,
                try_embed_lyrics: db.config.try_embed_lyrics,
                theme_mode: theme,
                lrclib_instance: instance,
            };
            db.artists.clear();
            db.albums.clear();
            db.tracks.clear();
            db.next_artist_id = 1;
            db.next_album_id = 1;
            db.next_track_id = 1;
            proof {
                assert(db@ =~~= spec_step(g4, 5));
            }
        }
        proof {
            let f = db@;
            if existing_version == 0 {
                assert(upgrade_steps(o, 1, 5) == upgrade_steps(g1, 2, 5));
                assert(upgrade_steps(g1, 2, 5) == upgrade_steps(g2, 3, 5));
                assert(upgrade_steps(g2, 3, 5) == upgrade_steps(g3, 4, 5));
                assert(upgrade_steps(g3, 4, 5) == upgrade_steps(g4, 5, 5));
                assert(upgrade_steps(g4, 5, 5) == upgrade_steps(f, 6, 5));
                assert(spec_upgrade(o) == f);
            } else if existing_version == 1 {
                assert(g1 == o);
                assert(upgrade_steps(o, 2, 5) == upgrade_steps(g2, 3, 5));
                assert(upgrade_steps(g2, 3, 5) == upgrade_steps(g3, 4, 5));
                assert(upgrade_steps(g3, 4, 5) == upgrade_steps(g4, 5, 5));
                assert(upgrade_steps(g4, 5, 5) == upgrade_steps(f, 6, 5));
                assert(spec_upgrade(o) == f);
            } else if existing_version == 2 {
                assert(g2 == o);
                assert(upgrade_steps(o, 3, 5) == upgrade_steps(g3, 4, 5));
                assert(upgrade_steps(g3, 4, 5) == upgrade_steps(g4, 5, 5));
                assert(upgrade_steps(g4, 5, 5) == upgrade_steps(f, 6, 5));
                assert(spec_upgrade(o) == f);
            } else if existing_version == 3 {
                assert(g3 == o);
                assert(upgrade_steps(o, 4, 5) == upgrade_steps(g4, 5, 5));
                assert(upgrade_steps(g4, 5, 5) == upgrade_steps(f, 6, 5));
                assert(spec_upgrade(o) == f);
            } else {
                assert(existing_version == 4);
                assert(g4 == o);
                assert(upgrade_steps(o, 5, 5) == upgrade_steps(f, 6, 5));
                assert(spec_upgrade(o) == f);
            }
            assert(wf(f));
        }
    } else {
        proof {
            assert(spec_upgrade(o) == o);
        }
    }
}

} // verus!
