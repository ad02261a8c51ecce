//! The persisted entities that queries return: tracks joined with their
//! album and artist, album and artist summaries, and the configuration row.

use vstd::prelude::*;

verus! {

/// One track row joined with its album and artist.
pub struct PersistentTrack {
    pub id: i64,
    pub file_path: String,
    pub file_name: String,
    pub title: String,
    pub album_name: String,
    pub album_artist_name: Option<String>,
    pub album_id: i64,
    pub artist_name: String,
    pub artist_id: i64,
    pub image_path: Option<String>,
    pub track_number: Option<i64>,
    pub txt_lyrics: Option<String>,
    pub lrc_lyrics: Option<String>,
    pub duration: u64,
    pub instrumental: bool,
}

/// One album summary with its track count.
pub struct PersistentAlbum {
    pub id: i64,
    pub name: String,
    pub image_path: Option<String>,
    pub artist_name: String,
    pub album_artist_name: Option<String>,
    pub tracks_count: i64,
}

/// One artist summary with its track count.
pub struct PersistentArtist {
    pub id: i64,
    pub name: String,
    pub tracks_count: i64,
}

/// The singleton configuration row.
pub struct PersistentConfig {
    pub skip_not_needed_tracks: bool,
    pub try_embed_lyrics: bool,
    pub theme_mode: String,
    pub lrclib_instance: String,
}

/// The view of an optional string.
pub open spec fn opt_view(o: Option<String>) -> Option<Seq<char>> {
    match o {
        Some(s) => Some(s@),
        None => None,
    }
}

/// The abstract value of a `PersistentTrack`.
#[verifier::ext_equal]
pub struct PersistentTrackView {
    pub id: i64,
    pub file_path: Seq<char>,
    pub file_name: Seq<char>,
    pub title: Seq<char>,
    pub album_name: Seq<char>,
    pub album_artist_name: Option<Seq<char>>,
    pub album_id: i64,
    pub artist_name: Seq<char>,
    pub artist_id: i64,
    pub image_path: Option<Seq<char>>,
    pub track_number: Option<i64>,
    pub txt_lyrics: Option<Seq<char>>,
    pub lrc_lyrics: Option<Seq<char>>,
    pub duration: u64,
    pub instrumental: bool,
}

impl View for PersistentTrack {
    type V = PersistentTrackView;

    open spec fn view(&self) -> PersistentTrackView {
        PersistentTrackView {
            id: self.id,
            file_path: self.file_path@,
            file_name: self.file_name@,
            title: self.title@,
            album_name: self.album_name@,
            album_artist_name: opt_view(self.album_artist_name),
            album_id: self.album_id,
            artist_name: self.artist_name@,
            artist_id: self.artist_id,
            image_path: opt_view(self.image_path),
            track_number: self.track_number,
            txt_lyrics: opt_view(self.txt_lyrics),
            lrc_lyrics: opt_view(self.lrc_lyrics),
            duration: self.duration,
            instrumental: self.instrumental,
        }
    }
}

/// The abstract value of a `PersistentAlbum`.
#[verifier::ext_equal]
pub struct PersistentAlbumView {
    pub id: i64,
    pub name: Seq<char>,
    pub image_path: Option<Seq<char>>,
    pub artist_name: Seq<char>,
    pub album_artist_name: Option<Seq<char>>,
    pub tracks_count: i64,
}

impl View for PersistentAlbum {
    type V = PersistentAlbumView;

    open spec fn view(&self) -> PersistentAlbumView {
        PersistentAlbumView {
            id: self.id,
            name: self.name@,
            image_path: opt_view(self.image_path),
            artist_name: self.artist_name@,
            album_artist_name: opt_view(self.album_artist_name),
            tracks_count: self.tracks_count,
        }
    }
}

/// The abstract value of a `PersistentArtist`.
#[verifier::ext_equal]
pub struct PersistentArtistView {
    pub id: i64,
    pub name: Seq<char>,
    pub tracks_count: i64,
}

impl View for PersistentArtist {
    type V = PersistentArtistView;

    open spec fn view(&self) -> PersistentArtistView {
        PersistentArtistView { id: self.id, name: self.name@, tracks_count: self.tracks_count }
    }
}

/// The abstract value of a `PersistentConfig`.
#[verifier::ext_equal]
pub struct PersistentConfigView {
    pub skip_not_needed_tracks: bool,
    pub try_embed_lyrics: bool,
    pub theme_mode: Seq<char>,
    pub lrclib_instance: Seq<char>,
}

impl View for PersistentConfig {
    type V = PersistentConfigView;

    open spec fn view(&self) -> PersistentConfigView {
        PersistentConfigView {
            skip_not_needed_tracks: self.skip_not_needed_tracks,
            try_embed_lyrics: self.try_embed_lyrics,
            theme_mode: self.theme_mode@,
            lrclib_instance: self.lrclib_instance@,
        }
    }
}

} // verus!
