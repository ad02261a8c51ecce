//! Scanned tracks: the in-memory record read from one audio file's tags and
//! sidecar files, the per-file error taxonomy, the supported-extension
//! filter, and the fixed-size batching used by a library scan.

use vstd::prelude::*;
use crate::text::last_index_of;

verus! {

/// How many files a scan hands to extraction and ingestion at a time.
pub const SCAN_BATCH_SIZE: usize = 100;

/// One scanned track, as read from an audio file and its sidecar files.
pub struct FsTrack {
    file_path: String,
    file_name: String,
    title: String,
    album: String,
    artist: String,
    album_artist: String,
    duration: u64,
    txt_lyrics: Option<String>,
    lrc_lyrics: Option<String>,
}

/// The abstract value of a scanned track.
#[verifier::ext_equal]
pub struct FsTrackView {
    pub file_path: Seq<char>,
    pub file_name: Seq<char>,
    pub title: Seq<char>,
    pub album: Seq<char>,
    pub artist: Seq<char>,
    pub album_artist: Seq<char>,
    pub duration: u64,
    pub txt_lyrics: Option<Seq<char>>,
    pub lrc_lyrics: Option<Seq<char>>,
}

impl View for FsTrack {
    type V = FsTrackView;

    closed spec fn view(&self) -> FsTrackView {
        FsTrackView {
            file_path: self.file_path@,
            file_name: self.file_name@,
            title: self.title@,
            album: self.album@,
            artist: self.artist@,
            album_artist: self.album_artist@,
            duration: self.duration,
            txt_lyrics: crate::persistent_entities::opt_view(self.txt_lyrics),
            lrc_lyrics: crate::persistent_entities::opt_view(self.lrc_lyrics),
        }
    }
}

/// Why one file could not be scanned; each variant carries the file path,
/// and a parse failure carries the parser's message as well.
#[derive(Debug)]
pub enum FsTrackError {
    ParseFailed(String, String),
    TitleNotFound(String),
    AlbumNotFound(String),
    ArtistNotFound(String),
    PrimaryTagNotFound(String),
}

/// Clones an optional string.
fn clone_opt_string(o: &Option<String>) -> (r: Option<String>)
    ensures
        crate::persistent_entities::opt_view(r) == crate::persistent_entities::opt_view(*o),
{
    match o {
        Some(s) => Some(s.clone()),
        None => None,
    }
}

impl FsTrack {
    /// Builds a scanned track from its fields.
    pub fn new(
        file_path: String,
        file_name: String,
        title: String,
        album: String,
        artist: String,
        album_artist: String,
        duration: u64,
        txt_lyrics: Option<String>,
        lrc_lyrics: Option<String>,
    ) -> (r: FsTrack)
        ensures
            r@ == (FsTrackView {
                file_path: file_path@,
                file_name: file_name@,
                title: title@,
                album: album@,
                artist: artist@,
                album_artist: album_artist@,
                duration,
                txt_lyrics: crate::persistent_entities::opt_view(txt_lyrics),
                lrc_lyrics: crate::persistent_entities::opt_view(lrc_lyrics),
            }),
    {
        let r = FsTrack {
            file_path,
            file_name,
            title,
            album,
            artist,
            album_artist,
            duration,
            txt_lyrics,
            lrc_lyrics,
        };
        assert(r@ =~= (FsTrackView {
            file_path: r.file_path@,
            file_name: r.file_name@,
            title: r.title@,
            album: r.album@,
            artist: r.artist@,
            album_artist: r.album_artist@,
            duration: r.duration,
            txt_lyrics: crate::persistent_entities::opt_view(r.txt_lyrics),
            lrc_lyrics: crate::persistent_entities::opt_view(r.lrc_lyrics),
        }));
        r
    }

    /// Builds a scanned track from the fields read out of a file's tag
    /// block: the title, album and artist are required, and a missing album
    /// artist falls back to the artist.
    pub fn from_tag_data(
        file_path: String,
        file_name: String,
        title: Option<String>,
        album: Option<String>,
        artist: Option<String>,
        album_artist: Option<String>,
        duration: u64,
        txt_lyrics: Option<String>,
        lrc_lyrics: Option<String>,
    ) -> (r: Result<FsTrack, FsTrackError>)
        ensures
            title is None ==> (r matches Err(e) && e matches FsTrackError::TitleNotFound(p)
                && p@ == file_path@),
            title is Some && album is None ==> (r matches Err(e) && e
                matches FsTrackError::AlbumNotFound(p) && p@ == file_path@),
            title is Some && album is Some && artist is None ==> (r matches Err(e) && e
                matches FsTrackError::ArtistNotFound(p) && p@ == file_path@),
            title is Some && album is Some && artist is Some ==> (r matches Ok(t) && t@
                == (FsTrackView {
                file_path: file_path@,
                file_name: file_name@,
                title: title->Some_0@,
                album: album->Some_0@,
                artist: artist->Some_0@,
                album_artist: (match album_artist {
                    Some(a) => a@,
                    None => artist->Some_0@,
                }),
                duration,
                txt_lyrics: crate::persistent_entities::opt_view(txt_lyrics),
                lrc_lyrics: crate::persistent_entities::opt_view(lrc_lyrics),
            })),
    {
        let title = match title {
            Some(t) => t,
            None => {
                return Err(FsTrackError::TitleNotFound(file_path));
            },
        };
        let album = match album {
            Some(a) => a,
            None => {
                return Err(FsTrackError::AlbumNotFound(file_path));
            },
        };
        let artist = match artist {
            Some(a) => a,
            None => {
                return Err(FsTrackError::ArtistNotFound(file_path));
            },
        };
        let album_artist = match album_artist {
            Some(a) => a,
            None => artist.clone(),
        };
        Ok(
            FsTrack::new(
                file_path,
                file_name,
                title,
                album,
                artist,
                album_artist,
                duration,
                txt_lyrics,
                lrc_lyrics,
            ),
        )
    }

    pub fn file_path(&self) -> (r: String)
        ensures
            r@ == self@.file_path,
    {
        self.file_path.clone()
    }

    pub fn file_name(&self) -> (r: String)
        ensures
            r@ == self@.file_name,
    {
        self.file_name.clone()
    }

    pub fn title(&self) -> (r: String)
        ensures
            r@ == self@.title,
    {
        self.title.clone()
    }

    pub fn album(&self) -> (r: String)
        ensures
            r@ == self@.album,
    {
        self.album.clone()
    }

    pub fn artist(&self) -> (r: String)
        ensures
            r@ == self@.artist,
    {
        self.artist.clone()
    }

    pub fn album_artist(&self) -> (r: String)
        ensures
            r@ == self@.album_artist,
    {
        self.album_artist.clone()
    }

    pub fn duration(&self) -> (r: u64)
        ensures
            r == self@.duration,
    {
        self.duration
    }

    pub fn txt_lyrics(&self) -> (r: Option<String>)
        ensures
            crate::persistent_entities::opt_view(r) == self@.txt_lyrics,
    {
        clone_opt_string(&self.txt_lyrics)
    }

    pub fn lrc_lyrics(&self) -> (r: Option<String>)
        ensures
            crate::persistent_entities::opt_view(r) == self@.lrc_lyrics,
    {
        clone_opt_string(&self.lrc_lyrics)
    }
}

// ---------------------------------------------------------------------------
// Supported audio files
// ---------------------------------------------------------------------------

/// An ASCII uppercase letter lowered, other characters unchanged.
pub open spec fn ascii_lower_char(c: char) -> char {
    if 'A' <= c && c <= 'Z' {
        ((c as u8) + 32) as char
    } else {
        c
    }
}

/// One of the supported audio extensions, compared after ASCII lowering.
pub open spec fn supported_ext(e: Seq<char>) -> bool {
    let l = e.map_values(|c: char| ascii_lower_char(c));
    ||| l =~= seq!['m', 'p', '3']
    ||| l =~= seq!['m', '4', 'a']
    ||| l =~= seq!['f', 'l', 'a', 'c']
    ||| l =~= seq!['o', 'g', 'g']
    ||| l =~= seq!['o', 'p', 'u', 's']
    ||| l =~= seq!['w', 'a', 'v']
}

/// The extension of a path: what follows the last dot of the file name,
/// absent when the file name holds no dot past its first character.
pub open spec fn path_extension(p: Seq<char>) -> Option<Seq<char>> {
    let name = p.skip(last_index_of(p, '/') + 1);
    let d = last_index_of(name, '.');
    if d <= 0 {
        None
    } else {
        Some(name.skip(d + 1))
    }
}

/// Whether a path names a supported audio file.
pub open spec fn supported_audio_path(p: Seq<char>) -> bool {
    match path_extension(p) {
        Some(e) => supported_ext(e),
        None => false,
    }
}

/// Lowers one ASCII uppercase letter.
pub fn lower_ascii(c: char) -> (r: char)
    ensures
        r == ascii_lower_char(c),
{
    if 'A' <= c && c <= 'Z' {
        ((c as u8) + 32) as char
    } else {
        c
    }
}

/// Finds the last occurrence of a character within `cs[from..to]`, as an
/// absolute index.
pub fn rfind_char(cs: &Vec<char>, from: usize, to: usize, c: char) -> (r: Option<usize>)
    requires
        from <= to <= cs@.len(),
    ensures
        (match r {
            Some(j) => from <= j < to && cs@[j as int] == c && forall|k: int|
                j < k < to ==> cs@[k] != c,
            None => forall|k: int| from <= k < to ==> cs@[k] != c,
        }),
{
    let mut j = to;
    while j > from
        invariant
            from <= j <= to <= cs@.len(),
            forall|k: int| j <= k < to ==> cs@[k] != c,
        decreases j,
    {
        if cs[j - 1] == c {
            return Some(j - 1);
        }
        j = j - 1;
    }
    None
}

/// Decides whether a path names a supported audio file, comparing its
/// extension case-insensitively against the supported set.
pub fn has_supported_extension(path: &str) -> (r: bool)
    ensures
        r == supported_audio_path(path@),
{
    let cs = crate::text::str_to_chars(path);
    let n = cs.len();
    let ghost p = path@;
    // the file name starts after the last slash
    let ns: usize = match rfind_char(&cs, 0, n, '/') {
        Some(j) => {
            proof {
                crate::text::lemma_last_index_of_occurrence(p, '/', j as int);
            }
            j + 1
        },
        None => {
            proof {
                crate::text::lemma_no_occurrence_last_index(p, '/');
            }
            0
        },
    };
    let ghost name = p.skip(last_index_of(p, '/') + 1);
    proof {
        assert(name =~= p.skip(ns as int));
        assert(forall|k: int| 0 <= k < name.len() ==> name[k] == p[ns + k]);
    }
    // the extension starts after the last dot of the file name
    let d: usize = match rfind_char(&cs, ns, n, '.') {
        Some(j) => {
            proof {
                assert(name[j - ns] == '.');
                assert(forall|k: int| j - ns < k < name.len() ==> name[k] != '.');
                crate::text::lemma_last_index_of_occurrence(name, '.', j - ns);
            }
            j
        },
        None => {
            proof {
                crate::text::lemma_no_occurrence_last_index(name, '.');
            }
            return false;
        },
    };
    if d == ns {
        return false;
    }
    let ghost ext = name.skip(d - ns + 1);
    proof {
        assert(path_extension(p) == Some(ext));
        assert(ext =~= p.skip(d + 1));
    }
    // lower the extension and compare against the supported set
    let mut l: Vec<char> = Vec::new();
    let mut k = d + 1;
    while k < n
        invariant
            d + 1 <= k <= n,
            n == cs@.len(),
            cs@ == p,
            l@ == p.skip(d + 1).subrange(0, k - d - 1).map_values(
                |c: char| ascii_lower_char(c),
            ),
        decreases n - k,
    {
        l.push(lower_ascii(cs[k]));
        k = k + 1;
        assert(l@ =~= p.skip(d + 1).subrange(0, k - d - 1).map_values(
            |c: char| ascii_lower_char(c),
        ));
    }
    proof {
        assert(p.skip(d + 1).subrange(0, n - d - 1) =~= p.skip(d + 1));
        assert(l@ == ext.map_values(|c: char| ascii_lower_char(c)));
    }
    let m = l.len();
    let r = if m == 3 {
        (l[0] == 'm' && l[1] == 'p' && l[2] == '3') || (l[0] == 'm' && l[1] == '4' && l[2] == 'a')
            || (l[0] == 'o' && l[1] == 'g' && l[2] == 'g') || (l[0] == 'w' && l[1] == 'a' && l[2]
            == 'v')
    } else if m == 4 {
        (l[0] == 'f' && l[1] == 'l' && l[2] == 'a' && l[3] == 'c') || (l[0] == 'o' && l[1] == 'p'
            && l[2] == 'u' && l[3] == 's')
    } else {
        false
    };
    proof {
        let lv = ext.map_values(|c: char| ascii_lower_char(c));
        if r {
            assert(supported_ext(ext));
        } else {
            assert(!(lv =~= seq!['m', 'p', '3']));
            assert(!(lv =~= seq!['m', '4', 'a']));
            assert(!(lv =~= seq!['f', 'l', 'a', 'c']));
            assert(!(lv =~= seq!['o', 'g', 'g']));
            assert(!(lv =~= seq!['o', 'p', 'u', 's']));
            assert(!(lv =~= seq!['w', 'a', 'v']));
        }
    }
    r
}

// ---------------------------------------------------------------------------
// Scan batching and progress
// ---------------------------------------------------------------------------

/// A progress event emitted after each ingested batch.
pub struct ScanProgress {
    pub files_scanned: usize,
    pub files_count: Option<usize>,
}

/// Groups the paths found by a directory walk into fixed-size batches, and
/// tracks how many files have been scanned against a pre-computed total.
pub struct ScanBatcher {
    batch: Vec<String>,
    files_scanned: usize,
    files_count: usize,
}

impl ScanBatcher {
    /// A batch in progress is never full: a full one is handed out at once.
    #[verifier::type_invariant]
    spec fn batch_bounded(self) -> bool {
        self.batch@.len() < SCAN_BATCH_SIZE
    }

    /// The paths waiting in the current, not yet full batch.
    pub closed spec fn pending(&self) -> Seq<Seq<char>> {
        self.batch.deep_view()
    }

    /// How many files have been scanned so far.
    pub closed spec fn scanned(&self) -> int {
        self.files_scanned as int
    }

    /// The pre-computed total of matching files.
    pub closed spec fn count(&self) -> int {
        self.files_count as int
    }

    /// Starts a scan against a pre-computed file count.
    pub fn new(files_count: usize) -> (r: ScanBatcher)
        ensures
            r.pending() == Seq::<Seq<char>>::empty(),
            r.scanned() == 0,
            r.count() == files_count,
    {
        let r = ScanBatcher { batch: Vec::new(), files_scanned: 0, files_count };
        assert(r.pending() =~= Seq::<Seq<char>>::empty());
        r
    }

    /// Adds one path; when the batch reaches its fixed size, hands it out
    /// whole and starts an empty one.
    pub fn push(&mut self, path: String) -> (r: Option<Vec<String>>)
        ensures
            final(self).scanned() == old(self).scanned(),
            final(self).count() == old(self).count(),
            (match r {
                Some(b) => b.deep_view() == old(self).pending().push(path@) && b@.len()
                    == SCAN_BATCH_SIZE && final(self).pending() == Seq::<Seq<char>>::empty(),
                None => final(self).pending() == old(self).pending().push(path@)
                    && final(self).pending().len() < SCAN_BATCH_SIZE,
            }),
    {
        proof {
            use_type_invariant(&*self);
        }
        let mut b: Vec<String> = Vec::new();
        core::mem::swap(&mut b, &mut self.batch);
        b.push(path);
        assert(b.deep_view() =~= old(self).pending().push(path@));
        if b.len() == SCAN_BATCH_SIZE {
            assert(self.batch.deep_view() =~= Seq::<Seq<char>>::empty());
            Some(b)
        } else {
            core::mem::swap(&mut b, &mut self.batch);
            None
        }
    }

    /// Hands out whatever remains of the current batch.
    pub fn flush(&mut self) -> (r: Vec<String>)
        ensures
            final(self).scanned() == old(self).scanned(),
            final(self).count() == old(self).count(),
            r.deep_view() == old(self).pending(),
            final(self).pending() == Seq::<Seq<char>>::empty(),
    {
        let mut rest: Vec<String> = Vec::new();
        core::mem::swap(&mut rest, &mut self.batch);
        assert(rest.deep_view() =~= old(self).pending());
        assert(self.batch.deep_view() =~= Seq::<Seq<char>>::empty());
        rest
    }

    /// Records that one batch of files has been scanned and ingested.
    pub fn record_scanned(&mut self, n: usize)
        ensures
            final(self).pending() == old(self).pending(),
            final(self).count() == old(self).count(),
            final(self).scanned() == if old(self).scanned() + n <= usize::MAX {
                old(self).scanned() + n
            } else {
                usize::MAX as int
            },
    {
        proof {
            use_type_invariant(&*self);
        }
        if self.files_scanned <= usize::MAX - n {
            self.files_scanned = self.files_scanned + n;
        } else {
            self.files_scanned = usize::MAX;
        }
    }

    /// The progress event for the scan so far.
    pub fn progress(&self) -> (r: ScanProgress)
        ensures
            r.files_scanned == self.scanned(),
            r.files_count matches Some(c) && c == self.count(),
    {
        ScanProgress { files_scanned: self.files_scanned, files_count: Some(self.files_count) }
    }
}

// ---------------------------------------------------------------------------
// Collecting per-file results
// ---------------------------------------------------------------------------

/// The tracks of the successful results, in order.
pub open spec fn ok_seq(s: Seq<Result<FsTrack, FsTrackError>>) -> Seq<FsTrack>
    decreases s.len(),
{
    if s.len() == 0 {
        Seq::<FsTrack>::empty()
    } else {
        (match s[0] {
            Ok(t) => seq![t],
            Err(_) => Seq::<FsTrack>::empty(),
        }) + ok_seq(s.drop_first())
    }
}

/// The errors of the failed results, in order.
pub open spec fn err_seq(s: Seq<Result<FsTrack, FsTrackError>>) -> Seq<FsTrackError>
    decreases s.len(),
{
    if s.len() == 0 {
        Seq::<FsTrackError>::empty()
    } else {
        (match s[0] {
            Ok(_) => Seq::<FsTrackError>::empty(),
            Err(e) => seq![e],
        }) + err_seq(s.drop_first())
    }
}

/// Splits per-file extraction results into the scanned tracks and the
/// failures: a batch scan keeps going past unreadable files.
pub fn partition_scan_results(results: Vec<Result<FsTrack, FsTrackError>>) -> (r: (
    Vec<FsTrack>,
    Vec<FsTrackError>,
))
    ensures
        r.0@ == ok_seq(results@),
        r.1@ == err_seq(results@),
{
    let ghost whole = results@;
    let mut rest = results;
    let mut oks: Vec<FsTrack> = Vec::new();
    let mut errs: Vec<FsTrackError> = Vec::new();
    proof {
        assert(oks@ + ok_seq(rest@) =~= ok_seq(whole));
        assert(errs@ + err_seq(rest@) =~= err_seq(whole));
    }
    while rest.len() > 0
        invariant
            oks@ + ok_seq(rest@) == ok_seq(whole),
            errs@ + err_seq(rest@) == err_seq(whole),
        decreases rest.len(),
    {
        let ghost before = rest@;
        let x = rest.remove(0);
        proof {
            assert(rest@ =~= before.drop_first());
        }
        match x {
            Ok(t) => {
                oks.push(t);
                proof {
                    assert(oks@ + ok_seq(rest@) =~= ok_seq(whole));
                    assert(errs@ + err_seq(rest@) =~= err_seq(whole));
                }
            },
            Err(e) => {
                errs.push(e);
                proof {
                    assert(oks@ + ok_seq(rest@) =~= ok_seq(whole));
                    assert(errs@ + err_seq(rest@) =~= err_seq(whole));
                }
            },
        }
    }
    proof {
        assert(ok_seq(rest@) =~= Seq::<FsTrack>::empty());
        assert(err_seq(rest@) =~= Seq::<FsTrackError>::empty());
        assert(oks@ =~= ok_seq(whole));
        assert(errs@ =~= err_seq(whole));
    }
    (oks, errs)
}

} // verus!
