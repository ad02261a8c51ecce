//! Lyrics handling: the instrumental marker, sidecar persistence under the
//! mutual-exclusion rules, sidecar path computation, and the parsing of
//! timed lyrics into timestamped lines for embedding.

use vstd::prelude::*;
use vstd::string::StringExecFns;
use crate::text::{is_ws_char, last_index_of};

verus! {

/// Why a lyrics download yields nothing to store.
pub enum GetLyricsError {
    NotFound,
}

impl GetLyricsError {
    /// The user-facing description of the error.
    pub fn message(&self) -> (r: String)
        ensures
            r@ == "This track does not exist in LRCLIB database"@,
    {
        String::from_str("This track does not exist in LRCLIB database")
    }
}

// ---------------------------------------------------------------------------
// The instrumental marker
// ---------------------------------------------------------------------------

/// The opening of the instrumental marker.
pub open spec fn marker_prefix() -> Seq<char> {
    seq!['[', 'a', 'u', ':']
}

/// The closing of the instrumental marker.
pub open spec fn marker_suffix() -> Seq<char> {
    seq!['i', 'n', 's', 't', 'r', 'u', 'm', 'e', 'n', 't', 'a', 'l', ']']
}

/// The instrumental marker occurs at index `i` with `k` whitespace
/// characters between its opening and its closing; the letters are matched
/// case-insensitively, after ASCII lowering.
pub open spec fn marker_at(s: Seq<char>, i: int, k: int) -> bool {
    &&& 0 <= i
    &&& 0 <= k
    &&& i + 4 + k + 13 <= s.len()
    &&& s.subrange(i, i + 4).map_values(|c: char| crate::fs_track::ascii_lower_char(c))
        == marker_prefix()
    &&& forall|m: int| i + 4 <= m < i + 4 + k ==> is_ws_char(#[trigger] s[m])
    &&& s.subrange(i + 4 + k, i + 4 + k + 13).map_values(
        |c: char| crate::fs_track::ascii_lower_char(c),
    ) == marker_suffix()
}

/// The lyrics contain the instrumental marker somewhere.
pub open spec fn has_marker(s: Seq<char>) -> bool {
    exists|i: int, k: int| marker_at(s, i, k)
}

/// Whether sidecar lyrics, if any, mark the track as instrumental.
pub open spec fn lyrics_mark_instrumental(o: Option<Seq<char>>) -> bool {
    match o {
        Some(l) => has_marker(l),
        None => false,
    }
}

/// Tries the marker at one starting index: the opening, any run of
/// whitespace, then the closing, with the letters compared after ASCII
/// lowering.
fn marker_match_at(cs: &Vec<char>, i: usize) -> (r: bool)
    ensures
        r == exists|k: int| marker_at(cs@, i as int, k),
{
    let n = cs.len();
    let ghost s = cs@;
    if n < 17 || i > n - 17 {
        proof {
            assert forall|k: int| !marker_at(s, i as int, k) by {}
        }
        return false;
    }
    if !(crate::fs_track::lower_ascii(cs[i]) == '[' && crate::fs_track::lower_ascii(cs[i + 1])
        == 'a' && crate::fs_track::lower_ascii(cs[i + 2]) == 'u' && crate::fs_track::lower_ascii(
        cs[i + 3],
    ) == ':') {
        proof {
            assert forall|k: int| !marker_at(s, i as int, k) by {
                if marker_at(s, i as int, k) {
                    let pre = s.subrange(i as int, i + 4).map_values(
                        |c: char| crate::fs_track::ascii_lower_char(c),
                    );
                    assert(pre == marker_prefix());
                    assert(pre[0] == crate::fs_track::ascii_lower_char(s[i as int]) && pre[1]
                        == crate::fs_track::ascii_lower_char(s[i + 1]) && pre[2]
                        == crate::fs_track::ascii_lower_char(s[i + 2]) && pre[3]
                        == crate::fs_track::ascii_lower_char(s[i + 3]));
                }
            }
        }
        return false;
    }
    assert(s.subrange(i as int, i + 4).map_values(|c: char| crate::fs_track::ascii_lower_char(c))
        =~= marker_prefix());
    // skip the whitespace run
    let mut j = i + 4;
    while j < n && crate::text::is_whitespace_char(cs[j])
        invariant
            i + 4 <= j <= n,
            n == s.len(),
            cs@ == s,
            forall|m: int| i + 4 <= m < j ==> is_ws_char(#[trigger] s[m]),
        decreases n - j,
    {
        j = j + 1;
    }
    let ghost run = j - (i + 4) as int;
    if n - j < 13 {
        proof {
            assert forall|k: int| !marker_at(s, i as int, k) by {
                if marker_at(s, i as int, k) {
                    if k < run {
                        let sub = s.subrange(i + 4 + k, i + 4 + k + 13).map_values(
                            |c: char| crate::fs_track::ascii_lower_char(c),
                        );
                        assert(sub == marker_suffix());
                        assert(sub[0] == crate::fs_track::ascii_lower_char(s[i + 4 + k]));
                        assert(is_ws_char(s[i + 4 + k]));
                        assert(crate::fs_track::ascii_lower_char(s[i + 4 + k]) == s[i + 4 + k]);
                        assert(s[i + 4 + k] == 'i');
                    } else {
                        assert(i + 4 + k + 13 <= n);
                        if j < n {
                            assert(!is_ws_char(s[j as int]));
                            assert(k > run ==> is_ws_char(s[i + 4 + run]));
                            assert(k == run);
                        } else {
                            assert(i + 4 + k >= n);
                        }
                        assert(false);
                    }
                }
            }
        }
        return false;
    }
    let hit = crate::fs_track::lower_ascii(cs[j]) == 'i' && crate::fs_track::lower_ascii(cs[j + 1])
        == 'n' && crate::fs_track::lower_ascii(cs[j + 2]) == 's' && crate::fs_track::lower_ascii(
        cs[j + 3],
    ) == 't' && crate::fs_track::lower_ascii(cs[j + 4]) == 'r' && crate::fs_track::lower_ascii(
        cs[j + 5],
    ) == 'u' && crate::fs_track::lower_ascii(cs[j + 6]) == 'm' && crate::fs_track::lower_ascii(
        cs[j + 7],
    ) == 'e' && crate::fs_track::lower_ascii(cs[j + 8]) == 'n' && crate::fs_track::lower_ascii(
        cs[j + 9],
    ) == 't' && crate::fs_track::lower_ascii(cs[j + 10]) == 'a' && crate::fs_track::lower_ascii(
        cs[j + 11],
    ) == 'l' && crate::fs_track::lower_ascii(cs[j + 12]) == ']';
    proof {
        if hit {
            assert(s.subrange(j as int, j + 13).map_values(
                |c: char| crate::fs_track::ascii_lower_char(c),
            ) =~= marker_suffix());
            assert(marker_at(s, i as int, run));
        } else {
            assert forall|k: int| !marker_at(s, i as int, k) by {
                if marker_at(s, i as int, k) {
                    if k < run {
                        let sub = s.subrange(i + 4 + k, i + 4 + k + 13).map_values(
                            |c: char| crate::fs_track::ascii_lower_char(c),
                        );
                        assert(sub == marker_suffix());
                        assert(sub[0] == crate::fs_track::ascii_lower_char(s[i + 4 + k]));
                        assert(is_ws_char(s[i + 4 + k]));
                        assert(crate::fs_track::ascii_lower_char(s[i + 4 + k]) == s[i + 4 + k]);
                        assert(s[i + 4 + k] == 'i');
                    } else if k == run {
                        let sub = s.subrange(i + 4 + k, i + 4 + k + 13).map_values(
                            |c: char| crate::fs_track::ascii_lower_char(c),
                        );
                        assert(sub == marker_suffix());
                        assert(crate::fs_track::ascii_lower_char(s[j as int]) == sub[0]
                            && crate::fs_track::ascii_lower_char(s[j + 1]) == sub[1]
                            && crate::fs_track::ascii_lower_char(s[j + 2]) == sub[2]
                            && crate::fs_track::ascii_lower_char(s[j + 3]) == sub[3]
                            && crate::fs_track::ascii_lower_char(s[j + 4]) == sub[4]
                            && crate::fs_track::ascii_lower_char(s[j + 5]) == sub[5]
                            && crate::fs_track::ascii_lower_char(s[j + 6]) == sub[6]
                            && crate::fs_track::ascii_lower_char(s[j + 7]) == sub[7]
                            && crate::fs_track::ascii_lower_char(s[j + 8]) == sub[8]
                            && crate::fs_track::ascii_lower_char(s[j + 9]) == sub[9]
                            && crate::fs_track::ascii_lower_char(s[j + 10]) == sub[10]
                            && crate::fs_track::ascii_lower_char(s[j + 11]) == sub[11]
                            && crate::fs_track::ascii_lower_char(s[j + 12]) == sub[12]);
                    } else {
                        assert(j < n ==> !is_ws_char(s[j as int]));
                        assert(is_ws_char(s[i + 4 + run]));
                        assert(false);
                    }
                }
            }
        }
    }
    hit
}

/// Decides whether lyrics contain the instrumental marker: the opening
/// bracket pair, optional whitespace, and the closing word.
pub fn is_instrumental_lyrics(s: &str) -> (r: bool)
    ensures
        r == has_marker(s@),
{
    let cs = crate::text::str_to_chars(s);
    let n = cs.len();
    let mut i: usize = 0;
    while i < n
        invariant
            i <= n,
            n == s@.len(),
            cs@ == s@,
            forall|i0: int, k: int| i0 < i ==> !marker_at(s@, i0, k),
        decreases n - i,
    {
        if marker_match_at(&cs, i) {
            return true;
        }
        i = i + 1;
        proof {
            assert forall|i0: int, k: int| i0 < i implies !marker_at(s@, i0, k) by {}
        }
    }
    proof {
        assert forall|i0: int, k: int| !marker_at(s@, i0, k) by {
            if marker_at(s@, i0, k) {
                assert(i0 + 4 + k + 13 <= n);
                assert(i0 < i);
            }
        }
    }
    false
}

// ---------------------------------------------------------------------------
// Sidecar paths
// ---------------------------------------------------------------------------

/// The path of a sidecar file: the track's directory, its file name without
/// its extension, a dot and the sidecar extension.
pub open spec fn sidecar_path(p: Seq<char>, ext: Seq<char>) -> Seq<char> {
    let cut = last_index_of(p, '/') + 1;
    let name = p.skip(cut);
    let d = last_index_of(name, '.');
    let stem = if d <= 0 {
        name
    } else {
        name.take(d)
    };
    p.take(cut) + stem + seq!['.'] + ext
}

/// Builds a sidecar path by replacing the track path's extension.
fn build_sidecar_path(track_path: &str, ext: &str) -> (r: String)
    ensures
        r@ == sidecar_path(track_path@, ext@),
{
    let cs = crate::text::str_to_chars(track_path);
    let n = cs.len();
    let ghost p = track_path@;
    let cut: usize = match crate::fs_track::rfind_char(&cs, 0, n, '/') {
        Some(j) => {
            proof {
                crate::text::lemma_last_index_of_occurrence(p, '/', j as int);
            }
            j + 1
        },
        None => {
            proof {
                crate::text::lemma_no_occurrence_last_index(p, '/');
            }
            0
        },
    };
    let ghost name = p.skip(last_index_of(p, '/') + 1);
    proof {
        assert(name =~= p.skip(cut as int));
        assert(forall|k: int| 0 <= k < name.len() ==> name[k] == p[cut + k]);
    }
    let stem_end: usize = match crate::fs_track::rfind_char(&cs, cut, n, '.') {
        Some(j) => {
            proof {
                assert(name[j - cut] == '.');
                assert(forall|k: int| j - cut < k < name.len() ==> name[k] != '.');
                crate::text::lemma_last_index_of_occurrence(name, '.', j - cut);
            }
            if j == cut {
                n
            } else {
                j
            }
        },
        None => {
            proof {
                crate::text::lemma_no_occurrence_last_index(name, '.');
            }
            n
        },
    };
    let mut out: Vec<char> = Vec::new();
    crate::text::append_range(&mut out, &cs, 0, stem_end);
    out.push('.');
    let es = crate::text::str_to_chars(ext);
    let ghost before_ext = out@;
    crate::text::append_range(&mut out, &es, 0, es.len());
    proof {
        let cutg = last_index_of(p, '/') + 1;
        let d = last_index_of(name, '.');
        let stem = if d <= 0 {
            name
        } else {
            name.take(d)
        };
        assert(es@.subrange(0, es@.len() as int) =~= ext@);
        assert(cs@.subrange(0, stem_end as int) =~= p.take(cutg) + stem);
        assert(out@ =~= sidecar_path(track_path@, ext@));
    }
    crate::text::chars_to_string(&out)
}

/// The path of the plain-lyrics sidecar beside a track.
pub fn build_txt_path(track_path: &str) -> (r: String)
    ensures
        r@ == sidecar_path(track_path@, "txt"@),
{
    proof {
        reveal_strlit("txt");
    }
    build_sidecar_path(track_path, "txt")
}

/// The path of the timed-lyrics sidecar beside a track.
pub fn build_lrc_path(track_path: &str) -> (r: String)
    ensures
        r@ == sidecar_path(track_path@, "lrc"@),
{
    proof {
        reveal_strlit("lrc");
    }
    build_sidecar_path(track_path, "lrc")
}

// ---------------------------------------------------------------------------
// Sidecar persistence under mutual exclusion
// ---------------------------------------------------------------------------

/// The pair of sidecar files beside one track: the plain-lyrics text file
/// and the timed-lyrics file.  An absent file is `None`.
pub struct Sidecars {
    pub txt: Option<String>,
    pub lrc: Option<String>,
}

/// The abstract value of the sidecar pair.
#[verifier::ext_equal]
pub struct SidecarsView {
    pub txt: Option<Seq<char>>,
    pub lrc: Option<Seq<char>>,
}

impl View for Sidecars {
    type V = SidecarsView;

    open spec fn view(&self) -> SidecarsView {
        SidecarsView {
            txt: crate::persistent_entities::opt_view(self.txt),
            lrc: crate::persistent_entities::opt_view(self.lrc),
        }
    }
}

/// Writes plain lyrics: the timed sidecar is deleted, and empty content
/// deletes the plain sidecar instead of writing it.
pub fn save_plain_lyrics(sidecars: &mut Sidecars, lyrics: &str)
    ensures
        final(sidecars)@.lrc is None,
        lyrics@.len() == 0 ==> final(sidecars)@.txt is None,
        lyrics@.len() > 0 ==> final(sidecars)@.txt == Some(lyrics@),
{
    sidecars.lrc = None;
    if lyrics.unicode_len() == 0 {
        sidecars.txt = None;
    } else {
        sidecars.txt = Some(lyrics.to_owned());
    }
}

/// Writes timed lyrics: the plain sidecar is deleted, and empty content
/// deletes the timed sidecar instead, leaving the plain sidecar alone.
pub fn save_synced_lyrics(sidecars: &mut Sidecars, lyrics: &str)
    ensures
        lyrics@.len() == 0 ==> final(sidecars)@.lrc is None && final(sidecars)@.txt == old(
            sidecars)@.txt,
        lyrics@.len() > 0 ==> final(sidecars)@.txt is None && final(sidecars)@.lrc == Some(
            lyrics@,
        ),
{
    if lyrics.unicode_len() == 0 {
        sidecars.lrc = None;
    } else {
        sidecars.txt = None;
        sidecars.lrc = Some(lyrics.to_owned());
    }
}

/// Marks a track instrumental: both sidecars are deleted, then the timed
/// sidecar is written with the reserved sentinel.
pub fn save_instrumental(sidecars: &mut Sidecars)
    ensures
        final(sidecars)@.txt is None,
        final(sidecars)@.lrc == Some("[au: instrumental]"@),
{
    sidecars.txt = None;
    sidecars.lrc = Some(String::from_str("[au: instrumental]"));
}

/// Applies a resolved lyrics outcome to the sidecar pair and hands the
/// outcome back: timed lyrics and the instrumental sentinel replace the
/// plain sidecar, plain lyrics replace the timed sidecar, and a missing
/// track changes nothing.
pub fn apply_lyrics_for_track(sidecars: &mut Sidecars, lyrics: crate::lrclib::get::Response) -> (r:
    crate::lrclib::get::Response)
    ensures
        r == lyrics,
        (match lyrics {
            crate::lrclib::get::Response::SyncedLyrics(s, _) => {
                &&& s@.len() == 0 ==> final(sidecars)@.lrc is None && final(sidecars)@.txt
                    == old(sidecars)@.txt
                &&& s@.len() > 0 ==> final(sidecars)@.txt is None && final(sidecars)@.lrc == Some(
                    s@,
                )
            },
            crate::lrclib::get::Response::UnsyncedLyrics(p) => {
                &&& final(sidecars)@.lrc is None
                &&& p@.len() == 0 ==> final(sidecars)@.txt is None
                &&& p@.len() > 0 ==> final(sidecars)@.txt == Some(p@)
            },
            crate::lrclib::get::Response::IsInstrumental => final(sidecars)@.txt is None && final(
                sidecars)@.lrc == Some("[au: instrumental]"@),
            crate::lrclib::get::Response::NotFound => final(sidecars)@ == old(sidecars)@,
        }),
{
    match &lyrics {
        crate::lrclib::get::Response::SyncedLyrics(synced_lyrics, _) => {
            save_synced_lyrics(sidecars, synced_lyrics.as_str());
        },
        crate::lrclib::get::Response::UnsyncedLyrics(plain_lyrics) => {
            save_plain_lyrics(sidecars, plain_lyrics.as_str());
        },
        crate::lrclib::get::Response::IsInstrumental => {
            save_instrumental(sidecars);
        },
        crate::lrclib::get::Response::NotFound => {},
    }
    lyrics
}

/// Stores user-edited lyrics: the plain lyrics first, then the timed
/// lyrics, each under the mutual-exclusion rules.
pub fn apply_string_lyrics_for_track(
    sidecars: &mut Sidecars,
    plain_lyrics: &str,
    synced_lyrics: &str,
)
    ensures
        synced_lyrics@.len() > 0 ==> final(sidecars)@.txt is None && final(sidecars)@.lrc == Some(
            synced_lyrics@,
        ),
        synced_lyrics@.len() == 0 && plain_lyrics@.len() > 0 ==> final(sidecars)@.txt == Some(
            plain_lyrics@,
        ) && final(sidecars)@.lrc is None,
        synced_lyrics@.len() == 0 && plain_lyrics@.len() == 0 ==> final(sidecars)@.txt is None
            && final(sidecars)@.lrc is None,
{
    save_plain_lyrics(sidecars, plain_lyrics);
    save_synced_lyrics(sidecars, synced_lyrics);
}

// ---------------------------------------------------------------------------
// Which update a user edit calls for in the store
// ---------------------------------------------------------------------------

/// The store update a lyrics edit resolves to.
pub enum LyricsUpdate {
    MarkInstrumental,
    StoreSynced,
    StorePlain,
    ClearLyrics,
}

/// Decides which store update a user edit calls for: lyrics matching the
/// instrumental marker mark the track instrumental; otherwise timed lyrics
/// win over plain lyrics, and empty input clears the track's lyrics.
pub fn save_lyrics_update(plain_lyrics: &str, synced_lyrics: &str) -> (r: LyricsUpdate)
    ensures
        r == (if has_marker(synced_lyrics@) {
            LyricsUpdate::MarkInstrumental
        } else if synced_lyrics@.len() > 0 {
            LyricsUpdate::StoreSynced
        } else if plain_lyrics@.len() > 0 {
            LyricsUpdate::StorePlain
        } else {
            LyricsUpdate::ClearLyrics
        }),
{
    if is_instrumental_lyrics(synced_lyrics) {
        LyricsUpdate::MarkInstrumental
    } else if synced_lyrics.unicode_len() > 0 {
        LyricsUpdate::StoreSynced
    } else if plain_lyrics.unicode_len() > 0 {
        LyricsUpdate::StorePlain
    } else {
        LyricsUpdate::ClearLyrics
    }
}

// ---------------------------------------------------------------------------
// Embedding plans
// ---------------------------------------------------------------------------

/// The container families whose native metadata the system can embed
/// lyrics into.
pub enum ContainerFamily {
    Mpeg,
    Flac,
    Unsupported,
}

/// A path ends with a suffix, compared after ASCII lowering.
pub open spec fn has_suffix_fold(p: Seq<char>, suffix: Seq<char>) -> bool {
    p.len() >= suffix.len() && p.skip(p.len() - suffix.len()).map_values(
        |c: char| crate::fs_track::ascii_lower_char(c),
    ) == suffix
}

/// Dispatches a track path to its container family by its extension.
pub fn container_family(track_path: &str) -> (r: ContainerFamily)
    ensures
        r is Mpeg <==> has_suffix_fold(track_path@, seq!['.', 'm', 'p', '3']),
        r is Flac <==> !has_suffix_fold(track_path@, seq!['.', 'm', 'p', '3']) && has_suffix_fold(
            track_path@,
            seq!['.', 'f', 'l', 'a', 'c'],
        ),
{
    let cs = crate::text::str_to_chars(track_path);
    let n = cs.len();
    let ghost p = track_path@;
    let is_mp3 = n >= 4 && {
        let a = crate::fs_track::lower_ascii(cs[n - 4]);
        let b = crate::fs_track::lower_ascii(cs[n - 3]);
        let c = crate::fs_track::lower_ascii(cs[n - 2]);
        let d = crate::fs_track::lower_ascii(cs[n - 1]);
        a == '.' && b == 'm' && c == 'p' && d == '3'
    };
    proof {
        if n >= 4 {
            let tail = p.skip(n - 4).map_values(|c: char| crate::fs_track::ascii_lower_char(c));
            assert(tail[0] == crate::fs_track::ascii_lower_char(p[n - 4]));
            assert(tail[1] == crate::fs_track::ascii_lower_char(p[n - 3]));
            assert(tail[2] == crate::fs_track::ascii_lower_char(p[n - 2]));
            assert(tail[3] == crate::fs_track::ascii_lower_char(p[n - 1]));
            if is_mp3 {
                assert(tail =~= seq!['.', 'm', 'p', '3']);
            } else {
                assert(!(tail =~= seq!['.', 'm', 'p', '3']));
            }
        }
        assert(is_mp3 == has_suffix_fold(p, seq!['.', 'm', 'p', '3']));
    }
    if is_mp3 {
        return ContainerFamily::Mpeg;
    }
    let is_flac = n >= 5 && {
        let a = crate::fs_track::lower_ascii(cs[n - 5]);
        let b = crate::fs_track::lower_ascii(cs[n - 4]);
        let c = crate::fs_track::lower_ascii(cs[n - 3]);
        let d = crate::fs_track::lower_ascii(cs[n - 2]);
        let e = crate::fs_track::lower_ascii(cs[n - 1]);
        a == '.' && b == 'f' && c == 'l' && d == 'a' && e == 'c'
    };
    proof {
        if n >= 5 {
            let tail = p.skip(n - 5).map_values(|c: char| crate::fs_track::ascii_lower_char(c));
            assert(tail[0] == crate::fs_track::ascii_lower_char(p[n - 5]));
            assert(tail[1] == crate::fs_track::ascii_lower_char(p[n - 4]));
            assert(tail[2] == crate::fs_track::ascii_lower_char(p[n - 3]));
            assert(tail[3] == crate::fs_track::ascii_lower_char(p[n - 2]));
            assert(tail[4] == crate::fs_track::ascii_lower_char(p[n - 1]));
            if is_flac {
                assert(tail =~= seq!['.', 'f', 'l', 'a', 'c']);
            } else {
                assert(!(tail =~= seq!['.', 'f', 'l', 'a', 'c']));
            }
        }
        assert(is_flac == has_suffix_fold(p, seq!['.', 'f', 'l', 'a', 'c']));
    }
    if is_flac {
        ContainerFamily::Flac
    } else {
        ContainerFamily::Unsupported
    }
}

/// What to do with the two comment entries of a FLAC container: write the
/// entry, or remove it when the corresponding lyrics are empty.
pub struct FlacEmbedPlan {
    pub plain: Option<String>,
    pub synced: Option<String>,
}

// ---------------------------------------------------------------------------
// Timed lyrics as timestamped lines
// ---------------------------------------------------------------------------

/// A decimal digit.
pub open spec fn is_digit(c: char) -> bool {
    '0' <= c && c <= '9'
}

/// The first index at or past `i` that holds no digit.
pub open spec fn digits_end(l: Seq<char>, i: int) -> int
    decreases l.len() - i,
{
    if 0 <= i < l.len() && is_digit(l[i]) {
        digits_end(l, i + 1)
    } else {
        i
    }
}

/// The value of the digits `l[i..j]`.
pub open spec fn digits_val(l: Seq<char>, i: int, j: int) -> int
    decreases j - i,
{
    if j <= i {
        0
    } else {
        digits_val(l, i, j - 1) * 10 + (l[j - 1] as int - 48)
    }
}

/// A time tag starting at index `i`: a bracketed minutes-colon-seconds
/// pair, with an optional dot and up to three fractional digits, as in
/// `[mm:ss.xx]`.  Minutes take one to four digits.  Yields the timestamp in
/// milliseconds and the index just past the closing bracket.
pub open spec fn tag_at(l: Seq<char>, i: int) -> Option<(int, int)> {
    if !(0 <= i < l.len() && l[i] == '[') {
        None
    } else {
        let m0 = i + 1;
        let m1 = digits_end(l, m0);
        if m1 == m0 || m1 - m0 > 4 || !(m1 < l.len() && l[m1] == ':') {
            None
        } else {
            let s0 = m1 + 1;
            let s1 = digits_end(l, s0);
            if s1 - s0 != 2 {
                None
            } else {
                let base = digits_val(l, m0, m1) * 60000 + digits_val(l, s0, s1) * 1000;
                if s1 < l.len() && l[s1] == ']' {
                    Some((base, s1 + 1))
                } else if s1 < l.len() && l[s1] == '.' {
                    let f0 = s1 + 1;
                    let f1 = digits_end(l, f0);
                    if f1 == f0 || f1 - f0 > 3 || !(f1 < l.len() && l[f1] == ']') {
                        None
                    } else {
                        let scale: int = if f1 - f0 == 1 {
                            100
                        } else if f1 - f0 == 2 {
                            10
                        } else {
                            1
                        };
                        Some((base + digits_val(l, f0, f1) * scale, f1 + 1))
                    }
                } else {
                    None
                }
            }
        }
    }
}

/// The index just past a tag found at `i`, clamped so that it always moves
/// forward and stays in bounds.
pub open spec fn tag_step(l: Seq<char>, i: int, e: int) -> int {
    if i < e <= l.len() {
        e
    } else {
        i + 1
    }
}

/// The timestamps of the leading time tags of one line.
pub open spec fn line_tag_times(l: Seq<char>, i: int) -> Seq<int>
    decreases l.len() - i,
{
    if i >= l.len() {
        Seq::<int>::empty()
    } else {
        match tag_at(l, i) {
            Some(t) => seq![t.0] + line_tag_times(l, tag_step(l, i, t.1)),
            None => Seq::<int>::empty(),
        }
    }
}

/// The index where the text of a line starts, past its leading time tags.
pub open spec fn line_text_start(l: Seq<char>, i: int) -> int
    decreases l.len() - i,
{
    if i >= l.len() {
        i
    } else {
        match tag_at(l, i) {
            Some(t) => line_text_start(l, tag_step(l, i, t.1)),
            None => i,
        }
    }
}

/// The timestamped entries of one line: each leading time tag paired with
/// the line's text.
pub open spec fn line_entries(l: Seq<char>) -> Seq<(int, Seq<char>)> {
    let text = l.skip(line_text_start(l, 0));
    line_tag_times(l, 0).map_values(|ms: int| (ms, text))
}

/// The timestamped entries of a whole timed-lyrics text, line by line.
pub open spec fn sylt_entries(s: Seq<char>) -> Seq<(int, Seq<char>)>
    decreases s.len(),
{
    let i = crate::text::find_char(s, '\n');
    if 0 <= i < s.len() {
        line_entries(s.subrange(0, i)) + sylt_entries(s.subrange(i + 1, s.len() as int))
    } else {
        line_entries(s)
    }
}

proof fn lemma_digits_val_bound(l: Seq<char>, i: int, j: int)
    requires
        i <= j,
        forall|k: int| i <= k < j ==> is_digit(#[trigger] l[k]),
    ensures
        0 <= digits_val(l, i, j),
        j - i == 1 ==> digits_val(l, i, j) <= 9,
        j - i == 2 ==> digits_val(l, i, j) <= 99,
        j - i == 3 ==> digits_val(l, i, j) <= 999,
        j - i == 4 ==> digits_val(l, i, j) <= 9999,
    decreases j - i,
{
    if j > i {
        lemma_digits_val_bound(l, i, j - 1);
    }
}

/// Scans the digits run starting at one index.
fn scan_digits(lv: &Vec<char>, i: usize) -> (r: usize)
    requires
        i <= lv@.len(),
    ensures
        i <= r <= lv@.len(),
        r == digits_end(lv@, i as int),
        forall|k: int| i <= k < r ==> is_digit(#[trigger] lv@[k]),
{
    let n = lv.len();
    let mut j = i;
    while j < n && '0' <= lv[j] && lv[j] <= '9'
        invariant
            i <= j <= n,
            n == lv@.len(),
            digits_end(lv@, i as int) == digits_end(lv@, j as int),
            forall|k: int| i <= k < j ==> is_digit(#[trigger] lv@[k]),
        decreases n - j,
    {
        j = j + 1;
    }
    proof {
        assert(digits_end(lv@, j as int) == j);
    }
    j
}

/// Computes the value of a digits run.
fn digits_value(lv: &Vec<char>, i: usize, j: usize) -> (r: u32)
    requires
        i <= j <= lv@.len(),
        j - i <= 4,
        forall|k: int| i <= k < j ==> is_digit(#[trigger] lv@[k]),
    ensures
        r == digits_val(lv@, i as int, j as int),
        r <= 9999,
{
    proof {
        lemma_digits_val_bound(lv@, i as int, j as int);
    }
    let mut v: u32 = 0;
    let mut k = i;
    while k < j
        invariant
            i <= k <= j <= lv@.len(),
            j - i <= 4,
            forall|m: int| i <= m < j ==> is_digit(#[trigger] lv@[m]),
            v == digits_val(lv@, i as int, k as int),
            v <= 9999,
        decreases j - k,
    {
        proof {
            lemma_digits_val_bound(lv@, i as int, k + 1);
        }
        let d = (lv[k] as u32) - 48;
        v = v * 10 + d;
        k = k + 1;
    }
    v
}

/// Tries to read one time tag at one index of a line.
fn parse_tag(lv: &Vec<char>, i: usize) -> (r: Option<(u32, usize)>)
    requires
        i <= lv@.len(),
    ensures
        (match r {
            Some(t) => tag_at(lv@, i as int) == Some((t.0 as int, t.1 as int)) && i < t.1
                <= lv@.len() && t.0 <= 700000000,
            None => tag_at(lv@, i as int) is None,
        }),
{
    let n = lv.len();
    if i >= n || lv[i] != '[' {
        return None;
    }
    let m0 = i + 1;
    let m1 = scan_digits(lv, m0);
    if m1 == m0 || m1 - m0 > 4 || m1 >= n || lv[m1] != ':' {
        return None;
    }
    let s0 = m1 + 1;
    let s1 = scan_digits(lv, s0);
    if s1 - s0 != 2 {
        return None;
    }
    let minutes = digits_value(lv, m0, m1);
    let seconds = digits_value(lv, s0, s1);
    let base: u32 = minutes * 60000 + seconds * 1000;
    if s1 < n && lv[s1] == ']' {
        return Some((base, s1 + 1));
    }
    if s1 < n && lv[s1] == '.' {
        let f0 = s1 + 1;
        let f1 = scan_digits(lv, f0);
        if f1 == f0 || f1 - f0 > 3 || f1 >= n || lv[f1] != ']' {
            return None;
        }
        let frac = digits_value(lv, f0, f1);
        let scale: u32 = if f1 - f0 == 1 {
            100
        } else if f1 - f0 == 2 {
            10
        } else {
            1
        };
        return Some((base + frac * scale, f1 + 1));
    }
    None
}

/// Appends one line's timestamped entries.
fn line_entries_into(out: &mut Vec<(u32, String)>, lv: &Vec<char>)
    ensures
        final(out)@.map_values(|p: (u32, String)| (p.0 as int, p.1@)) == old(out)@.map_values(
            |p: (u32, String)| (p.0 as int, p.1@),
        ) + line_entries(lv@),
{
    let ghost l = lv@;
    let mut times: Vec<u32> = Vec::new();
    let mut i: usize = 0;
    let mut scanning = true;
    while scanning
        invariant
            i <= lv@.len(),
            l == lv@,
            line_tag_times(l, 0) == times@.map_values(|t: u32| t as int) + line_tag_times(
                l,
                i as int,
            ),
            line_text_start(l, 0) == line_text_start(l, i as int),
            !scanning ==> tag_at(l, i as int) is None,
        decreases lv@.len() - i + (if scanning {
            1int
        } else {
            0int
        }),
    {
        match parse_tag(lv, i) {
            Some(t) => {
                let ghost times_before = times@;
                times.push(t.0);
                proof {
                    assert(tag_step(l, i as int, t.1 as int) == t.1 as int);
                    assert(i < l.len());
                    assert(line_tag_times(l, i as int) == seq![t.0 as int] + line_tag_times(
                        l,
                        t.1 as int,
                    ));
                    assert(line_text_start(l, i as int) == line_text_start(l, t.1 as int));
                    assert(times@.map_values(|t: u32| t as int) =~= times_before.map_values(
                        |t: u32| t as int,
                    ).push(t.0 as int));
                }
                i = t.1;
            },
            None => {
                scanning = false;
            },
        }
    }
    proof {
        assert(line_tag_times(l, i as int) =~= Seq::<int>::empty());
        assert(line_text_start(l, i as int) == i);
        assert(line_tag_times(l, 0) =~= times@.map_values(|t: u32| t as int));
        assert(line_text_start(l, 0) == i);
    }
    let mut text_chars: Vec<char> = Vec::new();
    crate::text::append_range(&mut text_chars, lv, i, lv.len());
    let text = crate::text::chars_to_string(&text_chars);
    proof {
        assert(text@ =~= l.skip(line_text_start(l, 0)));
    }
    let ghost before = out@;
    let m = times.len();
    let mut k: usize = 0;
    while k < m
        invariant
            k <= m,
            m == times@.len(),
            text@ == l.skip(line_text_start(l, 0)),
            line_tag_times(l, 0) == times@.map_values(|t: u32| t as int),
            out@.map_values(|p: (u32, String)| (p.0 as int, p.1@)) == before.map_values(
                |p: (u32, String)| (p.0 as int, p.1@),
            ) + line_entries(l).take(k as int),
        decreases m - k,
    {
        let ghost out_prev = out@;
        out.push((times[k], text.clone()));
        k = k + 1;
        proof {
            assert(out@.last().0 == times@[k - 1]);
            assert(out@.last().1@ == text@);
            assert(out@.map_values(|p: (u32, String)| (p.0 as int, p.1@)) =~= out_prev.map_values(
                |p: (u32, String)| (p.0 as int, p.1@),
            ).push((times@[k - 1] as int, text@)));
            assert(line_entries(l)[k - 1] == (times@[k - 1] as int, text@));
            assert(line_entries(l).take(k as int) =~= line_entries(l).take(k - 1).push(
                line_entries(l)[k - 1],
            ));
            assert(out@.map_values(|p: (u32, String)| (p.0 as int, p.1@)) =~= before.map_values(
                |p: (u32, String)| (p.0 as int, p.1@),
            ) + line_entries(l).take(k as int));
        }
    }
    proof {
        assert(line_entries(l).take(m as int) =~= line_entries(l));
        assert(out@.map_values(|p: (u32, String)| (p.0 as int, p.1@)) =~= before.map_values(
            |p: (u32, String)| (p.0 as int, p.1@),
        ) + line_entries(l));
    }
}

/// Parses timed lyrics into timestamped lines for a synchronized lyric
/// frame: each line's leading time tags, paired with the line's text.
pub fn synced_lyrics_to_sylt_vec(synced_lyrics: &str) -> (r: Vec<(u32, String)>)
    ensures
        r@.map_values(|p: (u32, String)| (p.0 as int, p.1@)) == sylt_entries(synced_lyrics@),
{
    let cs = crate::text::str_to_chars(synced_lyrics);
    let n = cs.len();
    let mut out: Vec<(u32, String)> = Vec::new();
    let mut pos: usize = 0;
    proof {
        assert(cs@.subrange(0, n as int) =~= cs@);
        assert(out@.map_values(|p: (u32, String)| (p.0 as int, p.1@)) + sylt_entries(cs@)
            =~= sylt_entries(cs@));
    }
    loop
        invariant
            pos <= n,
            n == cs@.len(),
            cs@ == synced_lyrics@,
            sylt_entries(cs@) == out@.map_values(|p: (u32, String)| (p.0 as int, p.1@))
                + sylt_entries(cs@.subrange(pos as int, n as int)),
        decreases n - pos,
    {
        let ghost rem = cs@.subrange(pos as int, n as int);
        let mut j = pos;
        while j < n && cs[j] != '\n'
            invariant
                pos <= j <= n,
                n == cs@.len(),
                forall|k: int| pos <= k < j ==> cs@[k] != '\n',
            decreases n - j,
        {
            j = j + 1;
        }
        proof {
            assert(forall|k: int| 0 <= k < rem.len() ==> rem[k] == cs@[pos + k]);
        }
        let mut lv: Vec<char> = Vec::new();
        crate::text::append_range(&mut lv, &cs, pos, j);
        if j == n {
            proof {
                crate::text::lemma_no_occurrence_find(rem, '\n');
                assert(lv@ =~= rem);
                assert(sylt_entries(rem) == line_entries(rem));
            }
            line_entries_into(&mut out, &lv);
            proof {
                assert(out@.map_values(|p: (u32, String)| (p.0 as int, p.1@)) =~= sylt_entries(
                    cs@,
                ));
            }
            return out;
        }
        proof {
            crate::text::lemma_find_char_of_occurrence(rem, '\n', j - pos);
            assert(rem.subrange(0, j - pos) =~= cs@.subrange(pos as int, j as int));
            assert(rem.subrange(j - pos + 1, rem.len() as int) =~= cs@.subrange(
                j + 1 as int,
                n as int,
            ));
            assert(lv@ =~= rem.subrange(0, j - pos));
            assert(sylt_entries(rem) == line_entries(rem.subrange(0, j - pos)) + sylt_entries(
                rem.subrange(j - pos + 1, rem.len() as int),
            ));
        }
        let ghost out_before = out@;
        line_entries_into(&mut out, &lv);
        proof {
            assert(out@.map_values(|p: (u32, String)| (p.0 as int, p.1@)) + sylt_entries(
                cs@.subrange(j + 1 as int, n as int),
            ) =~= out_before.map_values(|p: (u32, String)| (p.0 as int, p.1@)) + sylt_entries(
                rem,
            ));
        }
        pos = j + 1;
    }
}

/// What to do with the two lyric frames of an MPEG container: write the
/// frame, or remove it when the corresponding lyrics are empty.
pub struct Id3EmbedPlan {
    pub plain: Option<String>,
    pub synced: Option<Vec<(u32, String)>>,
}

/// Plans an MPEG embed: the plain frame is written when the plain lyrics
/// are non-empty, and the synchronized frame is built from the timed
/// lyrics' timestamped lines when those are non-empty.
pub fn id3_embed_plan(plain_lyrics: &str, synced_lyrics: &str) -> (r: Id3EmbedPlan)
    ensures
        plain_lyrics@.len() == 0 ==> r.plain is None,
        plain_lyrics@.len() > 0 ==> crate::persistent_entities::opt_view(r.plain) == Some(
            plain_lyrics@,
        ),
        synced_lyrics@.len() == 0 ==> r.synced is None,
        synced_lyrics@.len() > 0 ==> (r.synced matches Some(v) && v@.map_values(
            |p: (u32, String)| (p.0 as int, p.1@),
        ) == sylt_entries(synced_lyrics@)),
{
    Id3EmbedPlan {
        plain: (if plain_lyrics.unicode_len() > 0 {
            Some(plain_lyrics.to_owned())
        } else {
            None
        }),
        synced: (if synced_lyrics.unicode_len() > 0 {
            Some(synced_lyrics_to_sylt_vec(synced_lyrics))
        } else {
            None
        }),
    }
}

/// Plans a FLAC embed: each entry is written when its lyrics are non-empty
/// and removed otherwise.
pub fn flac_embed_plan(plain_lyrics: &str, synced_lyrics: &str) -> (r: FlacEmbedPlan)
    ensures
        plain_lyrics@.len() == 0 ==> r.plain is None,
        plain_lyrics@.len() > 0 ==> crate::persistent_entities::opt_view(r.plain) == Some(
            plain_lyrics@,
        ),
        synced_lyrics@.len() == 0 ==> r.synced is None,
        synced_lyrics@.len() > 0 ==> crate::persistent_entities::opt_view(r.synced) == Some(
            synced_lyrics@,
        ),
{
    FlacEmbedPlan {
        plain: (if plain_lyrics.unicode_len() > 0 {
            Some(plain_lyrics.to_owned())
        } else {
            None
        }),
        synced: (if synced_lyrics.unicode_len() > 0 {
            Some(synced_lyrics.to_owned())
        } else {
            None
        }),
    }
}

} // verus!
