//! Client-side logic for the remote lyrics provider: response
//! classification for each endpoint, and the proof-of-work challenge solver
//! that authorizes the write operations.

pub mod challenge_solver;
pub mod flag;
pub mod get;
pub mod get_by_id;
pub mod publish;
pub mod request_challenge;
pub mod search;

use vstd::prelude::*;
use vstd::string::StringExecFns;

verus! {

/// What an HTTP status of the provider calls for next.
pub enum StatusOutcome {
    Success,
    NotFound,
    ErrorBody,
    Unknown,
}

/// A base address without its trailing slashes.
pub open spec fn trim_slashes(s: Seq<char>) -> Seq<char>
    decreases s.len(),
{
    if s.len() > 0 && s.last() == '/' {
        trim_slashes(s.drop_last())
    } else {
        s
    }
}

/// Removes the trailing slashes of a configured base address.
pub fn trim_trailing_slashes(s: &str) -> (r: String)
    ensures
        r@ == trim_slashes(s@),
{
    let cs = crate::text::str_to_chars(s);
    let n = cs.len();
    let mut k = n;
    proof {
        assert(s@.subrange(0, n as int) =~= s@);
    }
    while k > 0 && cs[k - 1] == '/'
        invariant
            k <= n,
            n == s@.len(),
            cs@ == s@,
            trim_slashes(s@) == trim_slashes(s@.subrange(0, k as int)),
        decreases k,
    {
        proof {
            let t = s@.subrange(0, k as int);
            assert(t.last() == s@[k - 1]);
            assert(t.drop_last() =~= s@.subrange(0, k - 1));
        }
        k = k - 1;
    }
    proof {
        let t = s@.subrange(0, k as int);
        if k > 0 {
            assert(t.last() == s@[k - 1]);
        }
        assert(trim_slashes(t) == t);
    }
    let mut out: Vec<char> = Vec::new();
    crate::text::append_range(&mut out, &cs, 0, k);
    proof {
        assert(out@ =~= s@.subrange(0, k as int));
    }
    crate::text::chars_to_string(&out)
}

/// The authorization token of a solved challenge: the prefix and the nonce,
/// joined by a colon.
pub fn make_publish_token(prefix: &str, nonce: &str) -> (r: String)
    ensures
        r@ == prefix@ + ":"@ + nonce@,
{
    let mut out = String::from_str(prefix);
    out.append(":");
    out.append(nonce);
    out
}

/// A provider response classified into one of the four lyrics outcomes.
pub enum LrclibResponseOption {
    SyncedLyrics(String),
    UnsyncedLyrics(String),
    IsInstrumental,
    NotFound,
}

/// The lyrics fields of one provider record, already decoded from the wire.
pub struct RawLyricsFields {
    pub plain_lyrics: Option<String>,
    pub synced_lyrics: Option<String>,
    pub instrumental: bool,
}

impl LrclibResponseOption {
    /// Classifies a decoded record: timed lyrics win over plain lyrics,
    /// which win over the instrumental flag; otherwise nothing was found.
    pub fn from_fields(fields: RawLyricsFields) -> (r: LrclibResponseOption)
        ensures
            ({
                match fields.synced_lyrics {
                    Some(s) => r == LrclibResponseOption::SyncedLyrics(s),
                    None => match fields.plain_lyrics {
                        Some(p) => r == LrclibResponseOption::UnsyncedLyrics(p),
                        None => if fields.instrumental {
                            r == LrclibResponseOption::IsInstrumental
                        } else {
                            r == LrclibResponseOption::NotFound
                        },
                    },
                }
            }),
    {
        match fields.synced_lyrics {
            Some(s) => LrclibResponseOption::SyncedLyrics(s),
            None => match fields.plain_lyrics {
                Some(p) => LrclibResponseOption::UnsyncedLyrics(p),
                None => {
                    if fields.instrumental {
                        LrclibResponseOption::IsInstrumental
                    } else {
                        LrclibResponseOption::NotFound
                    }
                },
            },
        }
    }
}

} // verus!
