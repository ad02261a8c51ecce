//! Text normalization for search columns, and timestamp stripping for
//! deriving plain lyrics from timed lyrics.
//!
//! The normalized form is the composition of: a lowercased diacritics-free
//! folding, Unicode lowercasing, replacement of a fixed set of punctuation
//! characters by spaces, removal of apostrophes, and whitespace collapsing.

use vstd::prelude::*;
use vstd::string::StrSliceExecFns;

verus! {

// ---------------------------------------------------------------------------
// Character classes
// ---------------------------------------------------------------------------

/// The Unicode `White_Space` characters, the set used by `char::is_whitespace`
/// and `str::trim`.
pub open spec fn is_ws_char(c: char) -> bool {
    ||| c == '\u{0009}'
    ||| c == '\u{000A}'
    ||| c == '\u{000B}'
    ||| c == '\u{000C}'
    ||| c == '\u{000D}'
    ||| c == ' '
    ||| c == '\u{0085}'
    ||| c == '\u{00A0}'
    ||| c == '\u{1680}'
    ||| c == '\u{2000}'
    ||| c == '\u{2001}'
    ||| c == '\u{2002}'
    ||| c == '\u{2003}'
    ||| c == '\u{2004}'
    ||| c == '\u{2005}'
    ||| c == '\u{2006}'
    ||| c == '\u{2007}'
    ||| c == '\u{2008}'
    ||| c == '\u{2009}'
    ||| c == '\u{200A}'
    ||| c == '\u{2028}'
    ||| c == '\u{2029}'
    ||| c == '\u{202F}'
    ||| c == '\u{205F}'
    ||| c == '\u{3000}'
}

/// The punctuation characters that normalization replaces by a space.
pub open spec fn is_special_char(c: char) -> bool {
    ||| c == '`'
    ||| c == '~'
    ||| c == '!'
    ||| c == '@'
    ||| c == '#'
    ||| c == '$'
    ||| c == '%'
    ||| c == '^'
    ||| c == '&'
    ||| c == '*'
    ||| c == '('
    ||| c == ')'
    ||| c == '_'
    ||| c == '|'
    ||| c == '+'
    ||| c == '-'
    ||| c == '='
    ||| c == '?'
    ||| c == ';'
    ||| c == ':'
    ||| c == '"'
    ||| c == ','
    ||| c == '.'
    ||| c == '<'
    ||| c == '>'
    ||| c == '{'
    ||| c == '}'
    ||| c == '['
    ||| c == ']'
    ||| c == '\\'
    ||| c == '/'
}

// ---------------------------------------------------------------------------
// Spec-level normalization pipeline
// ---------------------------------------------------------------------------

/// What `secular::lower_lay_char` returns for one character: a lowercased,
/// diacritics-free replacement drawn from a fixed table.
pub uninterp spec fn fold_char_of(c: char) -> char;

/// What `str::to_lowercase` returns.
pub uninterp spec fn lower_of(s: Seq<char>) -> Seq<char>;

/// The diacritics folding applied to each character of a string.
pub open spec fn fold_chars(s: Seq<char>) -> Seq<char> {
    s.map_values(|c: char| fold_char_of(c))
}

/// Replacement of every special punctuation character by a space.
pub open spec fn replace_special(s: Seq<char>) -> Seq<char> {
    s.map_values(|c: char| if is_special_char(c) { ' ' } else { c })
}

/// Removal of every apostrophe.
pub open spec fn strip_apos(s: Seq<char>) -> Seq<char> {
    s.filter(|c: char| c != '\'')
}

/// Removal of leading whitespace.
pub open spec fn trim_start_spec(s: Seq<char>) -> Seq<char>
    decreases s.len(),
{
    if s.len() > 0 && is_ws_char(s[0]) {
        trim_start_spec(s.drop_first())
    } else {
        s
    }
}

/// Removal of trailing whitespace.
pub open spec fn trim_end_spec(s: Seq<char>) -> Seq<char>
    decreases s.len(),
{
    if s.len() > 0 && is_ws_char(s.last()) {
        trim_end_spec(s.drop_last())
    } else {
        s
    }
}

/// Removal of leading and trailing whitespace, as `str::trim` does.
pub open spec fn trim_spec(s: Seq<char>) -> Seq<char> {
    trim_end_spec(trim_start_spec(s))
}

/// Each maximal whitespace run becomes a single space; `prev_ws` says whether
/// the previously consumed character was whitespace.
pub open spec fn squash_ws(s: Seq<char>, prev_ws: bool) -> Seq<char>
    decreases s.len(),
{
    if s.len() == 0 {
        Seq::<char>::empty()
    } else if is_ws_char(s[0]) {
        if prev_ws {
            squash_ws(s.drop_first(), true)
        } else {
            seq![' '] + squash_ws(s.drop_first(), true)
        }
    } else {
        seq![s[0]] + squash_ws(s.drop_first(), false)
    }
}

/// What `collapse::collapse` returns: the trimmed string with every maximal
/// whitespace run replaced by one space.
pub open spec fn collapse_spec(s: Seq<char>) -> Seq<char> {
    squash_ws(trim_spec(s), false)
}

/// The whole normalized form of a string.
pub open spec fn norm_spec(s: Seq<char>) -> Seq<char> {
    collapse_spec(strip_apos(replace_special(lower_of(fold_chars(s)))))
}

/// A character that survives normalization: not a replaced punctuation
/// character and not an apostrophe.
pub open spec fn clean_char(c: char) -> bool {
    !is_special_char(c) && c != '\''
}

// ---------------------------------------------------------------------------
// Trusted wrappers around the outside folding and collapsing calls
// ---------------------------------------------------------------------------

/// Relies on `secular::lower_lay_string`: maps each character through a fixed
/// lowercasing, diacritics-removing table, preserving the character count.
#[verifier::external_body]
fn fold_lay(s: &str) -> (r: String)
    ensures
        r@ == fold_chars(s@),
        forall|i: int| 0 <= i < s@.len() ==> r@[i] == fold_char_of(s@[i]),
{
    secular::lower_lay_string(s)
}

/// Relies on `str::to_lowercase`: the result depends on the characters alone.
#[verifier::external_body]
fn lowercase(s: &str) -> (r: String)
    ensures
        r@ == lower_of(s@),
{
    s.to_lowercase()
}

/// Relies on `collapse::collapse`: trims the string and replaces each maximal
/// whitespace run by a single space.
#[verifier::external_body]
fn collapse_ws(s: &str) -> (r: String)
    ensures
        r@ == collapse_spec(s@),
{
    collapse::collapse(s)
}

/// Relies on `String::push`: appends one character.
#[verifier::external_body]
fn push_char(s: &mut String, c: char)
    ensures
        final(s)@ == old(s)@.push(c),
{
    s.push(c);
}

// ---------------------------------------------------------------------------
// Executable helpers
// ---------------------------------------------------------------------------

/// Collects the characters of a string slice into a vector.
pub fn str_to_chars(s: &str) -> (r: Vec<char>)
    ensures
        r@ == s@,
{
    let n = s.unicode_len();
    let mut out: Vec<char> = Vec::new();
    let mut i: usize = 0;
    while i < n
        invariant
            i <= n,
            n == s@.len(),
            out@ == s@.subrange(0, i as int),
        decreases n - i,
    {
        out.push(s.get_char(i));
        i = i + 1;
        assert(out@ =~= s@.subrange(0, i as int));
    }
    assert(out@ =~= s@);
    out
}

/// Builds a string from a vector of characters.
pub fn chars_to_string(v: &Vec<char>) -> (r: String)
    ensures
        r@ == v@,
{
    let mut out = String::new();
    let mut i: usize = 0;
    while i < v.len()
        invariant
            i <= v.len(),
            out@ == v@.subrange(0, i as int),
        decreases v.len() - i,
    {
        push_char(&mut out, v[i]);
        i = i + 1;
        assert(out@ =~= v@.subrange(0, i as int));
    }
    assert(out@ =~= v@);
    out
}

/// Decides whether a character is whitespace.
pub fn is_whitespace_char(c: char) -> (r: bool)
    ensures
        r == is_ws_char(c),
{
    c == '\u{0009}' || c == '\u{000A}' || c == '\u{000B}' || c == '\u{000C}' || c == '\u{000D}'
        || c == ' ' || c == '\u{0085}' || c == '\u{00A0}' || c == '\u{1680}' || c == '\u{2000}'
        || c == '\u{2001}' || c == '\u{2002}' || c == '\u{2003}' || c == '\u{2004}'
        || c == '\u{2005}' || c == '\u{2006}' || c == '\u{2007}' || c == '\u{2008}'
        || c == '\u{2009}' || c == '\u{200A}' || c == '\u{2028}' || c == '\u{2029}'
        || c == '\u{202F}' || c == '\u{205F}' || c == '\u{3000}'
}

/// Compares two string slices character by character.
pub fn str_eq(a: &str, b: &str) -> (r: bool)
    ensures
        r == (a@ == b@),
{
    let na = a.unicode_len();
    let nb = b.unicode_len();
    if na != nb {
        return false;
    }
    let mut i: usize = 0;
    while i < na
        invariant
            i <= na,
            na == a@.len() == b@.len(),
            forall|k: int| 0 <= k < i ==> a@[k] == b@[k],
        decreases na - i,
    {
        if a.get_char(i) != b.get_char(i) {
            return false;
        }
        i = i + 1;
    }
    assert(a@ =~= b@);
    true
}

/// Lexicographic order on strings by code point, the order the store's
/// sorted listings use on normalized columns.
pub open spec fn lex_leq(a: Seq<char>, b: Seq<char>) -> bool
    decreases a.len(),
{
    if a.len() == 0 {
        true
    } else if b.len() == 0 {
        false
    } else if a[0] != b[0] {
        a[0] < b[0]
    } else {
        lex_leq(a.drop_first(), b.drop_first())
    }
}

/// The lexicographic order is total.
pub proof fn lemma_lex_total(a: Seq<char>, b: Seq<char>)
    ensures
        lex_leq(a, b) || lex_leq(b, a),
    decreases a.len(),
{
    if a.len() > 0 && b.len() > 0 && a[0] == b[0] {
        lemma_lex_total(a.drop_first(), b.drop_first());
    }
}

/// The lexicographic order is antisymmetric.
pub proof fn lemma_lex_antisym(a: Seq<char>, b: Seq<char>)
    requires
        lex_leq(a, b),
        lex_leq(b, a),
    ensures
        a == b,
    decreases a.len(),
{
    if a.len() == 0 {
        assert(b.len() == 0);
        assert(a =~= b);
    } else {
        assert(b.len() > 0);
        assert(a[0] == b[0]);
        let ta = a.drop_first();
        let tb = b.drop_first();
        lemma_lex_antisym(ta, tb);
        assert(a.len() == ta.len() + 1 && b.len() == tb.len() + 1);
        assert forall|i: int| 0 <= i < a.len() implies a[i] == b[i] by {
            if i > 0 {
                assert(a[i] == ta[i - 1]);
                assert(b[i] == tb[i - 1]);
            }
        }
        assert(a =~= b);
    }
}

/// The lexicographic order is transitive.
pub proof fn lemma_lex_trans(a: Seq<char>, b: Seq<char>, c: Seq<char>)
    requires
        lex_leq(a, b),
        lex_leq(b, c),
    ensures
        lex_leq(a, c),
    decreases a.len(),
{
    if a.len() > 0 && b.len() > 0 && c.len() > 0 && a[0] == b[0] && b[0] == c[0] {
        lemma_lex_trans(a.drop_first(), b.drop_first(), c.drop_first());
    }
}

/// Decides the lexicographic order on string slices.
pub fn str_leq(a: &str, b: &str) -> (r: bool)
    ensures
        r == lex_leq(a@, b@),
{
    let na = a.unicode_len();
    let nb = b.unicode_len();
    let mut i: usize = 0;
    proof {
        assert(a@.skip(0) =~= a@);
        assert(b@.skip(0) =~= b@);
    }
    loop
        invariant
            i <= na,
            i <= nb,
            na == a@.len(),
            nb == b@.len(),
            lex_leq(a@, b@) == lex_leq(a@.skip(i as int), b@.skip(i as int)),
        decreases na - i,
    {
        proof {
            let ra = a@.skip(i as int);
            let rb = b@.skip(i as int);
            if ra.len() > 0 && rb.len() > 0 {
                assert(ra[0] == a@[i as int]);
                assert(rb[0] == b@[i as int]);
                assert(ra.drop_first() =~= a@.skip(i + 1));
                assert(rb.drop_first() =~= b@.skip(i + 1));
            }
        }
        if i >= na {
            assert(a@.skip(i as int).len() == 0);
            return true;
        }
        if i >= nb {
            assert(b@.skip(i as int).len() == 0);
            return false;
        }
        let ca = a.get_char(i);
        let cb = b.get_char(i);
        if ca != cb {
            return ca < cb;
        }
        i = i + 1;
    }
}

/// One string occurs inside another.
pub open spec fn is_substring(needle: Seq<char>, hay: Seq<char>) -> bool {
    exists|i: int|
        0 <= i <= hay.len() - needle.len() && #[trigger] hay.subrange(i, i + needle.len())
            == needle
}

/// Decides whether one string occurs inside another.
pub fn str_contains(hay: &str, needle: &str) -> (r: bool)
    ensures
        r == is_substring(needle@, hay@),
{
    let hs = str_to_chars(hay);
    let ns = str_to_chars(needle);
    let hl = hs.len();
    let nl = ns.len();
    if nl > hl {
        proof {
            if is_substring(needle@, hay@) {
                let i = choose|i: int|
                    0 <= i <= hay@.len() - needle@.len() && #[trigger] hay@.subrange(
                        i,
                        i + needle@.len(),
                    ) == needle@;
                assert(false);
            }
        }
        return false;
    }
    let mut i: usize = 0;
    while i <= hl - nl
        invariant
            nl <= hl,
            i <= hl - nl,
            hl == hay@.len(),
            nl == needle@.len(),
            hs@ == hay@,
            ns@ == needle@,
            forall|i0: int|
                0 <= i0 < i ==> #[trigger] hay@.subrange(i0, i0 + needle@.len()) != needle@,
        decreases hl - nl - i,
    {
        let mut j: usize = 0;
        let mut hit = true;
        while j < nl
            invariant
                j <= nl,
                i + nl <= hl,
                hl == hay@.len(),
                nl == needle@.len(),
                hs@ == hay@,
                ns@ == needle@,
                hit ==> forall|k: int| 0 <= k < j ==> hay@[i + k] == needle@[k],
                !hit ==> hay@.subrange(i as int, i + needle@.len()) != needle@,
            decreases nl - j,
        {
            if hs[i + j] != ns[j] {
                proof {
                    let sub = hay@.subrange(i as int, i + needle@.len());
                    assert(sub[j as int] == hay@[i + j]);
                }
                hit = false;
                j = nl;
            } else {
                j = j + 1;
            }
        }
        if hit {
            proof {
                assert(hay@.subrange(i as int, i + needle@.len()) =~= needle@);
            }
            return true;
        }
        if i == hl - nl {
            proof {
                assert forall|i0: int|
                    0 <= i0 <= hay@.len() - needle@.len() implies #[trigger] hay@.subrange(
                    i0,
                    i0 + needle@.len(),
                ) != needle@ by {
                    assert(i0 <= i);
                }
            }
            return false;
        }
        i = i + 1;
    }
    proof {
        assert(false);
    }
    false
}

/// Decides whether a character is one of the replaced punctuation characters.
pub fn is_special(c: char) -> (r: bool)
    ensures
        r == is_special_char(c),
{
    c == '`' || c == '~' || c == '!' || c == '@' || c == '#' || c == '$' || c == '%' || c == '^'
        || c == '&' || c == '*' || c == '(' || c == ')' || c == '_' || c == '|' || c == '+'
        || c == '-' || c == '=' || c == '?' || c == ';' || c == ':' || c == '"' || c == ','
        || c == '.' || c == '<' || c == '>' || c == '{' || c == '}' || c == '[' || c == ']'
        || c == '\\' || c == '/'
}

/// Replaces each special punctuation character of a string by a space.
fn replace_special_exec(s: &str) -> (r: String)
    ensures
        r@ == replace_special(s@),
{
    let cs = str_to_chars(s);
    let mut out: Vec<char> = Vec::new();
    let mut i: usize = 0;
    while i < cs.len()
        invariant
            i <= cs.len(),
            cs@ == s@,
            out@ == replace_special(s@.subrange(0, i as int)),
        decreases cs.len() - i,
    {
        let c = cs[i];
        if is_special(c) {
            out.push(' ');
        } else {
            out.push(c);
        }
        i = i + 1;
        assert(out@ =~= replace_special(s@.subrange(0, i as int))) by {
            assert(s@.subrange(0, i as int).drop_last() =~= s@.subrange(0, i as int - 1));
        }
    }
    assert(s@.subrange(0, s@.len() as int) =~= s@);
    chars_to_string(&out)
}

/// Removes every apostrophe from a string.
fn strip_apos_exec(s: &str) -> (r: String)
    ensures
        r@ == strip_apos(s@),
{
    let cs = str_to_chars(s);
    let mut out: Vec<char> = Vec::new();
    let mut i: usize = 0;
    while i < cs.len()
        invariant
            i <= cs.len(),
            cs@ == s@,
            out@ == strip_apos(s@.subrange(0, i as int)),
        decreases cs.len() - i,
    {
        let c = cs[i];
        if c != '\'' {
            out.push(c);
        }
        i = i + 1;
        assert(out@ =~= strip_apos(s@.subrange(0, i as int))) by {
            assert(s@.subrange(0, i as int).drop_last() =~= s@.subrange(0, i as int - 1));
            reveal(Seq::filter);
        }
    }
    assert(s@.subrange(0, s@.len() as int) =~= s@);
    chars_to_string(&out)
}

// ---------------------------------------------------------------------------
// The public normalizer
// ---------------------------------------------------------------------------

/// Folds a string to its normalized search form: diacritics-free, lowercase,
/// with punctuation replaced by spaces, apostrophes removed and whitespace
/// collapsed; the result holds no replaced punctuation character and no
/// apostrophe.
pub fn prepare_input(input: &str) -> (r: String)
    ensures
        r@ == norm_spec(input@),
        forall|i: int| 0 <= i < r@.len() ==> clean_char(#[trigger] r@[i]),
{
    let folded = fold_lay(input);
    let lowered = lowercase(folded.as_str());
    let replaced = replace_special_exec(lowered.as_str());
    let stripped = strip_apos_exec(replaced.as_str());
    let r = collapse_ws(stripped.as_str());
    proof {
        lemma_norm_clean(input@);
        assert(r@ == norm_spec(input@));
        assert forall|i: int| 0 <= i < r@.len() implies clean_char(#[trigger] r@[i]) by {
            assert(r@[i] == norm_spec(input@)[i]);
        }
    }
    r
}

// ---------------------------------------------------------------------------
// Decimal rendering of integers
// ---------------------------------------------------------------------------

/// The decimal digit character for a value below ten.
pub open spec fn dec_digit(d: nat) -> char
    recommends
        d < 10,
{
    (48 + d) as u8 as char
}

/// The decimal representation of a natural number, most significant digit
/// first, with no leading zeros.
pub open spec fn dec_str(n: nat) -> Seq<char>
    decreases n,
{
    if n < 10 {
        seq![dec_digit(n)]
    } else {
        dec_str(n / 10).push(dec_digit(n % 10))
    }
}

// ---------------------------------------------------------------------------
// Idempotence of the verified normalization steps
// ---------------------------------------------------------------------------

/// Every whitespace character of the sequence is a plain space.
pub open spec fn all_ws_spaces(r: Seq<char>) -> bool {
    forall|i: int| 0 <= i < r.len() ==> (is_ws_char(#[trigger] r[i]) ==> r[i] == ' ')
}

/// No two adjacent characters of the sequence are both whitespace.
pub open spec fn no_adjacent_ws(r: Seq<char>) -> bool {
    forall|i: int| 0 <= i && i + 1 < r.len() ==> !(is_ws_char(#[trigger] r[i]) && is_ws_char(r[i + 1]))
}

/// Punctuation replacement is idempotent: a space is not itself replaced.
pub proof fn lemma_replace_special_idempotent(s: Seq<char>)
    ensures
        replace_special(replace_special(s)) == replace_special(s),
{
    assert(replace_special(replace_special(s)) =~= replace_special(s));
}

/// Apostrophe removal is idempotent.
pub proof fn lemma_strip_apos_idempotent(s: Seq<char>)
    ensures
        strip_apos(strip_apos(s)) == strip_apos(s),
    decreases s.len(),
{
    reveal(Seq::filter);
    if s.len() == 0 {
        assert(strip_apos(s) =~= Seq::<char>::empty());
        assert(strip_apos(strip_apos(s)) =~= strip_apos(s));
    } else {
        let t = s.drop_last();
        lemma_strip_apos_idempotent(t);
        if s.last() != '\'' {
            assert(strip_apos(s) == strip_apos(t).push(s.last()));
            assert(strip_apos(strip_apos(t).push(s.last()))
                == strip_apos(strip_apos(t)).push(s.last())) by {
                assert(strip_apos(t).push(s.last()).drop_last() =~= strip_apos(t));
                assert(strip_apos(t).push(s.last()).last() == s.last());
            }
        } else {
            assert(strip_apos(s) == strip_apos(t));
        }
    }
}

proof fn lemma_squash_canonical(t: Seq<char>, prev_ws: bool)
    ensures
        all_ws_spaces(squash_ws(t, prev_ws)),
        no_adjacent_ws(squash_ws(t, prev_ws)),
        squash_ws(t, prev_ws).len() > 0 && prev_ws ==> !is_ws_char(squash_ws(t, prev_ws)[0]),
    decreases t.len(),
{
    if t.len() == 0 {
    } else if is_ws_char(t[0]) {
        lemma_squash_canonical(t.drop_first(), true);
        if !prev_ws {
            let rest = squash_ws(t.drop_first(), true);
            let r = seq![' '] + rest;
            assert forall|i: int| 0 <= i < r.len() && is_ws_char(#[trigger] r[i]) implies r[i]
                == ' ' by {
                if i > 0 {
                    assert(r[i] == rest[i - 1]);
                }
            }
            assert forall|i: int| 0 <= i && i + 1 < r.len() implies !(is_ws_char(#[trigger] r[i])
                && is_ws_char(r[i + 1])) by {
                if i == 0 {
                    assert(r[1] == rest[0]);
                } else {
                    assert(r[i] == rest[i - 1] && r[i + 1] == rest[i]);
                }
            }
        }
    } else {
        lemma_squash_canonical(t.drop_first(), false);
        let rest = squash_ws(t.drop_first(), false);
        let r = seq![t[0]] + rest;
        assert forall|i: int| 0 <= i < r.len() && is_ws_char(#[trigger] r[i]) implies r[i]
            == ' ' by {
            if i > 0 {
                assert(r[i] == rest[i - 1]);
            }
        }
        assert forall|i: int| 0 <= i && i + 1 < r.len() implies !(is_ws_char(#[trigger] r[i])
            && is_ws_char(r[i + 1])) by {
            if i == 0 {
                assert(r[1] == rest[0]);
            } else {
                assert(r[i] == rest[i - 1] && r[i + 1] == rest[i]);
            }
        }
    }
}

proof fn lemma_squash_first(t: Seq<char>, prev_ws: bool)
    requires
        t.len() > 0,
        !is_ws_char(t[0]),
    ensures
        squash_ws(t, prev_ws).len() > 0,
        squash_ws(t, prev_ws)[0] == t[0],
{
}

proof fn lemma_squash_last(t: Seq<char>, prev_ws: bool)
    requires
        t.len() > 0,
        !is_ws_char(t.last()),
    ensures
        squash_ws(t, prev_ws).len() > 0,
        squash_ws(t, prev_ws).last() == t.last(),
    decreases t.len(),
{
    if t.len() == 1 {
        assert(t[0] == t.last());
        assert(squash_ws(t, prev_ws) == seq![t[0]] + squash_ws(t.drop_first(), false));
        assert(t.drop_first().len() == 0);
        assert(squash_ws(t.drop_first(), false) == Seq::<char>::empty());
        assert(squash_ws(t, prev_ws) =~= seq![t[0]]);
    } else {
        let rest = t.drop_first();
        assert(rest.last() == t.last());
        assert(rest.len() > 0);
        if is_ws_char(t[0]) {
            lemma_squash_last(rest, true);
            if prev_ws {
                assert(squash_ws(t, prev_ws) == squash_ws(rest, true));
            } else {
                assert(squash_ws(t, prev_ws) == seq![' '] + squash_ws(rest, true));
                assert((seq![' '] + squash_ws(rest, true)).last() == squash_ws(rest, true).last());
            }
        } else {
            lemma_squash_last(rest, false);
            assert(squash_ws(t, prev_ws) == seq![t[0]] + squash_ws(rest, false));
            assert((seq![t[0]] + squash_ws(rest, false)).last() == squash_ws(rest, false).last());
        }
    }
}

proof fn lemma_squash_idem(r: Seq<char>)
    requires
        all_ws_spaces(r),
        no_adjacent_ws(r),
    ensures
        squash_ws(r, false) == r,
    decreases r.len(),
{
    if r.len() == 0 {
        assert(squash_ws(r, false) =~= r);
    } else {
        let rest = r.drop_first();
        assert(forall|i: int| 0 <= i < rest.len() ==> rest[i] == r[i + 1]);
        assert(all_ws_spaces(rest)) by {
            assert forall|i: int| 0 <= i < rest.len() && is_ws_char(#[trigger] rest[i])
                implies rest[i] == ' ' by {
                assert(rest[i] == r[i + 1]);
            }
        }
        assert(no_adjacent_ws(rest)) by {
            assert forall|i: int| 0 <= i && i + 1 < rest.len() implies !(is_ws_char(
                #[trigger] rest[i],
            ) && is_ws_char(rest[i + 1])) by {
                assert(rest[i] == r[i + 1] && rest[i + 1] == r[i + 2]);
            }
        }
        lemma_squash_idem(rest);
        if is_ws_char(r[0]) {
            assert(r[0] == ' ');
            assert(squash_ws(r, false) == seq![' '] + squash_ws(rest, true));
            if rest.len() == 0 {
                assert(squash_ws(rest, true) == Seq::<char>::empty());
                assert(squash_ws(r, false) =~= r);
            } else {
                assert(rest[0] == r[1]);
                assert(!is_ws_char(rest[0]));
                assert(squash_ws(rest, true) == seq![rest[0]] + squash_ws(
                    rest.drop_first(),
                    false,
                ));
                assert(squash_ws(rest, false) == seq![rest[0]] + squash_ws(
                    rest.drop_first(),
                    false,
                ));
                assert(squash_ws(rest, true) == rest);
                assert(squash_ws(r, false) =~= r);
            }
        } else {
            assert(squash_ws(r, false) == seq![r[0]] + squash_ws(rest, false));
            assert(squash_ws(r, false) =~= r);
        }
    }
}

proof fn lemma_trim_start_props(s: Seq<char>)
    ensures
        trim_start_spec(s).len() > 0 ==> !is_ws_char(trim_start_spec(s)[0]),
        trim_start_spec(s).len() > 0 ==> trim_start_spec(s).last() == s.last() && s.len() > 0,
    decreases s.len(),
{
    if s.len() > 0 && is_ws_char(s[0]) {
        lemma_trim_start_props(s.drop_first());
        if trim_start_spec(s).len() > 0 {
            assert(s.drop_first().last() == s.last());
        }
    }
}

proof fn lemma_trim_end_props(s: Seq<char>)
    ensures
        trim_end_spec(s).len() > 0 ==> !is_ws_char(trim_end_spec(s).last()),
        trim_end_spec(s).len() > 0 ==> trim_end_spec(s)[0] == s[0] && s.len() > 0,
    decreases s.len(),
{
    if s.len() > 0 && is_ws_char(s.last()) {
        lemma_trim_end_props(s.drop_last());
        if trim_end_spec(s).len() > 0 {
            assert(s.drop_last()[0] == s[0]);
        }
    }
}

/// Whitespace collapsing is idempotent.
pub proof fn lemma_collapse_idempotent(s: Seq<char>)
    ensures
        collapse_spec(collapse_spec(s)) == collapse_spec(s),
{
    let t = trim_spec(s);
    let r = collapse_spec(s);
    lemma_trim_start_props(s);
    lemma_trim_end_props(trim_start_spec(s));
    lemma_squash_canonical(t, false);
    if t.len() == 0 {
        assert(r =~= Seq::<char>::empty());
        assert(collapse_spec(r) =~= r);
    } else {
        assert(!is_ws_char(t[0])) by {
            assert(trim_start_spec(s).len() > 0);
            assert(t[0] == trim_start_spec(s)[0]);
        }
        assert(!is_ws_char(t.last()));
        lemma_squash_first(t, false);
        lemma_squash_last(t, false);
        assert(trim_start_spec(r) == r);
        assert(trim_end_spec(r) == r);
        lemma_squash_idem(r);
    }
}

proof fn lemma_replace_special_clean(s: Seq<char>)
    ensures
        forall|i: int|
            0 <= i < replace_special(s).len() ==> !is_special_char(
                #[trigger] replace_special(s)[i],
            ),
{
    assert forall|i: int| 0 <= i < replace_special(s).len() implies !is_special_char(
        #[trigger] replace_special(s)[i],
    ) by {
        assert(replace_special(s)[i] == (if is_special_char(s[i]) {
            ' '
        } else {
            s[i]
        }));
    }
}

proof fn lemma_strip_apos_clean(s: Seq<char>)
    requires
        forall|i: int| 0 <= i < s.len() ==> !is_special_char(#[trigger] s[i]),
    ensures
        forall|i: int| 0 <= i < strip_apos(s).len() ==> clean_char(#[trigger] strip_apos(s)[i]),
    decreases s.len(),
{
    reveal(Seq::filter);
    if s.len() > 0 {
        let t = s.drop_last();
        assert(forall|i: int| 0 <= i < t.len() ==> t[i] == s[i]);
        lemma_strip_apos_clean(t);
        if s.last() != '\'' {
            assert(strip_apos(s) == strip_apos(t).push(s.last()));
            assert(!is_special_char(s.last()));
            assert forall|i: int| 0 <= i < strip_apos(s).len() implies clean_char(
                #[trigger] strip_apos(s)[i],
            ) by {
                if i < strip_apos(s).len() - 1 {
                    assert(strip_apos(s)[i] == strip_apos(t)[i]);
                } else {
                    assert(strip_apos(s)[i] == s.last());
                }
            }
        } else {
            assert(strip_apos(s) == strip_apos(t));
        }
    }
}

proof fn lemma_trim_start_clean(s: Seq<char>)
    requires
        forall|i: int| 0 <= i < s.len() ==> clean_char(#[trigger] s[i]),
    ensures
        forall|i: int|
            0 <= i < trim_start_spec(s).len() ==> clean_char(#[trigger] trim_start_spec(s)[i]),
    decreases s.len(),
{
    if s.len() > 0 && is_ws_char(s[0]) {
        let t = s.drop_first();
        assert(forall|i: int| 0 <= i < t.len() ==> t[i] == s[i + 1]);
        lemma_trim_start_clean(t);
        assert forall|i: int| 0 <= i < trim_start_spec(s).len() implies clean_char(
            #[trigger] trim_start_spec(s)[i],
        ) by {
            assert(trim_start_spec(s)[i] == trim_start_spec(t)[i]);
        }
    } else {
        assert forall|i: int| 0 <= i < trim_start_spec(s).len() implies clean_char(
            #[trigger] trim_start_spec(s)[i],
        ) by {
            assert(trim_start_spec(s)[i] == s[i]);
        }
    }
}

proof fn lemma_trim_end_clean(s: Seq<char>)
    requires
        forall|i: int| 0 <= i < s.len() ==> clean_char(#[trigger] s[i]),
    ensures
        forall|i: int|
            0 <= i < trim_end_spec(s).len() ==> clean_char(#[trigger] trim_end_spec(s)[i]),
    decreases s.len(),
{
    if s.len() > 0 && is_ws_char(s.last()) {
        let t = s.drop_last();
        assert(forall|i: int| 0 <= i < t.len() ==> t[i] == s[i]);
        lemma_trim_end_clean(t);
        assert forall|i: int| 0 <= i < trim_end_spec(s).len() implies clean_char(
            #[trigger] trim_end_spec(s)[i],
        ) by {
            assert(trim_end_spec(s)[i] == trim_end_spec(t)[i]);
        }
    } else {
        assert forall|i: int| 0 <= i < trim_end_spec(s).len() implies clean_char(
            #[trigger] trim_end_spec(s)[i],
        ) by {
            assert(trim_end_spec(s)[i] == s[i]);
        }
    }
}

proof fn lemma_squash_clean(t: Seq<char>, prev_ws: bool)
    requires
        forall|i: int| 0 <= i < t.len() ==> clean_char(#[trigger] t[i]),
    ensures
        forall|i: int|
            0 <= i < squash_ws(t, prev_ws).len() ==> clean_char(#[trigger] squash_ws(t, prev_ws)[i]),
    decreases t.len(),
{
    if t.len() > 0 {
        let rest = t.drop_first();
        assert(forall|i: int| 0 <= i < rest.len() ==> rest[i] == t[i + 1]);
        if is_ws_char(t[0]) {
            lemma_squash_clean(rest, true);
            if !prev_ws {
                let r = seq![' '] + squash_ws(rest, true);
                assert forall|i: int| 0 <= i < r.len() implies clean_char(#[trigger] r[i]) by {
                    if i > 0 {
                        assert(r[i] == squash_ws(rest, true)[i - 1]);
                    }
                }
            }
        } else {
            lemma_squash_clean(rest, false);
            let r = seq![t[0]] + squash_ws(rest, false);
            assert forall|i: int| 0 <= i < r.len() implies clean_char(#[trigger] r[i]) by {
                if i > 0 {
                    assert(r[i] == squash_ws(rest, false)[i - 1]);
                }
            }
        }
    }
}

/// Every character of a normalized form survives normalization: the
/// replacement and removal steps run after the case folding, and whitespace
/// collapsing introduces only plain spaces.
pub proof fn lemma_norm_clean(s: Seq<char>)
    ensures
        forall|i: int| 0 <= i < norm_spec(s).len() ==> clean_char(#[trigger] norm_spec(s)[i]),
{
    let w = lower_of(fold_chars(s));
    lemma_replace_special_clean(w);
    lemma_strip_apos_clean(replace_special(w));
    let z = strip_apos(replace_special(w));
    lemma_trim_start_clean(z);
    lemma_trim_end_clean(trim_start_spec(z));
    lemma_squash_clean(trim_spec(z), false);
}

proof fn lemma_replace_identity(s: Seq<char>)
    requires
        forall|i: int| 0 <= i < s.len() ==> !is_special_char(#[trigger] s[i]),
    ensures
        replace_special(s) == s,
{
    assert(replace_special(s) =~= s);
}

proof fn lemma_strip_identity(s: Seq<char>)
    requires
        forall|i: int| 0 <= i < s.len() ==> s[i] != '\'',
    ensures
        strip_apos(s) == s,
    decreases s.len(),
{
    reveal(Seq::filter);
    if s.len() > 0 {
        let t = s.drop_last();
        assert(forall|i: int| 0 <= i < t.len() ==> t[i] == s[i]);
        lemma_strip_identity(t);
        assert(strip_apos(s) == strip_apos(t).push(s.last()));
        assert(strip_apos(s) =~= s);
    }
}

/// Normalization is idempotent on every string whose normalized form the
/// two outside case-folding steps leave unchanged: a normalized form holds
/// no replaced punctuation and no apostrophe, so the second pass reduces to
/// a second whitespace collapse, which changes nothing.
pub proof fn lemma_normalize_idempotent(s: Seq<char>)
    ensures
        (fold_chars(norm_spec(s)) == norm_spec(s) && lower_of(norm_spec(s)) == norm_spec(s))
            ==> norm_spec(norm_spec(s)) == norm_spec(s),
{
    let n = norm_spec(s);
    if fold_chars(n) == n && lower_of(n) == n {
        lemma_norm_clean(s);
        lemma_replace_identity(n);
        assert forall|i: int| 0 <= i < n.len() implies n[i] != '\'' by {
            assert(clean_char(n[i]));
        }
        lemma_strip_identity(n);
        assert(norm_spec(n) == collapse_spec(n));
        lemma_collapse_idempotent(strip_apos(replace_special(lower_of(fold_chars(s)))));
    }
}

// ---------------------------------------------------------------------------
// Timestamp stripping
// ---------------------------------------------------------------------------

/// The index of the first occurrence of a character, or -1.
pub open spec fn find_char(s: Seq<char>, c: char) -> int
    decreases s.len(),
{
    if s.len() == 0 {
        -1
    } else if s[0] == c {
        0
    } else if find_char(s.drop_first(), c) == -1 {
        -1
    } else {
        find_char(s.drop_first(), c) + 1
    }
}

/// The index of the last occurrence of a character, or -1.
pub open spec fn last_index_of(s: Seq<char>, c: char) -> int
    decreases s.len(),
{
    if s.len() == 0 {
        -1
    } else if s.last() == c {
        s.len() - 1
    } else {
        last_index_of(s.drop_last(), c)
    }
}

/// Removal of leading plain spaces.
pub open spec fn skip_spaces(s: Seq<char>) -> Seq<char>
    decreases s.len(),
{
    if s.len() > 0 && s[0] == ' ' {
        skip_spaces(s.drop_first())
    } else {
        s
    }
}

/// One line with any leading `[...]` timestamp token removed: if the line
/// starts with `[` and contains `]`, everything through the last `]` and any
/// spaces after it are dropped.
pub open spec fn strip_ts_line(l: Seq<char>) -> Seq<char> {
    if l.len() > 0 && l[0] == '[' && last_index_of(l, ']') >= 0 {
        skip_spaces(l.subrange(last_index_of(l, ']') + 1, l.len() as int))
    } else {
        l
    }
}

/// Timestamp stripping applied to each line of a string.
pub open spec fn strip_timestamp_spec(s: Seq<char>) -> Seq<char>
    decreases s.len(),
{
    let i = find_char(s, '\n');
    if 0 <= i < s.len() {
        strip_ts_line(s.subrange(0, i)) + seq!['\n'] + strip_timestamp_spec(
            s.subrange(i + 1, s.len() as int),
        )
    } else {
        strip_ts_line(s)
    }
}

pub proof fn lemma_find_char_props(s: Seq<char>, c: char)
    ensures
        find_char(s, c) == -1 ==> forall|k: int| 0 <= k < s.len() ==> s[k] != c,
        find_char(s, c) != -1 ==> 0 <= find_char(s, c) < s.len() && s[find_char(s, c)] == c
            && forall|k: int| 0 <= k < find_char(s, c) ==> s[k] != c,
    decreases s.len(),
{
    if s.len() == 0 {
    } else if s[0] == c {
    } else {
        let t = s.drop_first();
        lemma_find_char_props(t, c);
        if find_char(t, c) == -1 {
            assert forall|k: int| 0 <= k < s.len() implies s[k] != c by {
                if k > 0 {
                    assert(t[k - 1] == s[k]);
                    assert(t[k - 1] != c);
                }
            }
        } else {
            let f = find_char(t, c);
            assert(find_char(s, c) == f + 1);
            assert(s[f + 1] == t[f]);
            assert forall|k: int| 0 <= k < f + 1 implies s[k] != c by {
                if k > 0 {
                    assert(t[k - 1] == s[k]);
                    assert(t[k - 1] != c);
                }
            }
        }
    }
}

pub proof fn lemma_find_char_of_occurrence(s: Seq<char>, c: char, m: int)
    requires
        0 <= m < s.len(),
        s[m] == c,
        forall|k: int| 0 <= k < m ==> s[k] != c,
    ensures
        find_char(s, c) == m,
{
    lemma_find_char_props(s, c);
    if find_char(s, c) == -1 {
        assert(false);
    } else {
        let f = find_char(s, c);
        if f < m {
            assert(s[f] != c);
            assert(false);
        }
        if f > m {
            assert(s[m] != c);
            assert(false);
        }
    }
}

pub proof fn lemma_no_occurrence_find(s: Seq<char>, c: char)
    requires
        forall|k: int| 0 <= k < s.len() ==> s[k] != c,
    ensures
        find_char(s, c) == -1,
{
    lemma_find_char_props(s, c);
    if find_char(s, c) != -1 {
        assert(s[find_char(s, c)] == c);
        assert(false);
    }
}

pub proof fn lemma_last_index_of_occurrence(s: Seq<char>, c: char, m: int)
    requires
        0 <= m < s.len(),
        s[m] == c,
        forall|k: int| m < k < s.len() ==> s[k] != c,
    ensures
        last_index_of(s, c) == m,
    decreases s.len(),
{
    if s.last() == c {
        assert(m == s.len() - 1);
    } else {
        assert(m < s.len() - 1);
        let t = s.drop_last();
        assert(forall|k: int| 0 <= k < t.len() ==> t[k] == s[k]);
        lemma_last_index_of_occurrence(t, c, m);
    }
}

pub proof fn lemma_no_occurrence_last_index(s: Seq<char>, c: char)
    requires
        forall|k: int| 0 <= k < s.len() ==> s[k] != c,
    ensures
        last_index_of(s, c) == -1,
    decreases s.len(),
{
    if s.len() > 0 {
        let t = s.drop_last();
        assert(forall|k: int| 0 <= k < t.len() ==> t[k] == s[k]);
        lemma_no_occurrence_last_index(t, c);
    }
}

/// Appends the characters `cs[from..to]` to `out`.
pub fn append_range(out: &mut Vec<char>, cs: &Vec<char>, from: usize, to: usize)
    requires
        from <= to <= cs@.len(),
    ensures
        final(out)@ == old(out)@ + cs@.subrange(from as int, to as int),
{
    let mut k = from;
    while k < to
        invariant
            from <= k <= to <= cs@.len(),
            out@ == old(out)@ + cs@.subrange(from as int, k as int),
        decreases to - k,
    {
        out.push(cs[k]);
        k = k + 1;
        assert(out@ =~= old(out)@ + cs@.subrange(from as int, k as int));
    }
    assert(out@ =~= old(out)@ + cs@.subrange(from as int, to as int));
}

/// Appends one line with its leading timestamp token removed.
fn strip_line_into(out: &mut Vec<char>, cs: &Vec<char>, from: usize, to: usize)
    requires
        from <= to <= cs@.len(),
    ensures
        final(out)@ == old(out)@ + strip_ts_line(cs@.subrange(from as int, to as int)),
{
    let ghost l = cs@.subrange(from as int, to as int);
    if from == to {
        assert(l.len() == 0);
        assert(out@ =~= old(out)@ + strip_ts_line(l));
        return ;
    }
    if cs[from] != '[' {
        assert(l[0] != '[');
        append_range(out, cs, from, to);
        return ;
    }
    // find the last `]` in the line
    let mut j = to;
    let mut found: bool = false;
    while j > from && !found
        invariant
            from <= j <= to <= cs@.len(),
            !found ==> forall|k: int| j <= k < to ==> cs@[k] != ']',
            found ==> from <= j < to && cs@[j as int] == ']' && forall|k: int|
                j < k < to ==> cs@[k] != ']',
        decreases j - from + (if found { 0int } else { 1int }),
    {
        if cs[j - 1] == ']' {
            j = j - 1;
            found = true;
        } else {
            j = j - 1;
        }
    }
    assert(forall|k: int| 0 <= k < l.len() ==> l[k] == cs@[from + k]);
    if !found {
        proof {
            lemma_no_occurrence_last_index(l, ']');
        }
        append_range(out, cs, from, to);
        return ;
    }
    proof {
        lemma_last_index_of_occurrence(l, ']', j - from);
    }
    // skip spaces after the token
    let mut k = j + 1;
    while k < to && cs[k] == ' '
        invariant
            from <= j < k <= to <= cs@.len(),
            l == cs@.subrange(from as int, to as int),
            skip_spaces(l.subrange(j - from + 1, l.len() as int)) == skip_spaces(
                l.subrange(k - from, l.len() as int),
            ),
        decreases to - k,
    {
        proof {
            let a = l.subrange(k - from, l.len() as int);
            assert(a[0] == cs@[k as int]);
            assert(a.drop_first() =~= l.subrange(k + 1 - from, l.len() as int));
        }
        k = k + 1;
    }
    proof {
        let a = l.subrange(k - from, l.len() as int);
        if k < to {
            assert(a[0] == cs@[k as int]);
            assert(skip_spaces(a) == a);
        } else {
            assert(a.len() == 0);
            assert(skip_spaces(a) == a);
        }
    }
    append_range(out, cs, k, to);
    assert(out@ =~= old(out)@ + strip_ts_line(l)) by {
        assert(cs@.subrange(k as int, to as int) =~= l.subrange(k - from, l.len() as int));
    }
}

/// Derives plain text from timed lyrics by removing the leading `[...]`
/// timestamp token, and any spaces after it, from each line.
pub fn strip_timestamp(synced_lyrics: &str) -> (r: String)
    ensures
        r@ == strip_timestamp_spec(synced_lyrics@),
{
    let cs = str_to_chars(synced_lyrics);
    let n = cs.len();
    let mut out: Vec<char> = Vec::new();
    let mut pos: usize = 0;
    proof {
        assert(cs@.subrange(0, n as int) =~= cs@);
        assert(Seq::<char>::empty() + strip_timestamp_spec(cs@) =~= strip_timestamp_spec(cs@));
    }
    loop
        invariant
            pos <= n,
            n == cs@.len(),
            cs@ == synced_lyrics@,
            strip_timestamp_spec(cs@) == out@ + strip_timestamp_spec(
                cs@.subrange(pos as int, n as int),
            ),
        decreases n - pos,
    {
        let ghost rem = cs@.subrange(pos as int, n as int);
        // find the next newline
        let mut j = pos;
        while j < n && cs[j] != '\n'
            invariant
                pos <= j <= n,
                n == cs@.len(),
                forall|k: int| pos <= k < j ==> cs@[k] != '\n',
            decreases n - j,
        {
            j = j + 1;
        }
        proof {
            assert(forall|k: int| 0 <= k < rem.len() ==> rem[k] == cs@[pos + k]);
        }
        if j == n {
            proof {
                lemma_no_occurrence_find(rem, '\n');
            }
            strip_line_into(&mut out, &cs, pos, n);
            proof {
                assert(strip_timestamp_spec(rem) == strip_ts_line(rem));
                assert(out@ =~= strip_timestamp_spec(cs@));
            }
            return chars_to_string(&out);
        }
        proof {
            lemma_find_char_of_occurrence(rem, '\n', j - pos);
            assert(rem.subrange(0, j - pos) =~= cs@.subrange(pos as int, j as int));
            assert(rem.subrange(j - pos + 1, rem.len() as int) =~= cs@.subrange(
                j + 1 as int,
                n as int,
            ));
        }
        let ghost out_before = out@;
        strip_line_into(&mut out, &cs, pos, j);
        out.push('\n');
        proof {
            assert(out@ =~= out_before + strip_ts_line(cs@.subrange(pos as int, j as int))
                + seq!['\n']);
            assert(strip_timestamp_spec(rem) == strip_ts_line(rem.subrange(0, j - pos))
                + seq!['\n'] + strip_timestamp_spec(rem.subrange(j - pos + 1, rem.len() as int)));
            assert(out@ + strip_timestamp_spec(cs@.subrange(j + 1 as int, n as int))
                =~= out_before + strip_timestamp_spec(rem));
        }
        pos = j + 1;
    }
}

/// Derives plain text from timed lyrics, as `strip_timestamp` does.
pub fn strip_timestamp_from_id(synced_lyrics: &str) -> (r: String)
    ensures
        r@ == strip_timestamp_spec(synced_lyrics@),
{
    strip_timestamp(synced_lyrics)
}

/// The decimal representation of an integer, with a leading minus sign
/// when it is negative.
pub open spec fn dec_str_i64(n: int) -> Seq<char> {
    if n < 0 {
        seq!['-'] + dec_str((-n) as nat)
    } else {
        dec_str(n as nat)
    }
}

/// Renders a signed integer in decimal.
pub fn i64_to_dec_string(n: i64) -> (r: String)
    ensures
        r@ == dec_str_i64(n as int),
{
    if n >= 0 {
        let r = u64_to_dec_string(n as u64);
        assert(r@ =~= dec_str_i64(n as int));
        r
    } else {
        let magnitude: u64 = ((-(n + 1)) as u64) + 1;
        assert(magnitude == -(n as int));
        let mut r = String::new();
        push_char(&mut r, '-');
        let digits = u64_to_dec_string(magnitude);
        r.append(digits.as_str());
        assert(r@ =~= dec_str_i64(n as int));
        r
    }
}

/// Renders an unsigned integer in decimal.
pub fn u64_to_dec_string(n: u64) -> (r: String)
    ensures
        r@ == dec_str(n as nat),
    decreases n,
{
    if n < 10 {
        let mut s = String::new();
        let d: u8 = 48 + (n as u8);
        push_char(&mut s, d as char);
        assert(s@ =~= dec_str(n as nat));
        s
    } else {
        let mut s = u64_to_dec_string(n / 10);
        let d: u8 = 48 + ((n % 10) as u8);
        push_char(&mut s, d as char);
        assert(s@ =~= dec_str(n as nat));
        s
    }
}

} // verus!
