//! The proof-of-work challenge solver: searches for the least nonce whose
//! hash, appended to the challenge prefix, passes the byte-comparison
//! acceptance rule against the challenge target.

use vstd::prelude::*;
use vstd::string::StringExecFns;
use crate::text::{dec_str, u64_to_dec_string};

verus! {

// ---------------------------------------------------------------------------
// Hex decoding of the challenge target
// ---------------------------------------------------------------------------

/// An uppercase hexadecimal digit.
pub open spec fn is_hex_upper_digit(c: char) -> bool {
    ('0' <= c && c <= '9') || ('A' <= c && c <= 'F')
}

/// The value of an uppercase hexadecimal digit.
pub open spec fn hex_char_val(c: char) -> u8
    recommends
        is_hex_upper_digit(c),
{
    if '0' <= c && c <= '9' {
        (c as u8 - 48) as u8
    } else {
        (c as u8 - 55) as u8
    }
}

/// A well-formed uppercase hexadecimal string: even length, hex digits only.
pub open spec fn hex_ok(s: Seq<char>) -> bool {
    s.len() % 2 == 0 && forall|i: int| 0 <= i < s.len() ==> is_hex_upper_digit(#[trigger] s[i])
}

/// The bytes denoted by an uppercase hexadecimal string, two digits per byte.
pub open spec fn hex_bytes(s: Seq<char>) -> Seq<u8>
    decreases s.len(),
{
    if s.len() < 2 {
        Seq::<u8>::empty()
    } else {
        seq![(16 * hex_char_val(s[0]) + hex_char_val(s[1])) as u8] + hex_bytes(s.skip(2))
    }
}

/// Relies on `data_encoding::HEXUPPER.decode`: succeeds exactly on strings of
/// even length made of the symbols `0-9A-F`, and returns the denoted bytes.
#[verifier::external_body]
fn hex_decode_upper(s: &str) -> (r: Option<Vec<u8>>)
    ensures
        r is Some <==> hex_ok(s@),
        (match r {
            Some(v) => v@ == hex_bytes(s@),
            None => true,
        }),
{
    match data_encoding::HEXUPPER.decode(s.as_bytes()) {
        Ok(v) => Some(v),
        Err(_) => None,
    }
}

// ---------------------------------------------------------------------------
// Hashing
// ---------------------------------------------------------------------------

/// What the SHA-256 digest of a string is: it depends on the characters
/// alone.
pub uninterp spec fn sha256_of(s: Seq<char>) -> Seq<u8>;

/// Relies on `ring::digest::digest` with the SHA-256 algorithm: a 32-byte
/// digest of the string's bytes.
#[verifier::external_body]
fn sha256_str(s: &str) -> (r: Vec<u8>)
    ensures
        r@ == sha256_of(s@),
        r@.len() == 32,
{
    ring::digest::digest(&ring::digest::SHA256, s.as_bytes()).as_ref().to_vec()
}

// ---------------------------------------------------------------------------
// The acceptance rule
// ---------------------------------------------------------------------------

/// The byte comparison from index `i` on: the first differing byte before the
/// final index decides, and a digest that never exceeds the target is
/// accepted.  The final byte pair is never inspected.
pub open spec fn cmp_from(r: Seq<u8>, t: Seq<u8>, i: int) -> bool
    decreases r.len() - i,
{
    if i < 0 || i >= r.len() - 1 {
        true
    } else if r[i] > t[i] {
        false
    } else if r[i] < t[i] {
        true
    } else {
        cmp_from(r, t, i + 1)
    }
}

/// Whether a digest passes the acceptance rule against a target.
pub open spec fn acceptable(r: Seq<u8>, t: Seq<u8>) -> bool {
    r.len() == t.len() && cmp_from(r, t, 0)
}

/// Decides the acceptance rule: equal lengths, and the digest is not greater
/// than the target on the bytes before the final one.
pub fn verify_nonce(result: &Vec<u8>, target: &Vec<u8>) -> (r: bool)
    ensures
        r == acceptable(result@, target@),
{
    if result.len() != target.len() {
        return false;
    }
    if result.len() == 0 {
        return true;
    }
    let mut i: usize = 0;
    let n = result.len();
    while i < n - 1
        invariant
            0 <= i <= n - 1,
            n == result@.len() == target@.len(),
            cmp_from(result@, target@, 0) == cmp_from(result@, target@, i as int),
        decreases n - i,
    {
        if result[i] > target[i] {
            assert(!cmp_from(result@, target@, i as int));
            return false;
        } else if result[i] < target[i] {
            assert(cmp_from(result@, target@, i as int));
            return true;
        }
        i = i + 1;
    }
    assert(cmp_from(result@, target@, i as int));
    true
}

// ---------------------------------------------------------------------------
// The solver
// ---------------------------------------------------------------------------

/// The hash input for a given nonce: the challenge prefix followed by the
/// nonce in decimal.
pub open spec fn challenge_input(prefix: Seq<char>, n: nat) -> Seq<char> {
    prefix + dec_str(n)
}

/// Searches nonces upward from zero and returns the decimal string of the
/// first one whose hash passes the acceptance rule.  Returns nothing exactly
/// when the target is not well-formed uppercase hexadecimal, or when no
/// nonce at all passes: the result is determined by the inputs.
pub fn solve_challenge(prefix: &str, target_hex: &str) -> (r: Option<String>)
    ensures
        r is Some ==> hex_ok(target_hex@),
        !hex_ok(target_hex@) ==> r is None,
        (match r {
            Some(s) => exists|n: u64|
                s@ == dec_str(n as nat) && #[trigger] acceptable(
                    sha256_of(challenge_input(prefix@, n as nat)),
                    hex_bytes(target_hex@),
                ) && forall|m: u64|
                    m < n ==> !acceptable(
                        sha256_of(challenge_input(prefix@, m as nat)),
                        hex_bytes(target_hex@),
                    ),
            None => hex_ok(target_hex@) ==> forall|m: u64|
                !acceptable(
                    sha256_of(#[trigger] challenge_input(prefix@, m as nat)),
                    hex_bytes(target_hex@),
                ),
        }),
{
    let target = match hex_decode_upper(target_hex) {
        Some(t) => t,
        None => {
            return None;
        },
    };
    let mut nonce: u64 = 0;
    while nonce < u64::MAX
        invariant
            target@ == hex_bytes(target_hex@),
            hex_ok(target_hex@),
            forall|m: u64|
                m < nonce ==> !acceptable(
                    sha256_of(#[trigger] challenge_input(prefix@, m as nat)),
                    hex_bytes(target_hex@),
                ),
        decreases u64::MAX - nonce,
    {
        let digits = u64_to_dec_string(nonce);
        let mut input = String::from_str(prefix);
        input.append(digits.as_str());
        assert(input@ == challenge_input(prefix@, nonce as nat));
        let hashed = sha256_str(input.as_str());
        if verify_nonce(&hashed, &target) {
            assert(acceptable(
                sha256_of(challenge_input(prefix@, nonce as nat)),
                hex_bytes(target_hex@),
            ));
            return Some(digits);
        }
        nonce = nonce + 1;
    }
    let digits = u64_to_dec_string(nonce);
    let mut input = String::from_str(prefix);
    input.append(digits.as_str());
    assert(input@ == challenge_input(prefix@, nonce as nat));
    let hashed = sha256_str(input.as_str());
    if verify_nonce(&hashed, &target) {
        assert(acceptable(
            sha256_of(challenge_input(prefix@, nonce as nat)),
            hex_bytes(target_hex@),
        ));
        return Some(digits);
    }
    None
}

} // verus!
