use lrcget::text::{prepare_input, str_contains, str_eq, strip_timestamp, strip_timestamp_from_id, u64_to_dec_string};

#[test]
fn normalize_diacritics_and_case_agree() {
    let a = prepare_input("Café");
    let b = prepare_input("CAFE");
    let c = prepare_input("  Café  ");
    assert_eq!(a, b);
    assert_eq!(b, c);
    assert_eq!(a, "cafe");
}

#[test]
fn normalize_is_idempotent_on_samples() {
    let samples = ["Café", "  Héllo,  WORLD!  ", "Don't Stop", "A_B|C", "", "   "];
    for s in samples {
        let once = prepare_input(s);
        let twice = prepare_input(&once);
        assert_eq!(once, twice);
    }
}

#[test]
fn normalize_replaces_punctuation_and_collapses() {
    assert_eq!(prepare_input("  Héllo,  WORLD!  "), "hello world");
    assert_eq!(prepare_input("A_B|C"), "a b c");
    assert_eq!(prepare_input("Don't"), "dont");
    assert_eq!(prepare_input(""), "");
}

#[test]
fn strip_timestamp_removes_leading_tokens_per_line() {
    assert_eq!(strip_timestamp("[00:01.00]hi"), "hi");
    assert_eq!(strip_timestamp("[00:01.00]a\n[00:02.00]b"), "a\nb");
    assert_eq!(strip_timestamp("no token"), "no token");
    assert_eq!(strip_timestamp("[00:01.00]   spaced"), "spaced");
    // the removal is greedy through the last closing bracket of the line
    assert_eq!(strip_timestamp("[00:01.00] [x] end"), "end");
    assert_eq!(strip_timestamp(""), "");
    assert_eq!(strip_timestamp_from_id("[00:01.00]hi"), "hi");
}

#[test]
fn contains_and_equality_helpers() {
    assert!(str_contains("hello world", "lo wo"));
    assert!(str_contains("hello", ""));
    assert!(!str_contains("hello", "world"));
    assert!(!str_contains("ab", "abc"));
    assert!(str_eq("abc", "abc"));
    assert!(!str_eq("abc", "abd"));
    assert!(!str_eq("abc", "ab"));
}

#[test]
fn normalized_output_holds_no_punctuation() {
    let samples = ["a.b|c'd", "don't [stop] me, now!", "...", "'"];
    for s in samples {
        let r = prepare_input(s);
        for c in r.chars() {
            assert!(!"`~!@#$%^&*()_|+-=?;:\",.<>{}[]\\/'".contains(c));
        }
    }
    assert_eq!(prepare_input("a.b|c'd"), "a b cd");
}

#[test]
fn decimal_rendering() {
    assert_eq!(u64_to_dec_string(0), "0");
    assert_eq!(u64_to_dec_string(7), "7");
    assert_eq!(u64_to_dec_string(10), "10");
    assert_eq!(u64_to_dec_string(65535), "65535");
    assert_eq!(u64_to_dec_string(u64::MAX), "18446744073709551615");
}
