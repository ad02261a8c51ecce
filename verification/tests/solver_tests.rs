use lrcget::lrclib::challenge_solver::{solve_challenge, verify_nonce};

#[test]
fn verify_nonce_compares_bytes_before_the_last() {
    // equal bytes keep comparing; a smaller byte accepts; a larger rejects
    assert!(verify_nonce(&vec![0, 1, 9], &vec![0, 2, 0]));
    assert!(!verify_nonce(&vec![3, 0, 0], &vec![2, 9, 9]));
    assert!(verify_nonce(&vec![1, 0, 0], &vec![2, 0, 0]));
    // all-equal prefixes are accepted
    assert!(verify_nonce(&vec![5, 5, 5], &vec![5, 5, 5]));
    // the final byte pair is never inspected
    assert!(verify_nonce(&vec![0, 255], &vec![0, 0]));
    // length mismatch rejects
    assert!(!verify_nonce(&vec![0, 0], &vec![0, 0, 0]));
}

#[test]
fn solve_challenge_accepts_an_easy_target() {
    // every digest satisfies an all-ones target, so the least nonce is zero
    let target = "FF".repeat(32);
    let nonce = solve_challenge("prefix", &target);
    assert_eq!(nonce, Some("0".to_string()));
}

#[test]
fn solve_challenge_is_deterministic() {
    let target = "FF".repeat(32);
    let a = solve_challenge("abc", &target);
    let b = solve_challenge("abc", &target);
    assert_eq!(a, b);
}

#[test]
fn solve_challenge_rejects_bad_hex() {
    assert_eq!(solve_challenge("p", "xyz"), None);
    assert_eq!(solve_challenge("p", "ABC"), None);
    // lowercase hex is not in the uppercase alphabet
    assert_eq!(solve_challenge("p", "ab"), None);
}

#[test]
fn solve_challenge_solves_a_small_real_challenge() {
    // a moderately hard target: the digest must start with a zero byte
    let mut target = String::from("00");
    target.push_str(&"FF".repeat(31));
    let nonce = solve_challenge("test", &target).expect("solvable");
    // the returned nonce must itself pass the acceptance rule
    let digest = ring::digest::digest(&ring::digest::SHA256, format!("test{}", nonce).as_bytes());
    let hashed: Vec<u8> = digest.as_ref().to_vec();
    let decoded = data_encoding::HEXUPPER.decode(target.as_bytes()).unwrap();
    assert!(verify_nonce(&hashed, &decoded));
    // and every smaller nonce must fail it
    let n: u64 = nonce.parse().unwrap();
    for m in 0..n {
        let d = ring::digest::digest(&ring::digest::SHA256, format!("test{}", m).as_bytes());
        assert!(!verify_nonce(&d.as_ref().to_vec(), &decoded));
    }
}
