use satvis::{bytes_lex_gt, count_matching_counts, result_case_of_filename};

fn bytes(s: &str) -> Vec<u8> {
    s.as_bytes().to_vec()
}

#[test]
fn stamped_filename_yields_test_case() {
    let r = result_case_of_filename(&bytes("rust-sgp4_iss-pass_20240101_123456.json"), &bytes("rust-sgp4_"));
    assert_eq!(r.unwrap(), bytes("iss-pass"));
}

#[test]
fn unstamped_filename_yields_test_case() {
    let r = result_case_of_filename(&bytes("rust-sgp4_iss-pass.json"), &bytes("rust-sgp4_"));
    assert_eq!(r.unwrap(), bytes("iss-pass"));
}

#[test]
fn test_case_with_underscores_is_kept_whole() {
    let r = result_case_of_filename(&bytes("impl_case_a_b_20240101_123456.json"), &bytes("impl_"));
    assert_eq!(r.unwrap(), bytes("case_a_b"));
}

#[test]
fn near_stamp_suffixes_are_not_stripped() {
    // seven trailing digits: not a HHMMSS field
    let r = result_case_of_filename(&bytes("impl_case_20240101_1234567.json"), &bytes("impl_"));
    assert_eq!(r.unwrap(), bytes("case_20240101_1234567"));
    // nine digits in the date field
    let r = result_case_of_filename(&bytes("impl_case_202401019_123456.json"), &bytes("impl_"));
    assert_eq!(r.unwrap(), bytes("case_202401019_123456"));
    // letters inside the stamp
    let r = result_case_of_filename(&bytes("impl_case_2024010a_123456.json"), &bytes("impl_"));
    assert_eq!(r.unwrap(), bytes("case_2024010a_123456"));
}

#[test]
fn bare_stamp_yields_empty_test_case() {
    let r = result_case_of_filename(&bytes("impl_20240101_123456.json"), &bytes("impl_"));
    assert_eq!(r.unwrap(), bytes(""));
}

#[test]
fn wrong_prefix_or_extension_is_rejected() {
    assert!(result_case_of_filename(&bytes("other_case.json"), &bytes("impl_")).is_none());
    assert!(result_case_of_filename(&bytes("impl_case.txt"), &bytes("impl_")).is_none());
    assert!(result_case_of_filename(&bytes("impl"), &bytes("impl_")).is_none());
}

#[test]
fn lex_order_prefers_later_stamp() {
    assert!(bytes_lex_gt(
        &bytes("impl_case_20240102_000000.json"),
        &bytes("impl_case_20240101_235959.json"),
    ));
    assert!(!bytes_lex_gt(
        &bytes("impl_case_20240101_235959.json"),
        &bytes("impl_case_20240102_000000.json"),
    ));
    assert!(!bytes_lex_gt(&bytes("same"), &bytes("same")));
    assert!(bytes_lex_gt(&bytes("samelonger"), &bytes("same")));
    assert!(!bytes_lex_gt(&bytes("same"), &bytes("samelonger")));
}

#[test]
fn validation_tally_counts_agreeing_pairs() {
    let pairs: Vec<(usize, usize)> = vec![(2, 2), (0, 1), (3, 3), (1, 0)];
    assert_eq!(count_matching_counts(&pairs), 2);
    let empty: Vec<(usize, usize)> = Vec::new();
    assert_eq!(count_matching_counts(&empty), 0);
}
