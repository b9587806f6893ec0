use brz_http_gateway::tokens::{contains_token, split_commas, trim_ascii};

#[test]
fn tokens_ignore_case_and_blanks() {
    assert!(contains_token(b"keep-alive, \tUpgrade ", b"upgrade"));
    assert!(contains_token(b"UPGRADE", b"upgrade"));
    assert!(contains_token(b"upgrade", b"UPGRADE"));
    assert!(!contains_token(b"upgrades", b"upgrade"));
    assert!(!contains_token(b"up grade", b"upgrade"));
    assert!(!contains_token(b"upgrade;q=1", b"upgrade"));
    assert!(!contains_token(b"", b"upgrade"));
}

#[test]
fn empty_tokens_count() {
    assert!(contains_token(b"", b""));
    assert!(contains_token(b"a,,b", b""));
    assert!(!contains_token(b"a,b", b""));
}

#[test]
fn joined_values_hold_the_tokens_of_both() {
    assert!(contains_token(b"close,upgrade", b"close"));
    assert!(contains_token(b"close,upgrade", b"upgrade"));
    assert!(!contains_token(b"close,upgrade", b"close,upgrade"));
}

#[test]
fn only_spaces_and_tabs_are_trimmed() {
    assert_eq!(trim_ascii(b" \t a b\t "), b"a b");
    assert_eq!(trim_ascii(b"\ra\n"), b"\ra\n");
    assert_eq!(trim_ascii(b" \t "), b"");
    assert_eq!(trim_ascii(b""), b"");
}

#[test]
fn commas_separate_pieces() {
    assert_eq!(split_commas(b"a, b,"), vec![&b"a"[..], &b" b"[..], &b""[..]]);
    assert_eq!(split_commas(b""), vec![&b""[..]]);
}
