use mergemint::backend::config::{cors_allowed_origins, reward_token_allowlist_is_empty, split_commas};

#[test]
fn empty_allowlist_detection_handles_unset_empty_and_commas() {
    fn is_empty(value: &str) -> bool {
        reward_token_allowlist_is_empty(value)
    }

    assert!(is_empty(""));
    assert!(is_empty(" , , "));
    assert!(!is_empty("native"));
    assert!(!is_empty(" , native , "));
}

#[test]
fn allowlist_blank_check_treats_unicode_white_space_as_blank() {
    assert!(reward_token_allowlist_is_empty("\t,\u{3000},\n"));
    assert!(!reward_token_allowlist_is_empty("\u{3000}x"));
}

#[test]
fn split_commas_keeps_empty_fields() {
    assert_eq!(split_commas(""), vec![""]);
    assert_eq!(split_commas("a,,b,"), vec!["a", "", "b", ""]);
}

#[test]
fn cors_origins_are_trimmed_and_blank_or_invalid_entries_dropped() {
    assert_eq!(
        cors_allowed_origins(" https://app.mergemint.xyz , ,https://staging.mergemint.xyz,bad\u{7f}origin"),
        vec!["https://app.mergemint.xyz", "https://staging.mergemint.xyz"]
    );
    assert!(cors_allowed_origins("").is_empty());
}
