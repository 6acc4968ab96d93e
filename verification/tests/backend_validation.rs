use mergemint::backend::validation::{
    is_valid_description_length, is_valid_reward_amount, trim_str, SYMBOL_MAX_LENGTH,
};

#[test]
fn reward_amount_accepts_positive_decimals() {
    for value in ["1", "10", "0.1", "1.5", "  25.0000001  ", "100.1234567", "007", "0.0000001"] {
        assert!(is_valid_reward_amount(value), "{value:?} must be valid");
    }
}

#[test]
fn reward_amount_rejects_malformed_or_non_positive_values() {
    for value in [
        "", "   ", "0", "0.0", "0.0000000", "000", "-1", "+1", "1.", ".5", "1.12345678", "1.2.3",
        "abc", "1e5", "1,5", "١", "1 000",
    ] {
        assert!(!is_valid_reward_amount(value), "{value:?} must be invalid");
    }
}

#[test]
fn description_length_counts_bytes_after_trimming() {
    assert!(!is_valid_description_length(""));
    assert!(!is_valid_description_length(" \t\n "));
    assert!(is_valid_description_length("Fix the bug"));
    assert!(is_valid_description_length(&"a".repeat(SYMBOL_MAX_LENGTH)));
    assert!(!is_valid_description_length(&"a".repeat(SYMBOL_MAX_LENGTH + 1)));
    assert!(is_valid_description_length(&format!("   {}   ", "a".repeat(SYMBOL_MAX_LENGTH))));
    // 16 two-byte characters make 32 bytes; 17 make 34.
    assert!(is_valid_description_length(&"é".repeat(16)));
    assert!(!is_valid_description_length(&"é".repeat(17)));
    assert!(!is_valid_description_length(&"😀".repeat(9)));
}

#[test]
fn trimming_matches_str_trim() {
    for value in ["", "  a  ", "\u{3000}x\u{2028}", "a b", "\u{85}\u{a0}z\u{1680}", "\u{200b}a"] {
        assert_eq!(trim_str(value), value.trim());
    }
}
