use fuel_vanity::hexfmt::encode_mixed_case;
use fuel_vanity::pattern::{
    convert_to_mixed_case, is_valid_hex_pattern, matches_criteria, matches_exact, matches_pattern,
    parse_position, Position,
};

#[test]
fn case_insensitive_prefix_matches_any_casing() {
    assert!(matches_pattern("0xABCDEF0123", "abc", "prefix", false));
    assert!(matches_pattern("0xabcdef0123", "ABC", "prefix", false));
    assert!(matches_pattern("0xAbCdef0123", "aBc", "prefix", false));
    assert!(!matches_pattern("0xABDDEF0123", "abc", "prefix", false));
}

#[test]
fn case_sensitive_prefix_respects_case() {
    assert!(matches_pattern("0xAbCdEf", "Ab", "prefix", true));
    assert!(!matches_pattern("0xabcdef", "Ab", "prefix", true));
}

#[test]
fn matching_is_repeatable() {
    let address = "0x00dead00beef";
    for _ in 0..3 {
        assert!(matches_pattern(address, "dead", "anywhere", false));
        assert!(!matches_pattern(address, "cafe", "anywhere", false));
    }
}

#[test]
fn suffix_and_contains_positions() {
    assert!(matches_pattern("0x12345beef", "beef", "suffix", false));
    assert!(!matches_pattern("0x12345beef", "beef", "prefix", false));
    assert!(matches_pattern("0x1dead2", "dead", "contains", false));
    assert!(matches_pattern("0x1dead2", "dead", "anywhere", false));
    assert!(!matches_pattern("0x1dea2d", "dead", "contains", false));
}

#[test]
fn tag_is_set_aside_before_matching() {
    assert!(matches_pattern("0x0abc", "0a", "prefix", false));
    assert!(!matches_pattern("0x0abc", "0x", "prefix", false));
    assert!(matches_pattern("abc", "ab", "prefix", true));
}

#[test]
fn unknown_position_never_matches() {
    assert!(!matches_pattern("0xabc", "a", "middle", false));
    assert_eq!(parse_position("middle"), None);
    assert_eq!(parse_position("prefix"), Some(Position::Prefix));
    assert_eq!(parse_position("suffix"), Some(Position::Suffix));
    assert_eq!(parse_position("anywhere"), Some(Position::Contains));
    assert_eq!(parse_position("contains"), Some(Position::Contains));
}

#[test]
fn empty_pattern_matches_everything() {
    assert!(matches_exact("abc", "", Position::Prefix));
    assert!(matches_exact("abc", "", Position::Suffix));
    assert!(matches_exact("abc", "", Position::Contains));
    assert!(matches_exact("", "", Position::Contains));
}

#[test]
fn longer_pattern_never_matches() {
    assert!(!matches_exact("ab", "abc", Position::Prefix));
    assert!(!matches_exact("ab", "abc", Position::Suffix));
    assert!(!matches_exact("ab", "abc", Position::Contains));
}

#[test]
fn case_insensitive_matching_lowercases_both_sides() {
    assert!(matches_criteria("0xFFEE", "ffee", Position::Prefix, false));
    assert!(!matches_criteria("0xFFEE", "ffee", Position::Prefix, true));
}

#[test]
fn hex_pattern_validity() {
    assert!(is_valid_hex_pattern("dEad09"));
    assert!(is_valid_hex_pattern(""));
    assert!(!is_valid_hex_pattern("xyz"));
    assert!(!is_valid_hex_pattern("beeg"));
}

#[test]
fn mixed_case_styling_of_addresses() {
    assert_eq!(convert_to_mixed_case("0xabcdef"), "0xAbcDef");
    assert_eq!(convert_to_mixed_case("0x0a1b2c3d"), "0x0a1B2c3d");
    assert_eq!(convert_to_mixed_case("0xa00a00f"), "0xA00A00F");
    assert_eq!(convert_to_mixed_case("abcdef"), "abcdef");
}

#[test]
fn mixed_case_hex_encoding() {
    assert_eq!(encode_mixed_case(&[0xab, 0x0c, 0xff]), "Ab0CFf");
    assert_eq!(encode_mixed_case(&[0x12, 0x9a]), "129A");
    assert_eq!(encode_mixed_case(&[0x12, 0x9b]), "129b");
    assert_eq!(encode_mixed_case(&[]), "");
}
