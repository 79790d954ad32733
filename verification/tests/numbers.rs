use csv_pipeline::numtext::{is_decimal_lexeme, parse_i64, render_usize};

#[test]
fn integer_parsing_accepts_signed_decimal_text() {
    assert_eq!(parse_i64("0"), Some(0));
    assert_eq!(parse_i64("41714"), Some(41714));
    assert_eq!(parse_i64("-25"), Some(-25));
    assert_eq!(parse_i64("007"), Some(7));
    assert_eq!(parse_i64("9223372036854775807"), Some(i64::MAX));
    assert_eq!(parse_i64("-9223372036854775808"), Some(i64::MIN));
}

#[test]
fn integer_parsing_rejects_everything_else() {
    assert_eq!(parse_i64(""), None);
    assert_eq!(parse_i64("-"), None);
    assert_eq!(parse_i64("12.4"), None);
    assert_eq!(parse_i64("1a"), None);
    assert_eq!(parse_i64(" 1"), None);
    assert_eq!(parse_i64("+1"), None);
    assert_eq!(parse_i64("9223372036854775808"), None);
    assert_eq!(parse_i64("-9223372036854775809"), None);
    assert_eq!(parse_i64("99999999999999999999999999"), None);
}

#[test]
fn decimal_lexemes_have_digits_on_both_sides_of_the_point() {
    assert!(is_decimal_lexeme("12.4"));
    assert!(is_decimal_lexeme("-2.52"));
    assert!(is_decimal_lexeme("143"));
    assert!(is_decimal_lexeme("-3"));
    assert!(!is_decimal_lexeme("12."));
    assert!(!is_decimal_lexeme(".5"));
    assert!(!is_decimal_lexeme("1e5"));
    assert!(!is_decimal_lexeme("-"));
    assert!(!is_decimal_lexeme(""));
    assert!(!is_decimal_lexeme("1.2.3"));
}

#[test]
fn decimal_rendering_matches_expected_digits() {
    assert_eq!(render_usize(0), "0");
    assert_eq!(render_usize(7), "7");
    assert_eq!(render_usize(10), "10");
    assert_eq!(render_usize(41714), "41714");
}
