use xkcdpwgen::text::{capitalize, join_tokens, parse_usize, str_equal};

#[test]
fn capitalize_uppercases_first_letter() {
    assert_eq!(capitalize("correct"), "Correct");
    assert_eq!(capitalize("horse"), "Horse");
}

#[test]
fn capitalize_of_empty_is_empty() {
    assert_eq!(capitalize(""), "");
}

#[test]
fn capitalize_leaves_uncased_first_character() {
    assert_eq!(capitalize("Already"), "Already");
    assert_eq!(capitalize("7up"), "7up");
}

#[test]
fn capitalize_handles_multi_character_uppercase() {
    // The sharp s uppercases to two characters.
    assert_eq!(capitalize("\u{df}an"), "SSan");
}

#[test]
fn parse_usize_accepts_decimals() {
    assert_eq!(parse_usize("0"), Some(0));
    assert_eq!(parse_usize("42"), Some(42));
    assert_eq!(parse_usize("007"), Some(7));
    assert_eq!(parse_usize("+13"), Some(13));
    let max = format!("{}", usize::MAX);
    assert_eq!(parse_usize(&max), Some(usize::MAX));
}

#[test]
fn parse_usize_rejects_non_decimals() {
    assert_eq!(parse_usize(""), None);
    assert_eq!(parse_usize("+"), None);
    assert_eq!(parse_usize("-1"), None);
    assert_eq!(parse_usize("4a"), None);
    assert_eq!(parse_usize("1.5"), None);
    assert_eq!(parse_usize(" 3"), None);
    assert_eq!(parse_usize("99999999999999999999999999"), None);
}

#[test]
fn join_concatenates_without_separator() {
    let tokens: Vec<String> = ["ab", "", "c", "7"].iter().map(|t| t.to_string()).collect();
    assert_eq!(join_tokens(&tokens), "abc7");
    assert_eq!(join_tokens(&Vec::new()), "");
}

#[test]
fn str_equal_compares_characters() {
    assert!(str_equal("", ""));
    assert!(str_equal("-w", "-w"));
    assert!(!str_equal("-w", "-W"));
    assert!(!str_equal("-w", "-wo"));
    assert!(str_equal("na\u{ef}ve", "na\u{ef}ve"));
}
