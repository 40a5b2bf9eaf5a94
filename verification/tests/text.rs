use myx::form::{form_body, urlencode};
use myx::text::{
    contains, decimal_of, has_piece, has_prefix, join, owned, same, to_lowercase, trim,
};

#[test]
fn trims_like_str_trim() {
    for text in ["", " ", "a", "  a b \t\n", "\u{3000}x\u{a0}", "\u{200b}y", "\u{85}\u{2029}"] {
        assert_eq!(trim(text), text.trim());
    }
}

#[test]
fn joins_with_separator() {
    assert_eq!(join(&owned(&["a", "b", "c"]), ", "), "a, b, c");
    assert_eq!(join(&owned(&["a"]), ", "), "a");
    assert_eq!(join(&owned(&[]), ", "), "");
}

#[test]
fn lowers_ascii_only() {
    assert_eq!(to_lowercase("KiTTy-Ä"), "kitty-Ä");
}

#[test]
fn finds_parts_and_prefixes() {
    assert!(contains("WarpTerminal", "Warp"));
    assert!(contains("xxab", "ab"));
    assert!(contains("abc", ""));
    assert!(!contains("abab", "abc"));
    assert!(has_prefix("spotify:track:1", "spotify:track:"));
    assert!(!has_prefix("spotify", "spotify:track:"));
    assert!(same("ä", "ä"));
    assert!(!same("a", "ä"));
}

#[test]
fn finds_pieces() {
    assert!(has_piece("a b c", ' ', "b"));
    assert!(has_piece("a b c", ' ', "c"));
    assert!(!has_piece("ab c", ' ', "a"));
    assert!(has_piece("", ' ', ""));
    assert!(has_piece("a  b", ' ', ""));
}

#[test]
fn writes_decimals() {
    for n in [0u64, 7, 10, 42, 1000, u64::MAX] {
        assert_eq!(decimal_of(n), n.to_string());
    }
}

#[test]
fn encodes_everything_but_unreserved() {
    assert_eq!(urlencode("AZaz09-_.~"), "AZaz09-_.~");
    assert_eq!(urlencode("a b&c=d/e"), "a%20b%26c%3Dd%2Fe");
    assert_eq!(urlencode("é€😀"), "%C3%A9%E2%82%AC%F0%9F%98%80");
    assert_eq!(urlencode("100%"), "100%25");
    assert_eq!(urlencode(""), "");
}

#[test]
fn builds_forms_in_order() {
    assert_eq!(form_body(&[("a", "1 2"), ("b", "x&y"), ("c", "")]), "a=1%202&b=x%26y&c=");
    assert_eq!(form_body(&[]), "");
}
