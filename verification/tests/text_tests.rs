use picbad::text::{parse_u64, trim, to_ascii_lowercase};

#[test]
fn trims_unicode_space() {
    assert_eq!(trim("  alice \u{3000}"), "alice");
    assert_eq!(trim("\t\n"), "");
}

#[test]
fn parses_like_std() {
    assert_eq!(parse_u64("42"), Some(42));
    assert_eq!(parse_u64("+7"), Some(7));
    assert_eq!(parse_u64("+"), None);
    assert_eq!(parse_u64(""), None);
    assert_eq!(parse_u64("-1"), None);
    assert_eq!(parse_u64("18446744073709551615"), Some(u64::MAX));
    assert_eq!(parse_u64("18446744073709551616"), None);
}

#[test]
fn lowercases_ascii_only() {
    assert_eq!(to_ascii_lowercase("WebP"), "webp");
    assert_eq!(to_ascii_lowercase("ÄB"), "Äb");
}
