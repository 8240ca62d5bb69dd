use null_or_die::text::{
    chars_of, decimal_text, has_tail, holds_part, is_alnum, is_ascii_white, is_digit, is_white,
    join4, lower_chars, parse_number, same_ignoring_case, same_text, string_of, to_lower,
    to_lower_char, trim, trim_chars, TrimSet,
};

fn every_char() -> Vec<char> {
    (0..=0x10ffffu32).filter_map(char::from_u32).collect()
}

#[test]
fn characters_are_classed_like_in_std() {
    for c in every_char() {
        assert_eq!(is_white(c), c.is_whitespace(), "{c:?}");
        assert_eq!(is_ascii_white(c), c.is_ascii_whitespace());
        assert_eq!(is_digit(c), c.is_ascii_digit());
        assert_eq!(is_alnum(c), c.is_ascii_alphanumeric());
        assert_eq!(to_lower_char(c), c.to_ascii_lowercase());
    }
}

#[test]
fn texts_are_trimmed_like_in_std() {
    for t in ["", "  ", " a b ", "\u{3000}x\u{85}", "\n\t", "no", "\u{200b}x"] {
        assert_eq!(trim(t), t.trim());
    }
    let cut = |set: TrimSet, t: &str| string_of(&trim_chars(set, &chars_of(t)));
    assert_eq!(cut(TrimSet::Hyphen, "--a-_-"), "a-_");
    assert_eq!(cut(TrimSet::HyphenOrUnderscore, "--a-_-"), "a");
    assert_eq!(cut(TrimSet::HyphenOrUnderscore, "-_-"), "");
}

#[test]
fn numbers_are_read_like_in_std() {
    for t in [
        "0", "7", "+7", "-7", "", "+", "007", "1 ", "12a", "\u{663}", "18446744073709551615",
        "18446744073709551616", "99999999999999999999999", "+00000000000000000000000001",
    ] {
        assert_eq!(parse_number(t), t.parse::<usize>().ok(), "{t}");
    }
    for n in [0usize, 9, 10, 123456789, usize::MAX] {
        assert_eq!(decimal_text(n), n.to_string());
        assert_eq!(parse_number(&decimal_text(n)), Some(n));
    }
}

#[test]
fn texts_are_compared_and_joined() {
    assert!(same_text("a\u{e9}", "a\u{e9}"));
    assert!(!same_text("a", "ab"));
    assert!(same_ignoring_case("SsC", "ssc"));
    assert!(!same_ignoring_case("\u{c9}", "\u{e9}"));
    assert_eq!(to_lower("AbC\u{c9}"), "abc\u{c9}");
    assert_eq!(lower_chars(&['A', 'z']), vec!['a', 'z']);
    assert_eq!(join4("a", "", "b", "c"), "abc");
}

#[test]
fn parts_are_found() {
    let hay = chars_of("abcabd");
    assert!(holds_part(&hay, &chars_of("abd")));
    assert!(holds_part(&hay, &[]));
    assert!(!holds_part(&hay, &chars_of("abe")));
    assert!(!holds_part(&[], &['a']));
    assert!(has_tail(&hay, &chars_of("bd")));
    assert!(!has_tail(&hay, &chars_of("bc")));
}
