use dns_secheck::util::text::{is_whitespace, str_equal, trim};

#[test]
fn trim_removes_unicode_whitespace() {
    assert_eq!(trim("  abc\n"), "abc");
    assert_eq!(trim("\u{3000}a b\u{85}"), "a b");
    assert_eq!(trim(" \t\r\n"), "");
    assert_eq!(trim(""), "");
    assert_eq!(trim("x"), "x");
}

#[test]
fn trim_agrees_with_std() {
    for s in ["  a ", "\u{2028}b\u{2029}", "\u{a0}c", "d\u{1680}", " e f ", "\u{200b}g"] {
        assert_eq!(trim(s), s.trim());
    }
}

#[test]
fn whitespace_matches_std() {
    for c in ['\t', '\n', ' ', '\u{85}', '\u{a0}', '\u{2007}', '\u{200b}', 'a', '\u{3000}'] {
        assert_eq!(is_whitespace(c), c.is_whitespace());
    }
}

#[test]
fn string_equality() {
    assert!(str_equal("abc", "abc"));
    assert!(!str_equal("abc", "abd"));
    assert!(!str_equal("abc", "ab"));
    assert!(str_equal("", ""));
}
