use ghostwhisper::text::{chars_of, cat, is_whitespace, same_text, to_decimal, trimmed};

#[test]
fn whitespace_matches_std() {
    for code in 0u32..0x3100 {
        if let Some(c) = char::from_u32(code) {
            assert_eq!(is_whitespace(c), c.is_whitespace(), "U+{:04X}", code);
        }
    }
}

#[test]
fn trimming_matches_std() {
    for s in ["", "  ", " a ", "\u{3000}x\u{85}", "\tab c\n", "no-trim", "\u{a0}\u{2009}y\u{202f}"] {
        assert_eq!(trimmed(s), s.trim());
    }
}

#[test]
fn decimal_rendering() {
    assert_eq!(to_decimal(0), "0");
    assert_eq!(to_decimal(7), "7");
    assert_eq!(to_decimal(42), "42");
    assert_eq!(to_decimal(100), "100");
    assert_eq!(to_decimal(u64::MAX), u64::MAX.to_string());
}

#[test]
fn small_string_helpers() {
    assert_eq!(chars_of("h\u{e9}!"), vec!['h', '\u{e9}', '!']);
    assert_eq!(cat("ab", "cd"), "abcd");
    assert!(same_text("auto", "auto"));
    assert!(!same_text("auto", "aut"));
    assert!(!same_text("auto", "Auto"));
}
