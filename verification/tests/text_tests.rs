use dart_piper_tts::text::{
    chars_of, is_ascii_punctuation, is_whitespace, join_strings, len_utf8, str_eq, string_from_chars,
    trim_string, utf8_len_of,
};

#[test]
fn whitespace_agrees_with_std_for_every_char() {
    for v in 0u32..=0x10FFFF {
        if let Some(c) = char::from_u32(v) {
            assert_eq!(is_whitespace(c), c.is_whitespace(), "char {:#x}", v);
        }
    }
}

#[test]
fn ascii_punctuation_agrees_with_std_for_every_char() {
    for v in 0u32..=0x10FFFF {
        if let Some(c) = char::from_u32(v) {
            assert_eq!(is_ascii_punctuation(c), c.is_ascii_punctuation(), "char {:#x}", v);
        }
    }
}

#[test]
fn len_utf8_agrees_with_std() {
    for c in ['a', '\u{7f}', '\u{80}', 'é', '\u{7ff}', '\u{800}', 'ə', '\u{ffff}', '\u{10000}', '😀'] {
        assert_eq!(len_utf8(c), c.len_utf8());
    }
}

#[test]
fn trim_agrees_with_std() {
    for s in ["", "   ", "  a b  ", "\u{3000}x\u{85}", "\tline\n", "no-space"] {
        assert_eq!(trim_string(s), s.trim());
    }
}

#[test]
fn utf8_length_of_chars() {
    let v = chars_of("aé😀");
    assert_eq!(utf8_len_of(&v), 1 + 2 + 4);
    assert_eq!(string_from_chars(&v), "aé😀");
}

#[test]
fn string_equality() {
    assert!(str_eq("abc", "abc"));
    assert!(!str_eq("abc", "abd"));
    assert!(!str_eq("abc", "ab"));
    assert!(str_eq("", ""));
}

#[test]
fn join_with_separator() {
    let parts = vec!["a".to_string(), "bc".to_string(), "".to_string(), "d".to_string()];
    assert_eq!(join_strings(&parts, " "), "a bc  d");
    assert_eq!(join_strings(&Vec::new(), " "), "");
}
