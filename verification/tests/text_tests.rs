use orbitwm::text::{
    chars_of, is_whitespace, parse_u32, parse_unsigned_text, parse_usize, split_words, text_eq,
    to_lowercase, IntError,
};

#[test]
fn whitespace_agrees_with_std() {
    for u in 0u32..0x3100 {
        if let Some(c) = char::from_u32(u) {
            assert_eq!(is_whitespace(c), c.is_whitespace(), "{u:#x}");
        }
    }
}

#[test]
fn words_split_on_whitespace() {
    assert_eq!(split_words("  picom  --daemon\tx "), vec!["picom", "--daemon", "x"]);
    assert!(split_words("   ").is_empty());
    assert!(split_words("").is_empty());
    assert_eq!(split_words("a\u{3000}b"), vec!["a", "b"]);
}

#[test]
fn numbers_parse_like_std() {
    for s in ["0", "12", "+7", "", "+", "-", "-0", "1a", " 1", "4294967295", "4294967296", "007"] {
        assert_eq!(parse_u32(s), s.parse::<u32>().ok(), "{s}");
        assert_eq!(parse_usize(s), s.parse::<usize>().ok(), "{s}");
    }
}

#[test]
fn parse_errors() {
    assert_eq!(parse_unsigned_text("", 10, 100), Err(IntError::Empty));
    assert_eq!(parse_unsigned_text("x", 10, 100), Err(IntError::InvalidDigit));
    assert_eq!(parse_unsigned_text("101", 10, 100), Err(IntError::PosOverflow));
    assert_eq!(parse_unsigned_text("100", 10, 100), Ok(100));
    assert_eq!(parse_unsigned_text("z", 36, 100), Ok(35));
}

#[test]
fn text_helpers() {
    assert!(text_eq("abc", "abc"));
    assert!(!text_eq("abc", "abd"));
    assert_eq!(chars_of("hé"), vec!['h', 'é']);
    assert_eq!(to_lowercase("SuPeR"), "super");
}
