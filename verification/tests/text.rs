use kagi::request::token_from_text;
use kagi::text::{chars_of, is_whitespace, trim};

#[test]
fn white_space_characters_are_recognised() {
    for c in ['\t', '\n', '\u{0B}', '\u{0C}', '\r', ' ', '\u{85}', '\u{A0}', '\u{1680}', '\u{2000}', '\u{200A}', '\u{2028}', '\u{2029}', '\u{202F}', '\u{205F}', '\u{3000}'] {
        assert!(is_whitespace(c), "{c:?}");
        assert_eq!(is_whitespace(c), c.is_whitespace());
    }
}

#[test]
fn other_characters_are_not_white_space() {
    for c in ['a', '0', '$', '\u{08}', '\u{0E}', '\u{1F}', '\u{200B}', '\u{180E}', '\u{FEFF}', '\u{2060}', '\u{3001}'] {
        assert!(!is_whitespace(c), "{c:?}");
        assert_eq!(is_whitespace(c), c.is_whitespace());
    }
}

#[test]
fn tokens_are_trimmed_of_unicode_white_space_only() {
    assert_eq!(token_from_text("\u{3000}tok\u{85}").as_deref(), Some("tok"));
    assert_eq!(token_from_text("\u{200B}tok").as_deref(), Some("\u{200B}tok"));
}

#[test]
fn trim_agrees_with_std() {
    for text in ["", "   ", "  a b  ", "\u{3000}x\u{85}", "\u{200B} y ", "tab\t", "\n\r\u{2028}z\u{A0}"] {
        assert_eq!(trim(text), text.trim(), "{text:?}");
    }
}

#[test]
fn chars_of_lists_every_character() {
    assert_eq!(chars_of("a€\u{1F600}"), vec!['a', '€', '\u{1F600}']);
    assert!(chars_of("").is_empty());
}
