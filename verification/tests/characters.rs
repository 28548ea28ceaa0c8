use phpswitch::text::{chars_of, same_text, starts_with, CharClass};

#[test]
fn white_space_is_what_the_standard_library_calls_white_space() {
    for code in 0..=0x10FFFFu32 {
        if let Some(c) = char::from_u32(code) {
            assert_eq!(CharClass::Whitespace.holds(c), c.is_whitespace(), "for U+{:04X}", code);
        }
    }
}

#[test]
fn white_space_holds_the_common_blanks() {
    for c in [' ', '\t', '\n', '\r', '\u{b}', '\u{c}', '\u{85}', '\u{a0}', '\u{2028}', '\u{3000}'] {
        assert!(CharClass::Whitespace.holds(c));
    }
    for c in ['a', '"', '^', '|', '\u{0}', '\u{200b}', '\u{180e}', '\u{feff}'] {
        assert!(!CharClass::Whitespace.holds(c));
    }
}

#[test]
fn quote_is_the_double_quote_alone() {
    assert!(CharClass::Quote.holds('"'));
    for c in ['\'', '`', ' ', '\u{201c}', '\u{201d}'] {
        assert!(!CharClass::Quote.holds(c));
    }
}

#[test]
fn chars_of_gives_the_characters_in_order() {
    assert_eq!(chars_of(""), Vec::<char>::new());
    assert_eq!(chars_of("^8.1"), vec!['^', '8', '.', '1']);
    assert_eq!(chars_of("é ü"), vec!['é', ' ', 'ü']);
}

#[test]
fn starts_with_compares_character_by_character() {
    let text = chars_of("8.1.27");
    assert!(starts_with(&text, &chars_of("")));
    assert!(starts_with(&text, &chars_of("8")));
    assert!(starts_with(&text, &chars_of("8.1")));
    assert!(starts_with(&text, &chars_of("8.1.27")));
    assert!(!starts_with(&text, &chars_of("8.1.27.0")));
    assert!(!starts_with(&text, &chars_of("8.2")));
    assert!(!starts_with(&text, &chars_of(".1")));
    assert!(starts_with(&chars_of(""), &chars_of("")));
    assert!(!starts_with(&chars_of(""), &chars_of("8")));
}

#[test]
fn same_text_is_equality() {
    assert!(same_text("", ""));
    assert!(same_text("linux", "linux"));
    assert!(!same_text("linux", "linus"));
    assert!(!same_text("linux", "linu"));
    assert!(!same_text("linu", "linux"));
    assert!(!same_text("Linux", "linux"));
}
