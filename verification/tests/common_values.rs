use rustydeb::text::{
    char_is_whitespace, contains, ends_with, same_text, slice_text, starts_with, to_chars, trimmed,
};

#[test]
fn whitespace_is_the_unicode_property() {
    for c in [' ', '\t', '\n', '\u{0B}', '\u{0C}', '\r', '\u{85}', '\u{A0}', '\u{1680}', '\u{2000}',
        '\u{200A}', '\u{2028}', '\u{2029}', '\u{202F}', '\u{205F}', '\u{3000}']
    {
        assert!(char_is_whitespace(c), "{:?}", c);
    }
    for c in ['a', '0', ':', '.', '\u{0}', '\u{08}', '\u{0E}', '\u{200B}', '\u{180E}', '\u{FEFF}'] {
        assert!(!char_is_whitespace(c), "{:?}", c);
    }
}

#[test]
fn whitespace_agrees_with_std_on_every_char() {
    let mut code: u32 = 0;
    while code <= 0x10FFFF {
        if let Some(c) = char::from_u32(code) {
            assert_eq!(char_is_whitespace(c), c.is_whitespace(), "U+{:04X}", code);
        }
        code += 1;
    }
}

#[test]
fn to_chars_keeps_every_character() {
    assert_eq!(to_chars("a\u{e9}\u{1F600}b"), vec!['a', '\u{e9}', '\u{1F600}', 'b']);
    assert_eq!(to_chars(""), Vec::<char>::new());
}

#[test]
fn slice_text_counts_characters_not_bytes() {
    assert_eq!(slice_text("h\u{e9}llo", 1, 3), "\u{e9}l");
    assert_eq!(slice_text("abc", 3, 3), "");
    assert_eq!(slice_text("abc", 0, 3), "abc");
}

#[test]
fn trimmed_drops_whitespace_at_both_ends_only() {
    assert_eq!(trimmed("  a b \t\r\n"), "a b");
    assert_eq!(trimmed("\u{3000}x\u{A0}"), "x");
    assert_eq!(trimmed(" \t "), "");
    assert_eq!(trimmed(""), "");
    assert_eq!(trimmed("x"), "x");
}

#[test]
fn trimmed_agrees_with_std() {
    for s in ["", " ", "a", " a", "a ", "  a  b  ", "\n\ta\u{2003}", "\u{200B} a", "\u{85}z\u{1680}"] {
        assert_eq!(trimmed(s), s.trim());
    }
}

#[test]
fn prefix_suffix_and_substring() {
    assert!(starts_with("control.tar.xz", "control.tar"));
    assert!(!starts_with("xcontrol.tar", "control.tar"));
    assert!(!starts_with("con", "control.tar"));
    assert!(starts_with("abc", ""));
    assert!(ends_with("data.tar.gz", ".tar.gz"));
    assert!(!ends_with("data.tar.gz", ".tar"));
    assert!(!ends_with("gz", ".tar.gz"));
    assert!(ends_with("abc", ""));
    assert!(contains("a.tar.b", ".tar"));
    assert!(contains(".tar", ".tar"));
    assert!(!contains("a.ta", ".tar"));
    assert!(!contains("", ".tar"));
    assert!(contains("", ""));
}

#[test]
fn same_text_compares_whole_texts() {
    assert!(same_text("deb", "deb"));
    assert!(!same_text("deb", "debx"));
    assert!(!same_text("Deb", "deb"));
    assert!(same_text("", ""));
}
