use super_shell::text::{
    chars_of, contains_text, is_white_space_char, remove_all_text, trim,
};

#[test]
fn trim_removes_surrounding_white_space() {
    assert_eq!(trim("  hello world \n"), "hello world");
    assert_eq!(trim("\t\r\nroot\n"), "root");
    assert_eq!(trim("no-space"), "no-space");
}

#[test]
fn trim_of_blank_text_is_empty() {
    assert_eq!(trim(""), "");
    assert_eq!(trim(" \n\t "), "");
}

#[test]
fn trim_knows_unicode_white_space() {
    assert_eq!(trim("\u{3000}x y\u{a0}\u{2028}"), "x y");
    assert_eq!(trim("\u{85}z\u{200a}"), "z");
}

#[test]
fn trim_matches_std_on_samples() {
    for s in ["", " a ", "\u{1680}b\u{202f}", "c\u{205f}\n", "\u{200b}d", "  e  f  "] {
        assert_eq!(trim(s), s.trim());
    }
}

#[test]
fn white_space_characters() {
    for c in [' ', '\t', '\n', '\u{b}', '\u{c}', '\r', '\u{85}', '\u{a0}', '\u{2000}', '\u{3000}'] {
        assert!(is_white_space_char(c));
        assert!(c.is_whitespace());
    }
    for c in ['a', '~', '\u{200b}', '\u{0}', '\u{2030}'] {
        assert!(!is_white_space_char(c));
        assert!(!c.is_whitespace());
    }
}

#[test]
fn chars_of_keeps_order() {
    assert_eq!(chars_of("a~é"), vec!['a', '~', 'é']);
    assert_eq!(chars_of(""), Vec::<char>::new());
}

#[test]
fn contains_finds_pattern_anywhere() {
    assert!(contains_text("abc~end~", "~end~"));
    assert!(contains_text("~end~abc", "~end~"));
    assert!(contains_text("ab", ""));
    assert!(!contains_text("~en~d~", "~end~"));
    assert!(!contains_text("", "x"));
}

#[test]
fn remove_all_drops_every_occurrence() {
    assert_eq!(remove_all_text("a--b--c", "--"), "abc");
    assert_eq!(remove_all_text("--", "--"), "");
    assert_eq!(remove_all_text("abc", "--"), "abc");
}

#[test]
fn remove_all_scans_from_the_left_without_overlap() {
    assert_eq!(remove_all_text("aaa", "aa"), "a");
    assert_eq!(remove_all_text("aaaa", "aa"), "");
    assert_eq!(remove_all_text("xaaay", "aa"), "xay");
    assert_eq!(remove_all_text("aaa", "aa"), "aaa".replace("aa", ""));
}
