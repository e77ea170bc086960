use unstyled::text::{
    collapse_whitespace, is_alphabetic_char, is_alphanumeric_char, is_whitespace_char, matches_at,
    replace_all, string_of, to_chars,
};

#[test]
fn to_chars_keeps_every_character() {
    assert_eq!(to_chars("a{é}"), vec!['a', '{', 'é', '}']);
    assert_eq!(to_chars(""), Vec::<char>::new());
}

#[test]
fn string_of_takes_the_range() {
    let chars = vec!['a', 'b', 'c', 'd'];
    assert_eq!(string_of(&chars, 1, 3), "bc");
    assert_eq!(string_of(&chars, 0, 4), "abcd");
    assert_eq!(string_of(&chars, 2, 2), "");
}

#[test]
fn matches_at_finds_the_pattern_in_place() {
    let text = to_chars("a > b");
    assert!(matches_at(&text, 1, &to_chars(" > ")));
    assert!(!matches_at(&text, 0, &to_chars(" > ")));
    assert!(!matches_at(&text, 3, &to_chars(" > ")));
    assert!(!matches_at(&text, 9, &to_chars(">")));
    assert!(matches_at(&text, 5, &to_chars("")));
}

#[test]
fn collapse_whitespace_joins_words_by_single_spaces() {
    assert_eq!(collapse_whitespace("  a \t\n b  "), "a b");
    assert_eq!(collapse_whitespace("a b"), "a b");
    assert_eq!(collapse_whitespace(".test {display:   block;}"), ".test {display: block;}");
}

#[test]
fn collapse_whitespace_of_nothing_is_nothing() {
    assert_eq!(collapse_whitespace(""), "");
    assert_eq!(collapse_whitespace(" \n\t "), "");
}

#[test]
fn collapse_whitespace_knows_unicode_whitespace() {
    assert_eq!(collapse_whitespace("\u{a0}a\u{2003}\u{3000}b\u{85}"), "a b");
    assert_eq!(collapse_whitespace("a\u{200b}b"), "a\u{200b}b");
}

#[test]
fn collapse_whitespace_agrees_with_split_and_join() {
    for text in ["", " ", "a", " a", "a ", " a  b\tc\n", "\n\n.x\r\n{ y : z }\n"] {
        let expected = text.split_whitespace().collect::<Vec<_>>().join(" ");
        assert_eq!(collapse_whitespace(text), expected);
    }
}

#[test]
fn replace_all_replaces_from_left_to_right() {
    assert_eq!(replace_all("a::b", "::", ":"), "a:b");
    assert_eq!(replace_all("a::b:::c", "::", ":"), "a:b::c");
    assert_eq!(replace_all("aaa", "aa", "b"), "ba");
    assert_eq!(replace_all("aaaa", "aa", "b"), "bb");
    assert_eq!(replace_all("x > y > z", " > ", ">"), "x>y>z");
}

#[test]
fn replace_all_without_occurrence_changes_nothing() {
    assert_eq!(replace_all("abc", "x", "y"), "abc");
    assert_eq!(replace_all("", "x", "y"), "");
    assert_eq!(replace_all("ab", "abc", "y"), "ab");
}

#[test]
fn replace_all_with_empty_pattern_puts_the_text_between_the_characters() {
    assert_eq!(replace_all("abc", "", "y"), "yaybycy");
    assert_eq!(replace_all("", "", "y"), "y");
    assert_eq!(replace_all("abc", "", ""), "abc");
}

#[test]
fn replace_all_may_lengthen() {
    assert_eq!(replace_all("a.b", ".", "::"), "a::b");
}

#[test]
fn replace_all_agrees_with_str_replace() {
    for (text, from, to) in [
        ("a::b::::c", "::", ":"),
        ("  >  > ", " > ", ">"),
        ("ababab", "aba", "x"),
        ("é > é", " > ", ">"),
        ("aé", "", "-"),
        ("", "", "xy"),
        ("", "a", "b"),
    ] {
        assert_eq!(replace_all(text, from, to), text.replace(from, to));
    }
}

#[test]
fn whitespace_within_ascii() {
    for c in [' ', '\t', '\n', '\u{b}', '\u{c}', '\r'] {
        assert!(is_whitespace_char(c));
    }
    for c in ['\0', '\u{8}', '\u{e}', '\u{1f}', '!', 'a', '0', '{', '\u{7f}'] {
        assert!(!is_whitespace_char(c));
    }
}

#[test]
fn whitespace_beyond_ascii() {
    for c in ['\u{85}', '\u{a0}', '\u{1680}', '\u{2000}', '\u{200a}', '\u{2028}', '\u{3000}'] {
        assert!(is_whitespace_char(c));
    }
    for c in ['\u{80}', '\u{200b}', 'é', '京'] {
        assert!(!is_whitespace_char(c));
    }
}

#[test]
fn alphabetic_within_ascii() {
    for c in ['a', 'm', 'z', 'A', 'M', 'Z'] {
        assert!(is_alphabetic_char(c));
    }
    for c in ['0', '9', '_', '-', '@', '[', '`', '{', '}', ' ', '\u{7f}'] {
        assert!(!is_alphabetic_char(c));
    }
}

#[test]
fn alphabetic_beyond_ascii() {
    for c in ['é', 'ß', 'λ', '京'] {
        assert!(is_alphabetic_char(c));
    }
    for c in ['\u{a0}', '×', '٣', '💝'] {
        assert!(!is_alphabetic_char(c));
    }
}

#[test]
fn alphanumeric_within_ascii() {
    for c in ['a', 'z', 'A', 'Z', '0', '5', '9'] {
        assert!(is_alphanumeric_char(c));
    }
    for c in ['_', '-', '@', '/', ':', '[', '`', '{', ' '] {
        assert!(!is_alphanumeric_char(c));
    }
}

#[test]
fn alphanumeric_beyond_ascii() {
    for c in ['é', '京', '٣', '¾', '①'] {
        assert!(is_alphanumeric_char(c));
    }
    for c in ['\u{a0}', '×', '💝'] {
        assert!(!is_alphanumeric_char(c));
    }
}

#[test]
fn classes_agree_with_char_on_every_character() {
    for code in 0..=0x10ffffu32 {
        if let Some(c) = char::from_u32(code) {
            assert_eq!(is_whitespace_char(c), c.is_whitespace());
            assert_eq!(is_alphabetic_char(c), c.is_alphabetic());
            assert_eq!(is_alphanumeric_char(c), c.is_alphanumeric());
        }
    }
}
