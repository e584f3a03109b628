use winnowcurl::text::{
    chars_of, find_char, find_seq, gap_end, is_space_char, occurs_at, run_end, same_chars,
    slice_of, starts_with, string_of, to_string, trim_bounds, trimmed, CharClass,
};

fn chars(s: &str) -> Vec<char> {
    s.chars().collect()
}

fn every_char() -> impl Iterator<Item = char> {
    (0u32..=0x10ffff).filter_map(char::from_u32)
}

#[test]
fn classes_agree_with_the_standard_library() {
    for c in every_char() {
        assert_eq!(CharClass::Digit.has(c), c.is_ascii_digit());
        assert_eq!(CharClass::Alpha.has(c), c.is_ascii_alphabetic());
        assert_eq!(CharClass::Alphanumeric.has(c), c.is_ascii_alphanumeric());
        assert_eq!(CharClass::HexDigit.has(c), c.is_ascii_hexdigit());
        assert_eq!(CharClass::HexDigit.has(c), c.is_digit(16));
        assert_eq!(CharClass::Whitespace.has(c), c.is_whitespace());
        assert_eq!(CharClass::Blank.has(c), c == ' ' || c == '\t');
        assert_eq!(CharClass::Multispace.has(c), matches!(c, ' ' | '\t' | '\r' | '\n'));
        assert_eq!(CharClass::LineFeed.has(c), c == '\n');
        assert_eq!(CharClass::LineBreak.has(c), c == '\r' || c == '\n');
        assert_eq!(CharClass::Is('=').has(c), c == '=');
        assert_eq!(is_space_char(c), CharClass::Multispace.has(c));
    }
}

#[test]
fn characters_go_to_and_from_strings() {
    for s in ["", "a", "h\u{e9}llo \u{1F600}!", "line\nfeed\ttab"] {
        assert_eq!(chars_of(s), chars(s));
        assert_eq!(to_string(&chars(s)), s);
    }
    let v = chars("h\u{e9}llo");
    assert_eq!(string_of(&v, 1, 3), "\u{e9}l");
    assert_eq!(string_of(&v, 2, 2), "");
    assert_eq!(string_of(&v, 0, 5), "h\u{e9}llo");
    assert_eq!(slice_of(&v, 1, 4), chars("\u{e9}ll"));
    assert_eq!(slice_of(&v, 5, 5), chars(""));
}

#[test]
fn texts_are_compared_character_by_character() {
    assert!(same_chars(&chars("abc"), &chars("abc")));
    assert!(same_chars(&chars(""), &chars("")));
    assert!(!same_chars(&chars("abc"), &chars("abd")));
    assert!(!same_chars(&chars("abc"), &chars("ab")));
    assert!(!same_chars(&chars(""), &chars("a")));
    assert!(starts_with(&chars("--data-raw"), &chars("--data")));
    assert!(starts_with(&chars("--data"), &chars("--data")));
    assert!(starts_with(&chars("x"), &chars("")));
    assert!(!starts_with(&chars("--dat"), &chars("--data")));
    assert!(!starts_with(&chars("-data"), &chars("--data")));
    assert!(occurs_at(&chars("a://b"), 1, &chars("://")));
    assert!(!occurs_at(&chars("a://b"), 2, &chars("://")));
    assert!(!occurs_at(&chars("a:/"), 1, &chars("://")));
    assert!(occurs_at(&chars("abc"), 3, &chars("")));
}

#[test]
fn searches_find_the_first_place() {
    for (s, c) in [("a/b/c", '/'), ("abc", '/'), ("", '/'), ("/", '/'), ("a?b", '?')] {
        for from in 0..=s.chars().count() {
            let tail: String = s.chars().skip(from).collect();
            let expected = tail.chars().position(|x| x == c).map(|p| p + from).unwrap_or(s.chars().count());
            assert_eq!(find_char(&chars(s), c, from), expected);
        }
    }
    assert_eq!(find_seq(&chars("http://a://b"), &chars("://"), 0), 4);
    assert_eq!(find_seq(&chars("http://a://b"), &chars("://"), 5), 8);
    assert_eq!(find_seq(&chars("http:/a"), &chars("://"), 0), 7);
    assert_eq!(find_seq(&chars("ab"), &chars(""), 1), 1);
    assert_eq!(find_seq(&chars("ab"), &chars(""), 2), 2);
    assert_eq!(find_seq(&chars(""), &chars("a"), 0), 0);
}

#[test]
fn runs_and_gaps_end_where_the_class_changes() {
    let s = chars("123abc  \t\nx");
    assert_eq!(run_end(&s, 0, CharClass::Digit), 3);
    assert_eq!(run_end(&s, 1, CharClass::Digit), 3);
    assert_eq!(run_end(&s, 3, CharClass::Digit), 3);
    assert_eq!(run_end(&s, 0, CharClass::Alphanumeric), 6);
    assert_eq!(run_end(&s, 6, CharClass::Blank), 9);
    assert_eq!(run_end(&s, 6, CharClass::Multispace), 10);
    assert_eq!(run_end(&s, 10, CharClass::Alpha), 11);
    assert_eq!(run_end(&s, 11, CharClass::Alpha), 11);
    assert_eq!(gap_end(&s, 0, CharClass::Alpha), 3);
    assert_eq!(gap_end(&s, 3, CharClass::Alpha), 3);
    assert_eq!(gap_end(&s, 0, CharClass::LineBreak), 9);
    assert_eq!(gap_end(&s, 0, CharClass::Is('=')), 11);
    assert_eq!(gap_end(&s, 11, CharClass::Is('=')), 11);
}

#[test]
fn trimming_agrees_with_the_standard_library() {
    let samples = [
        "",
        " ",
        "a",
        "  a b  ",
        "\r\n\u{a0}Host\u{3000}\t",
        "\u{85}x\u{2028}",
        "\u{200b} x \u{200b}",
        " \n ",
    ];
    for s in samples {
        let v = chars(s);
        assert_eq!(to_string(&trimmed(&v, 0, v.len(), CharClass::Whitespace)), s.trim());
        let (a, b) = trim_bounds(&v, 0, v.len(), CharClass::Whitespace);
        assert_eq!(string_of(&v, a, b), s.trim());
        assert_eq!(
            to_string(&trimmed(&v, 0, v.len(), CharClass::Multispace)),
            s.trim_matches(|c| matches!(c, ' ' | '\t' | '\r' | '\n'))
        );
    }
    let v = chars("  a b  ");
    assert_eq!(trim_bounds(&v, 1, 6, CharClass::Blank), (2, 5));
    assert_eq!(trim_bounds(&v, 0, 2, CharClass::Blank), (2, 2));
    assert_eq!(trim_bounds(&v, 3, 4, CharClass::Blank), (4, 4));
    assert_eq!(trimmed(&v, 2, 5, CharClass::Alpha), chars(" "));
}
