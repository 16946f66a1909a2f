use zugzwang::text::{
    chars_of, count_char, is_whitespace, push_decimal, split_at_char, split_fields, starts_with,
    string_of, trimmed, CharClass,
};

fn chars(s: &str) -> Vec<char> {
    s.chars().collect()
}

#[test]
fn white_space_is_what_the_standard_library_says() {
    for code in 0..=0x10FFFFu32 {
        if let Some(c) = char::from_u32(code) {
            assert_eq!(is_whitespace(c), c.is_whitespace(), "U+{:04X}", code);
        }
    }
}

#[test]
fn classes_hold_their_characters() {
    assert!(CharClass::Space.contains(' '));
    assert!(!CharClass::Space.contains('x'));
    assert!(CharClass::Word.contains('x'));
    assert!(!CharClass::Word.contains('\n'));
    assert!(CharClass::Except('/').contains('x'));
    assert!(!CharClass::Except('/').contains('/'));
}

#[test]
fn strings_and_characters_convert_both_ways() {
    for s in ["", "abc", "a\u{e9}\u{1F600}z", " \n"] {
        assert_eq!(chars_of(s), chars(s));
        assert_eq!(string_of(&chars(s)), s);
    }
}

#[test]
fn trimming_agrees_with_the_standard_library() {
    for s in ["", " ", "a", "  a b  ", "\t\n x \r\n", "\u{3000}x\u{a0}", "x  ", "  x", " \u{85} "] {
        assert_eq!(string_of(&trimmed(&chars(s))), s.trim(), "{:?}", s);
    }
}

#[test]
fn fields_agree_with_the_standard_library() {
    for s in ["", "   ", "a", "a b", "  a  b\tc\n", "rnbq w KQkq - 0 1", "x\u{2003}y\u{a0}"] {
        let ours: Vec<String> = split_fields(&chars(s)).iter().map(string_of).collect();
        let theirs: Vec<String> = s.split_whitespace().map(String::from).collect();
        assert_eq!(ours, theirs, "{:?}", s);
    }
}

#[test]
fn splitting_agrees_with_the_standard_library() {
    for s in ["", "/", "a", "a/b", "/a//b/", "8/8/8/8/8/8/8/8", "//"] {
        let ours: Vec<String> = split_at_char(&chars(s), '/').iter().map(string_of).collect();
        let theirs: Vec<String> = s.split('/').map(String::from).collect();
        assert_eq!(ours, theirs, "{:?}", s);
    }
}

#[test]
fn characters_are_counted() {
    assert_eq!(count_char(&chars(""), 'K'), 0);
    assert_eq!(count_char(&chars("KkKpK"), 'K'), 3);
    assert_eq!(count_char(&chars("KkKpK"), 'k'), 1);
    assert_eq!(count_char(&chars("KkKpK"), 'x'), 0);
}

#[test]
fn prefixes_are_found() {
    assert!(starts_with(&chars("MOVE: e4"), &chars("MOVE:")));
    assert!(starts_with(&chars("MOVE:"), &chars("MOVE:")));
    assert!(starts_with(&chars("x"), &chars("")));
    assert!(!starts_with(&chars("MOV"), &chars("MOVE:")));
    assert!(!starts_with(&chars("move: e4"), &chars("MOVE:")));
}

#[test]
fn numbers_are_written_in_decimal() {
    for n in [0u64, 1, 9, 10, 11, 99, 100, 101, 12345, 1_000_000, u64::MAX] {
        let mut out = String::from("n=");
        push_decimal(&mut out, n);
        assert_eq!(out, format!("n={}", n));
    }
}
