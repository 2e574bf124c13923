use docgen::text::{
    char_index_at, cut,
    chars_of, followed_by, ends_with, find_folded, find_in, indentation, is_whitespace,
    letter_matches, line_at_offset, matches_at, same_text, shorter_than, skip_spaces,
    skip_spaces_back, slice_of, starts_with, strip_leading, strip_markers, strip_trailing,
    text_of, trim,
};

fn c(s: &str) -> Vec<char> {
    s.chars().collect()
}

#[test]
fn characters_and_text_convert_both_ways() {
    assert_eq!(chars_of("añ€😀"), vec!['a', 'ñ', '€', '😀']);
    assert_eq!(text_of(&c("añ€😀")), "añ€😀");
    assert_eq!(text_of(&vec![]), "");
    assert_eq!(chars_of(""), Vec::<char>::new());
}

#[test]
fn white_space_is_what_unicode_says() {
    for ch in [' ', '\t', '\n', '\r', '\u{0B}', '\u{0C}', '\u{85}', '\u{A0}', '\u{1680}', '\u{2000}', '\u{200A}', '\u{2028}', '\u{2029}', '\u{202F}', '\u{205F}', '\u{3000}'] {
        assert!(is_whitespace(ch), "{:?}", ch);
        assert!(ch.is_whitespace());
    }
    for ch in ['a', '\u{200B}', '\u{180E}', '\u{1F}', '\u{FEFF}', '/'] {
        assert!(!is_whitespace(ch), "{:?}", ch);
        assert!(!ch.is_whitespace());
    }
}

#[test]
fn trimming() {
    assert_eq!(trim(&c("  a b \t\n")), c("a b"));
    assert_eq!(trim(&c(" \u{3000} ")), c(""));
    assert_eq!(trim(&c("")), c(""));
    assert_eq!(trim(&c("x")), c("x"));
    assert_eq!(skip_spaces(&c("  ab"), 0), 2);
    assert_eq!(skip_spaces(&c("  ab"), 3), 3);
    assert_eq!(skip_spaces(&c("   "), 1), 3);
    assert_eq!(skip_spaces_back(&c("ab  "), 4), 2);
    assert_eq!(skip_spaces_back(&c("   "), 3), 0);
    assert_eq!(indentation(&c("\t  def f():")), c("\t  "));
    assert_eq!(indentation(&c("def")), c(""));
    assert_eq!(indentation(&c("   ")), c("   "));
}

#[test]
fn prefixes_suffixes_and_occurrences() {
    assert!(starts_with(&c("/// x"), &c("///")));
    assert!(!starts_with(&c("// x"), &c("///")));
    assert!(starts_with(&c("abc"), &c("")));
    assert!(!starts_with(&c("ab"), &c("abc")));
    assert!(ends_with(&c("text */"), &c("*/")));
    assert!(!ends_with(&c("*/ text"), &c("*/")));
    assert!(ends_with(&c(""), &c("")));
    assert!(matches_at(&c("abcabc"), &c("bc"), 4));
    assert!(!matches_at(&c("abcabc"), &c("bc"), 5));
    assert!(!matches_at(&c("abc"), &c("a"), 9));
    assert!(find_in(&c("say hello"), &c("hello")));
    assert!(find_in(&c("hello"), &c("")));
    assert!(find_in(&c(""), &c("")));
    assert!(!find_in(&c("hell"), &c("hello")));
    assert!(!find_in(&c("Hello"), &c("hello")));
    assert!(same_text(&c("abc"), &c("abc")));
    assert!(!same_text(&c("abc"), &c("abd")));
    assert!(!same_text(&c("abc"), &c("ab")));
}

#[test]
fn occurrences_in_any_case() {
    assert!(find_folded(&c("It RETURNS."), &c("return")));
    assert!(find_folded(&c("return"), &c("return")));
    assert!(!find_folded(&c("retur n"), &c("return")));
    assert!(!find_folded(&c("retur"), &c("return")));
    // The Kelvin sign has the lower case form k, as in str::to_lowercase.
    assert!(find_folded(&c("tas\u{212A}"), &c("task")));
    assert!("tas\u{212A}".to_lowercase().contains("task"));
    assert!(letter_matches('R', 'r'));
    assert!(letter_matches('r', 'r'));
    assert!(!letter_matches('r', 'R'));
    assert!(!letter_matches('@', '`'));
}

#[test]
fn stripping() {
    assert_eq!(strip_markers(&c("**kwargs")), c("kwargs"));
    assert_eq!(strip_markers(&c("key=")), c("key"));
    assert_eq!(strip_markers(&c("=*a*b=*")), c("a*b"));
    assert_eq!(strip_markers(&c("*=*")), c(""));
    assert_eq!(strip_markers(&c("")), c(""));
    assert_eq!(strip_leading(&c("////// x"), &c("///")), c(" x"));
    assert_eq!(strip_leading(&c("//// x"), &c("///")), c("/ x"));
    assert_eq!(strip_leading(&c("x"), &c("")), c("x"));
    assert_eq!(strip_leading(&c("***"), &c("*")), c(""));
    assert_eq!(strip_trailing(&c("text */*/"), &c("*/")), c("text "));
    assert_eq!(strip_trailing(&c("text *"), &c("*/")), c("text *"));
    assert_eq!(strip_trailing(&c("*/"), &c("*/")), c(""));
}

#[test]
fn copies() {
    assert_eq!(slice_of(&c("abcdef"), 2, 4), c("cd"));
    assert_eq!(slice_of(&c("abcdef"), 3, 3), c(""));
    assert_eq!(followed_by(&c("ab"), &c("cd")), c("abcd"));
    assert_eq!(followed_by(&c(""), &c("")), c(""));
}

#[test]
fn byte_lengths_and_offsets() {
    assert!(shorter_than(&c("123456789"), 10));
    assert!(!shorter_than(&c("1234567890"), 10));
    assert!(!shorter_than(&c("€€€€"), 12));
    assert!(shorter_than(&c("€€€€"), 13));
    assert!(!shorter_than(&c(""), 0));
    assert!(shorter_than(&c(""), 1));
    assert!(!shorter_than(&c("😀"), 4));
    let text = c("a\nñ\n😀b\nc");
    // bytes: a=0 \n=1 ñ=2..3 \n=4 😀=5..8 b=9 \n=10 c=11
    assert_eq!(line_at_offset(&text, 0), 1);
    assert_eq!(line_at_offset(&text, 1), 1);
    assert_eq!(line_at_offset(&text, 2), 2);
    assert_eq!(line_at_offset(&text, 4), 2);
    assert_eq!(line_at_offset(&text, 5), 3);
    assert_eq!(line_at_offset(&text, 9), 3);
    assert_eq!(line_at_offset(&text, 10), 3);
    assert_eq!(line_at_offset(&text, 11), 4);
    assert_eq!(line_at_offset(&text, 500), 4);
    assert_eq!(line_at_offset(&c(""), 0), 1);
}

#[test]
fn texts_are_cut_at_bytes() {
    let text = c("añ€😀b");
    // bytes: a=0 ñ=1..2 €=3..5 😀=6..9 b=10
    assert_eq!(char_index_at(&text, 0), 0);
    assert_eq!(char_index_at(&text, 1), 1);
    assert_eq!(char_index_at(&text, 2), 2);
    assert_eq!(char_index_at(&text, 3), 2);
    assert_eq!(char_index_at(&text, 6), 3);
    assert_eq!(char_index_at(&text, 10), 4);
    assert_eq!(char_index_at(&text, 11), 5);
    assert_eq!(char_index_at(&text, 99), 5);
    assert_eq!(cut(&text, 1, 6), c("ñ€"));
    assert_eq!(cut(&text, 0, 11), c("añ€😀b"));
    assert_eq!(cut(&text, 3, 3), c(""));
    assert_eq!(cut(&text, 6, 3), c(""));
    assert_eq!(cut(&text, 10, 99), c("b"));
    assert_eq!(cut(&c(""), 0, 4), c(""));
    assert_eq!("añ€😀b".get(1..6), Some("ñ€"));
}
