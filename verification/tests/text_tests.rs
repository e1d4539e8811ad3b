use kindle_dict::text::{
    chars_of, comes_before, contains_char, ends_with, fold_case, join, lines, split, starts_with,
    string_of, trim,
};

#[test]
fn chars_and_strings_round_trip() {
    let v = chars_of("héllo");
    assert_eq!(v, vec!['h', 'é', 'l', 'l', 'o']);
    assert_eq!(string_of(&v, 1, 4), "éll");
    assert_eq!(string_of(&v, 2, 2), "");
}

#[test]
fn fold_case_lowers_every_letter() {
    assert_eq!(fold_case("HeLLo World"), "hello world");
    assert_eq!(fold_case("ÁBC"), "ábc");
    assert_eq!(fold_case(""), "");
}

#[test]
fn trim_removes_white_space_at_both_ends() {
    assert_eq!(trim("  a b \t\n"), "a b");
    assert_eq!(trim("\u{a0}x\u{2003}"), "x");
    assert_eq!(trim("   "), "");
    assert_eq!(trim(""), "");
    assert_eq!(trim("abc"), "abc");
}

#[test]
fn split_keeps_empty_pieces() {
    assert_eq!(split("a\tb\tc", '\t'), vec!["a", "b", "c"]);
    assert_eq!(split("", '\t'), vec![""]);
    assert_eq!(split("a,,b,", ','), vec!["a", "", "b", ""]);
    assert_eq!(split("abc", ':'), vec!["abc"]);
}

#[test]
fn split_agrees_with_the_standard_library() {
    for s in ["", "|", "a|b", "||", "IPA|en|/x/", "trans-top|thing"] {
        let expected: Vec<String> = s.split('|').map(|p| p.to_string()).collect();
        assert_eq!(split(s, '|'), expected);
    }
}

#[test]
fn lines_follow_the_standard_library() {
    for s in ["", "a", "a\n", "a\nb", "a\r\nb\r\n", "a\n\nb", "\n", "a\r", "a\rb\n", "\r\n\r\n", "x\n\r"] {
        let expected: Vec<String> = s.lines().map(|p| p.to_string()).collect();
        assert_eq!(lines(s), expected, "for {:?}", s);
    }
}

#[test]
fn join_puts_the_separator_between_parts() {
    let parts = vec!["a".to_string(), "b".to_string(), "c".to_string()];
    assert_eq!(join(&parts, ", "), "a, b, c");
    assert_eq!(join(&vec!["x".to_string()], " | "), "x");
    assert_eq!(join(&Vec::new(), ", "), "");
}

#[test]
fn prefixes_suffixes_and_characters() {
    assert!(ends_with("see", "ee"));
    assert!(!ends_with("e", "ee"));
    assert!(ends_with("abc", ""));
    assert!(starts_with("#comment", "#"));
    assert!(!starts_with("", "#"));
    assert!(contains_char("Category:Nouns", ':'));
    assert!(!contains_char("noun", ':'));
}

#[test]
fn order_is_that_of_string_comparison() {
    let words = ["", "a", "ab", "b", "UK", "US", "wiki", "é", "z"];
    for a in words {
        for b in words {
            assert_eq!(comes_before(a, b), a < b, "{:?} and {:?}", a, b);
        }
    }
}
