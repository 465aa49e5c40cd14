use sonicbot_matrix::text::{
    chars_of, is_whitespace, join_text, lex_le_text, split_text, starts_with_text, trim_end_char,
    words_of,
};

#[test]
fn words_split_on_unicode_whitespace() {
    assert_eq!(words_of("  !help   list\tnow\n"), vec!["!help", "list", "now"]);
    assert_eq!(words_of("a\u{3000}b\u{00A0}c"), vec!["a", "b", "c"]);
    assert!(words_of("   ").is_empty());
    assert!(words_of("").is_empty());
    assert!(is_whitespace('\u{2028}'));
    assert!(!is_whitespace('x'));
    assert!(!is_whitespace('\u{200B}'));
}

#[test]
fn split_keeps_empty_pieces() {
    assert_eq!(split_text("tea or coffee or water", " or "), vec!["tea", "coffee", "water"]);
    assert_eq!(split_text("tea", " or "), vec!["tea"]);
    assert_eq!(split_text("", " or "), vec![""]);
    assert_eq!(split_text(" or tea or ", " or "), vec!["", "tea", ""]);
    assert_eq!(split_text("a.b.c", "."), vec!["a", "b", "c"]);
    assert_eq!(split_text("aaa", "aa"), vec!["", "a"]);
}

#[test]
fn join_puts_separator_between() {
    let parts = vec!["a".to_string(), "b".to_string(), "c".to_string()];
    assert_eq!(join_text(&parts, ", "), "a, b, c");
    assert_eq!(join_text(&vec!["x".to_string()], ", "), "x");
    assert_eq!(join_text(&Vec::new(), ", "), "");
}

#[test]
fn trimming_slashes_is_idempotent() {
    let once = trim_end_char("https://example.org///", '/');
    assert_eq!(once, "https://example.org");
    assert_eq!(trim_end_char(&once, '/'), once);
    assert_eq!(trim_end_char("///", '/'), "");
    assert_eq!(trim_end_char("a/b", '/'), "a/b");
}

#[test]
fn prefix_check() {
    assert!(starts_with_text("!help list", "!"));
    assert!(starts_with_text("abc", ""));
    assert!(!starts_with_text("help", "!"));
    assert!(!starts_with_text("!", "!!"));
}

#[test]
fn lexicographic_order_by_code_point() {
    assert!(lex_le_text(&chars_of("abc"), &chars_of("abd")));
    assert!(!lex_le_text(&chars_of("abd"), &chars_of("abc")));
    assert!(lex_le_text(&chars_of("ab"), &chars_of("abc")));
    assert!(!lex_le_text(&chars_of("abc"), &chars_of("ab")));
    assert!(lex_le_text(&chars_of("B"), &chars_of("a")));
    assert!(lex_le_text(&chars_of("z"), &chars_of("é")));
    assert!(lex_le_text(&chars_of("same"), &chars_of("same")));
}
