use bakery_shell::text::{ends_with, is_whitespace, join_strings, starts_with, str_eq, trim_end_string, trim_string};

#[test]
fn whitespace_matches_std_for_every_char() {
    for u in 0u32..=0x10FFFF {
        if let Some(c) = char::from_u32(u) {
            assert_eq!(is_whitespace(c), c.is_whitespace(), "code point {:x}", u);
        }
    }
}

#[test]
fn trim_matches_std() {
    for s in ["", "  ", " a ", "\u{3000}x y\u{2028}", "abc", "\t\nq"] {
        assert_eq!(trim_string(s), s.trim());
        assert_eq!(trim_end_string(s), s.trim_end());
    }
}

#[test]
fn prefix_suffix_and_equality() {
    assert!(starts_with("complete", "comp"));
    assert!(!starts_with("co", "comp"));
    assert!(starts_with("x", ""));
    assert!(ends_with("dir/", "/"));
    assert!(!ends_with("file", "/"));
    assert!(str_eq("é", "é"));
    assert!(!str_eq("a", "ab"));
}

#[test]
fn join_puts_separator_between() {
    let parts = vec!["a".to_string(), "b".to_string(), "c".to_string()];
    assert_eq!(join_strings(&parts, ", "), "a, b, c");
    assert_eq!(join_strings(&vec![], " "), "");
    assert_eq!(join_strings(&vec!["x".to_string()], " "), "x");
}
