use bakery_shell::parser::Parser;

fn parse(line: &str) -> Vec<String> {
    let mut p = Parser::new();
    p.parse_arg_string(line)
}

fn strs(v: &[&str]) -> Vec<String> {
    v.iter().map(|s| s.to_string()).collect()
}

#[test]
fn splits_plain_words() {
    assert_eq!(parse("echo hello world"), strs(&["echo", "hello", "world"]));
}

#[test]
fn ignores_surrounding_and_repeated_whitespace() {
    assert_eq!(parse("   echo    a\t b  "), strs(&["echo", "a", "b"]));
}

#[test]
fn empty_and_blank_lines_give_nothing() {
    assert_eq!(parse(""), Vec::<String>::new());
    assert_eq!(parse("   \t "), Vec::<String>::new());
}

#[test]
fn unquoted_words_match_split_whitespace() {
    for line in ["ls -la /tmp", "  a  b\u{3000}c\u{85}d ", "x", "one\ttwo\nthree"] {
        let expected: Vec<String> = line.split_whitespace().map(|s| s.to_string()).collect();
        assert_eq!(parse(line), expected);
    }
}

#[test]
fn single_quotes_keep_text_literally() {
    assert_eq!(parse("echo 'hello   world'"), strs(&["echo", "hello   world"]));
    assert_eq!(parse("echo 'say \"hi\"'"), strs(&["echo", "say \"hi\""]));
}

#[test]
fn double_quotes_keep_spaces_and_single_quotes() {
    assert_eq!(parse("echo \"a 'b'  c\""), strs(&["echo", "a 'b'  c"]));
}

#[test]
fn adjacent_quotes_join() {
    assert_eq!(parse("echo 'a''b'"), strs(&["echo", "ab"]));
    assert_eq!(parse("echo 'a'\"b\""), strs(&["echo", "ab"]));
    assert_eq!(parse("echo \"x y\"'z'"), strs(&["echo", "x yz"]));
}

#[test]
fn text_after_quote_joins() {
    assert_eq!(parse("echo 'a b'c"), strs(&["echo", "a bc"]));
}

#[test]
fn text_before_quote_joins() {
    assert_eq!(parse("echo banana'orange'"), strs(&["echo", "bananaorange"]));
}

#[test]
fn backslash_outside_quotes_escapes() {
    assert_eq!(parse("echo \\ x"), strs(&["echo", " x"]));
    assert_eq!(parse("echo a\\nb"), strs(&["echo", "anb"]));
    assert_eq!(parse("echo \\'x"), strs(&["echo", "'x"]));
    assert_eq!(parse("echo a\\\"b"), strs(&["echo", "a\"b"]));
}

#[test]
fn double_backslash_gives_one() {
    assert_eq!(parse("echo a\\\\b"), strs(&["echo", "a\\b"]));
    assert_eq!(parse(r"echo a\\\b"), strs(&["echo", r"a\b"]));
    assert_eq!(parse(r"echo a\\\\b"), strs(&["echo", r"a\\b"]));
}

#[test]
fn backslash_in_single_quotes_is_literal() {
    assert_eq!(parse(r"echo 'a\nb'"), strs(&["echo", r"a\nb"]));
    assert_eq!(parse(r"echo 'a\'"), strs(&["echo", r"a\"]));
}

#[test]
fn backslash_in_double_quotes_escapes_only_some() {
    assert_eq!(
        parse(r#"echo "a\\b" "c\"d" "e\f" "\$x""#),
        strs(&["echo", r"a\b", r#"c"d"#, r"e\f", "$x"])
    );
}

#[test]
fn escape_right_after_quote_continues_the_word() {
    assert_eq!(parse(r#"echo 'a'\ b"#), strs(&["echo", "a b"]));
}

#[test]
fn backslash_in_double_quotes() {
    assert_eq!(parse("echo \"a\\\"b\""), strs(&["echo", "a\"b"]));
}

#[test]
fn empty_quotes_make_an_empty_argument() {
    assert_eq!(parse("''"), strs(&[""]));
    assert_eq!(parse("echo ''"), strs(&["echo", ""]));
}

#[test]
fn quoted_executable_name() {
    assert_eq!(parse("\"a b\""), strs(&["a b"]));
    assert_eq!(parse(r#""my exe" arg"#), strs(&["my exe", "arg"]));
    assert_eq!(parse("'a b' c"), strs(&["a b", "c"]));
    assert_eq!(parse(r#""exe with \"quotes\"" file"#), strs(&[r#"exe with "quotes""#, "file"]));
}

#[test]
fn parser_keeps_earlier_arguments() {
    let mut p = Parser::new();
    assert_eq!(p.parse_arg_string("a"), strs(&["a"]));
    assert_eq!(p.parse_arg_string("b c"), strs(&["a", "b", "c"]));
}
