use bakery_shell::shell::{split_lines, CommandError, ShellCommand, ShellHelper};

fn strs(v: &[&str]) -> Vec<String> {
    v.iter().map(|s| s.to_string()).collect()
}

#[test]
fn builtin_names() {
    assert!(matches!(ShellCommand::from_str("exit"), Ok(ShellCommand::Exit)));
    assert!(matches!(ShellCommand::from_str("echo"), Ok(ShellCommand::Echo)));
    assert!(matches!(ShellCommand::from_str("type"), Ok(ShellCommand::Type)));
    assert!(matches!(ShellCommand::from_str("pwd"), Ok(ShellCommand::Pwd)));
    assert!(matches!(ShellCommand::from_str(" cd\t"), Ok(ShellCommand::Cd)));
    assert!(matches!(ShellCommand::from_str("complete"), Ok(ShellCommand::Complete)));
    assert!(matches!(ShellCommand::from_str("Echo"), Err(CommandError::NotFound)));
    assert!(matches!(ShellCommand::from_str("ls"), Err(CommandError::NotFound)));
    assert!(matches!(ShellCommand::from_str(""), Err(CommandError::NotFound)));
}

#[test]
fn not_found_message() {
    assert_eq!(ShellHelper::handle_not_found("  foo "), "foo: command not found");
}

#[test]
fn redirected_file_contents() {
    assert_eq!(ShellHelper::redirect_contents("hi", None), "hi");
    assert_eq!(ShellHelper::redirect_contents("hi", Some("old".to_string())), "old\nhi");
    assert_eq!(ShellHelper::redirect_contents("hi", Some(String::new())), "hi");
    assert_eq!(ShellHelper::redirect_contents("", None), "");
}

#[test]
fn completion_registry_read_after_write() {
    let mut h = ShellHelper::new();
    assert_eq!(h.completion_for("git"), None);
    h.set_completion("git".to_string(), "/a".to_string());
    h.set_completion("ls".to_string(), "/b".to_string());
    h.set_completion("git".to_string(), "/c".to_string());
    assert_eq!(h.completion_for("git"), Some("/c".to_string()));
    assert_eq!(h.completion_for("ls"), Some("/b".to_string()));
    assert_eq!(h.completion_for("cat"), None);
}

#[test]
fn completer_invocation_arguments() {
    let mut h = ShellHelper::new();
    assert!(h.completer_invocation(&strs(&["git", "co"])).is_none());
    h.set_completion("git".to_string(), "/usr/local/bin/gitc".to_string());
    let (script, args) = h.completer_invocation(&strs(&["git"])).unwrap();
    assert_eq!(script, "/usr/local/bin/gitc");
    assert_eq!(args, strs(&["git", "", ""]));
    let (_, args) = h.completer_invocation(&strs(&["git", "co"])).unwrap();
    assert_eq!(args, strs(&["git", "co", ""]));
    let (_, args) = h.completer_invocation(&strs(&["git", "a", "b"])).unwrap();
    assert_eq!(args, strs(&["git", "b", "a"]));
}

#[test]
fn lines_match_std() {
    for s in ["a\r\nb\n\nc", "a\n", "a\r", "", "\n", "x\r\r\ny", "\r\n"] {
        let expected: Vec<String> = s.lines().map(|l| l.to_string()).collect();
        assert_eq!(split_lines(s), expected, "{:?}", s);
    }
}
