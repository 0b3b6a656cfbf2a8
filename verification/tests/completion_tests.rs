use bakery_shell::completion::{
    completions_from_output, matching_builtins, split_words, Completion, CompletionEvent,
    CompletionSession, CompletionStep, PathEntry,
};
use bakery_shell::repl::FileMode;
use bakery_shell::shell::ShellHelper;

fn program(name: &str) -> PathEntry {
    PathEntry { name: name.to_string(), file: Some(FileMode { is_regular_file: true, permissions: 0o100755 }) }
}

fn programs(names: &[&str]) -> Vec<PathEntry> {
    names.iter().map(|n| program(n)).collect()
}

fn strs(v: &[&str]) -> Vec<String> {
    v.iter().map(|s| s.to_string()).collect()
}

fn pairs(v: &[Completion]) -> Vec<(String, String)> {
    v.iter().map(|c| (c.display.clone(), c.replacement.clone())).collect()
}

#[test]
fn executable_names_sorted_and_distinct() {
    let names = programs(&["gitk", "git", "ls", "gimp", "git", "g"]);
    assert_eq!(ShellHelper::check_executable_names("gi", &names), strs(&["gimp", "git", "gitk"]));
    assert_eq!(ShellHelper::check_executable_names("", &programs(&["b", "a", "b"])), strs(&["a", "b"]));
    assert!(ShellHelper::check_executable_names("zz", &names).is_empty());
}

#[test]
fn only_executable_files_are_offered() {
    let entries = vec![
        program("git"),
        PathEntry { name: "gitdir".to_string(), file: Some(FileMode { is_regular_file: false, permissions: 0o40755 }) },
        PathEntry { name: "gitnotes".to_string(), file: Some(FileMode { is_regular_file: true, permissions: 0o100644 }) },
        PathEntry { name: "gitbroken".to_string(), file: None },
    ];
    assert_eq!(ShellHelper::check_executable_names("git", &entries), strs(&["git"]));
}

#[test]
fn executable_names_order_like_string_ord() {
    let names = ["é", "z", "Z", "a", "ab", "", "\u{10000}"];
    let mut expected = strs(&names);
    expected.sort();
    expected.dedup();
    assert_eq!(ShellHelper::check_executable_names("", &programs(&names)), expected);
}

#[test]
fn position_of_last_argument() {
    assert_eq!(ShellHelper::get_pos_of_arg("ls ./"), 3);
    assert_eq!(ShellHelper::get_pos_of_arg("cat é x"), 7);
    assert_eq!(ShellHelper::get_pos_of_arg("a  b"), 3);
    assert_eq!(ShellHelper::get_pos_of_arg("  ls\t./x"), 5);
    assert_eq!(ShellHelper::get_pos_of_arg("only"), 0);
    assert_eq!(ShellHelper::get_pos_of_arg("ls fo  "), 3);
}

#[test]
fn directories_get_no_space() {
    let c = vec![
        Completion { display: "d".to_string(), replacement: "dir/".to_string() },
        Completion { display: "f".to_string(), replacement: "file".to_string() },
    ];
    let r = ShellHelper::append_space_to_completion(c);
    assert_eq!(pairs(&r), vec![("dir/".to_string(), "dir/".to_string()), ("file".to_string(), "file ".to_string())]);
}

#[test]
fn script_output_candidates() {
    let r = completions_from_output(b"a\n\nb\r\n".to_vec()).unwrap();
    assert_eq!(pairs(&r), vec![("a".to_string(), "a ".to_string()), ("b".to_string(), "b ".to_string())]);
    assert!(completions_from_output(vec![0xff]).is_none());
    assert!(completions_from_output(vec![0xc3]).is_none());
    let r = completions_from_output("héllo\n".as_bytes().to_vec()).unwrap();
    assert_eq!(pairs(&r), vec![("héllo".to_string(), "héllo ".to_string())]);
    assert!(completions_from_output(vec![]).unwrap().is_empty());
}

#[test]
fn builtin_candidates() {
    let names = |line: &str| -> Vec<String> { matching_builtins(line).iter().map(|c| c.display.clone()).collect() };
    assert_eq!(names("e"), strs(&["echo", "exit"]));
    assert_eq!(names("c"), strs(&["complete"]));
    assert_eq!(names(""), strs(&["echo", "exit", "complete"]));
    assert!(names("x").is_empty());
    assert_eq!(matching_builtins("ech")[0].replacement, "echo ");
}

#[test]
fn words_match_split_whitespace() {
    for s in ["", "  ls  -l ", "a\u{3000}b", "x"] {
        let expected: Vec<String> = s.split_whitespace().map(|w| w.to_string()).collect();
        assert_eq!(split_words(s), expected);
    }
}

#[test]
fn session_uses_registered_script() {
    let mut h = ShellHelper::new();
    h.set_completion("git".to_string(), "/c.sh".to_string());
    let (mut s, step) = CompletionSession::start(&h, "git co", 6);
    match step {
        CompletionStep::RunScript { script, args } => {
            assert_eq!(script, "/c.sh");
            assert_eq!(args, strs(&["git", "co", ""]));
        }
        _ => panic!("expected a script run"),
    }
    match s.resume(CompletionEvent::ScriptOutput(Some(b"commit\ncheckout\n".to_vec()))) {
        CompletionStep::Done { start, candidates } => {
            assert_eq!(start, 6);
            assert_eq!(candidates.len(), 2);
            assert_eq!(candidates[0].replacement, "commit ");
        }
        _ => panic!("expected an answer"),
    }
}

#[test]
fn session_falls_back_after_failed_script() {
    let mut h = ShellHelper::new();
    h.set_completion("ls".to_string(), "/c.sh".to_string());
    let (mut s, _) = CompletionSession::start(&h, "ls  fo", 6);
    match s.resume(CompletionEvent::ScriptOutput(None)) {
        CompletionStep::CompletePath { text, pos } => {
            assert_eq!(text, "fo");
            assert_eq!(pos, 2);
        }
        _ => panic!("expected a path completion"),
    }
    let found = vec![Completion { display: "foo".to_string(), replacement: "foo".to_string() }];
    match s.resume(CompletionEvent::PathCandidates(Some(found))) {
        CompletionStep::Done { start, candidates } => {
            assert_eq!(start, 4);
            assert_eq!(pairs(&candidates), vec![("foo".to_string(), "foo ".to_string())]);
        }
        _ => panic!("expected an answer"),
    }
}

#[test]
fn session_completes_paths_after_space() {
    let h = ShellHelper::new();
    let (mut s, step) = CompletionSession::start(&h, "cat ", 4);
    assert!(matches!(step, CompletionStep::CompletePath { ref text, pos: 4 } if text == "cat "));
    let found = vec![Completion { display: "d/".to_string(), replacement: "d/".to_string() }];
    match s.resume(CompletionEvent::PathCandidates(Some(found))) {
        CompletionStep::Done { start, candidates } => {
            assert_eq!(start, 4);
            assert_eq!(pairs(&candidates), vec![("d/".to_string(), "d/".to_string())]);
        }
        _ => panic!("expected an answer"),
    }
}

#[test]
fn session_builtins_then_executables() {
    let h = ShellHelper::new();
    let (_, step) = CompletionSession::start(&h, "ec", 2);
    match step {
        CompletionStep::Done { start, candidates } => {
            assert_eq!(start, 0);
            assert_eq!(pairs(&candidates), vec![("echo".to_string(), "echo ".to_string())]);
        }
        _ => panic!("expected the builtin"),
    }
    let (mut s, step) = CompletionSession::start(&h, "l", 1);
    assert!(matches!(step, CompletionStep::ListExecutables));
    match s.resume(CompletionEvent::Executables(programs(&["ls", "cat", "lsblk", "ls"]))) {
        CompletionStep::Done { start, candidates } => {
            assert_eq!(start, 0);
            assert_eq!(
                pairs(&candidates),
                vec![("ls".to_string(), "ls ".to_string()), ("lsblk".to_string(), "lsblk ".to_string())]
            );
        }
        _ => panic!("expected executables"),
    }
}

#[test]
fn session_line_paths_fail_then_builtins() {
    let h = ShellHelper::new();
    let (mut s, _) = CompletionSession::start(&h, "e ", 2);
    match s.resume(CompletionEvent::PathCandidates(None)) {
        CompletionStep::ListExecutables => {}
        _ => panic!("\"e \" matches no builtin, so the search path is listed"),
    }
}
