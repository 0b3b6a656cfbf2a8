use bakery_shell::repl::{decimal_string, FileMode, Flush, ProcessOutput, ShellCommand, REPL};
use bakery_shell::shell::{CommandError, ShellHelper};

fn strs(v: &[&str]) -> Vec<String> {
    v.iter().map(|s| s.to_string()).collect()
}

#[test]
fn new_command_is_empty() {
    assert!(ShellCommand::new().is_empty());
    let mut c = ShellCommand::new();
    c.append = true;
    assert!(!c.is_empty());
}

#[test]
fn redirects_stdout() {
    let mut repl = REPL::new();
    let cmds = repl.determine_commands(strs(&["echo", "hi", ">", "out.txt"]), &vec![], &vec![]);
    assert_eq!(cmds.len(), 1);
    let c = &cmds[0];
    assert_eq!(c.args, strs(&["echo", "hi"]));
    assert_eq!(c.std_out, Some("out.txt".to_string()));
    assert_eq!(c.std_err, None);
    assert!(c.is_builtin);
    assert!(!c.append);
    assert!(!c.background);
}

#[test]
fn redirect_variants() {
    let mut repl = REPL::new();
    let c = &repl.determine_commands(strs(&["echo", "1>", "a"]), &vec![], &vec![])[0];
    assert_eq!(c.std_out, Some("a".to_string()));
    let c = &repl.determine_commands(strs(&["echo", "1>>", "a"]), &vec![], &vec![])[0];
    assert_eq!(c.std_out, Some("a".to_string()));
    assert!(c.append);
    let c = &repl.determine_commands(strs(&["echo", "2>", "e"]), &vec![], &vec![])[0];
    assert_eq!(c.std_err, Some("e".to_string()));
    assert!(!c.append);
    let c = &repl.determine_commands(strs(&["echo", "2>>", "e"]), &vec![], &vec![])[0];
    assert_eq!(c.std_err, Some("e".to_string()));
    assert!(c.append);
}

#[test]
fn redirect_without_target_is_dropped() {
    let mut repl = REPL::new();
    let c = &repl.determine_commands(strs(&["echo", "x", ">"]), &vec![], &vec![])[0];
    assert_eq!(c.args, strs(&["echo", "x"]));
    assert_eq!(c.std_out, None);
    assert!(repl.determine_commands(strs(&[">"]), &vec![], &vec![]).is_empty());
}

#[test]
fn no_arguments_no_command() {
    let mut repl = REPL::new();
    assert!(repl.determine_commands(vec![], &vec![], &vec![]).is_empty());
}

#[test]
fn executable_found_and_background() {
    let mut repl = REPL::new();
    let paths = strs(&["/usr/bin", "/bin"]);
    let cmds = repl.determine_commands(strs(&["sleep", "5", "&"]), &paths, &vec![false, true]);
    let c = &cmds[0];
    assert_eq!(c.executable_path, "/bin/sleep");
    assert!(c.background);
    assert!(!c.is_builtin);
    assert_eq!(c.args, strs(&["sleep", "5"]));
}

#[test]
fn executable_not_found_keeps_empty_path() {
    let mut repl = REPL::new();
    let c = &repl.determine_commands(strs(&["nope"]), &strs(&["/bin"]), &vec![false])[0];
    assert_eq!(c.executable_path, "");
}

#[test]
fn command_name_and_only_redirections() {
    assert_eq!(REPL::command_name(&strs(&[">", "f", " ls ", "x"])), Some("ls".to_string()));
    assert_eq!(REPL::command_name(&strs(&[">", "f"])), None);
    assert!(REPL::has_only_redirections(&strs(&[">", "f"])));
    assert!(!REPL::has_only_redirections(&strs(&["ls", ">", "f"])));
    assert!(!REPL::has_only_redirections(&strs(&[])));
}

#[test]
fn path_lookup() {
    let paths = strs(&["/usr/bin", "/bin/", ""]);
    assert_eq!(
        REPL::path_candidates("ls", &paths),
        strs(&["/usr/bin/ls", "/bin/ls", "ls"])
    );
    assert_eq!(REPL::check_in_path("ls", &paths, &vec![false, true, true]), Some("/bin/ls".to_string()));
    assert_eq!(REPL::check_in_path("ls", &paths, &vec![false, false, false]), None);
    assert_eq!(REPL::check_in_path("ls", &paths, &vec![]), None);
    assert_eq!(REPL::check_in_path("", &paths, &vec![true, true, true]), None);
    assert_eq!(REPL::check_in_path("/opt/x", &paths, &vec![true, true, true]), Some("/opt/x".to_string()));
}

#[test]
fn reading_output_joins_non_empty_lines() {
    let mut repl = REPL::new();
    repl.std_out = strs(&["a", "", "b"]);
    assert_eq!(repl.read_std_out(), "a\nb\r\n");
    assert!(repl.std_out.is_empty());
    assert_eq!(repl.read_std_out(), "");
    repl.std_err = strs(&["", ""]);
    assert_eq!(repl.read_std_err(), "");
    repl.std_err = strs(&["oops"]);
    assert_eq!(repl.read_std_err(), "oops\r\n");
}

fn command(args: &[&str]) -> ShellCommand {
    let mut c = ShellCommand::new();
    c.args = strs(args);
    c
}

#[test]
fn missing_executable_is_reported() {
    let mut repl = REPL::new();
    repl.handle_executable(&command(&[" foo "]), &None, None);
    assert_eq!(repl.std_err, strs(&["foo: command not found"]));
    assert!(repl.std_out.is_empty());
}

#[test]
fn executable_output_is_kept_trimmed() {
    let mut repl = REPL::new();
    let out = ProcessOutput { stdout: b"hi\n\n".to_vec(), stderr: b"warn \n".to_vec() };
    repl.handle_executable(&command(&["ls"]), &Some("/bin/ls".to_string()), Some(out));
    assert_eq!(repl.std_out, strs(&["hi"]));
    assert_eq!(repl.std_err, strs(&["warn"]));
}

#[test]
fn empty_stderr_and_invalid_utf8_are_skipped() {
    let mut repl = REPL::new();
    let out = ProcessOutput { stdout: vec![0xff, 0xfe], stderr: vec![] };
    repl.handle_executable(&command(&["ls"]), &Some("/bin/ls".to_string()), Some(out));
    assert!(repl.std_out.is_empty());
    assert!(repl.std_err.is_empty());
    repl.handle_executable(&command(&["ls"]), &Some("/bin/ls".to_string()), None);
    assert!(repl.std_out.is_empty());
}

#[test]
fn builtin_results_are_recorded() {
    let mut repl = REPL::new();
    repl.handle_builtin(Ok("out".to_string()));
    repl.handle_builtin(Err(CommandError::Process("bad \r\n".to_string())));
    repl.handle_builtin(Err(CommandError::NotFound));
    assert_eq!(repl.std_out, strs(&["out"]));
    assert_eq!(repl.std_err, strs(&["bad"]));
}

#[test]
fn background_jobs_are_numbered() {
    let mut repl = REPL::new();
    let mut helper = ShellHelper::new();
    repl.record_background_job(&mut helper, &command(&["sleep", "5"]), 4242);
    repl.record_background_job(&mut helper, &command(&["sleep", "6"]), 7);
    assert_eq!(repl.std_out, strs(&["[1] 4242", "[2] 7"]));
    assert_eq!(helper.running_jobs.len(), 2);
    assert_eq!(helper.running_jobs[0].command_string, "sleep 5 &");
    assert_eq!(helper.running_jobs[1].job_number, 2);
    assert_eq!(helper.running_jobs[1].process_id, 7);
    assert_eq!(helper.running_jobs[1].status, "Running");
}

#[test]
fn decimal_numbers() {
    assert_eq!(decimal_string(0), "0");
    assert_eq!(decimal_string(1234), "1234");
    assert_eq!(decimal_string(u64::MAX), u64::MAX.to_string());
}

#[test]
fn execute_bits_on_regular_files_only() {
    let file = |is_regular_file: bool, permissions: u32| Some(FileMode { is_regular_file, permissions });
    assert!(REPL::is_executable(file(true, 0o100755)));
    assert!(REPL::is_executable(file(true, 0o100)));
    assert!(REPL::is_executable(file(true, 0o001)));
    assert!(!REPL::is_executable(file(true, 0o644)));
    assert!(!REPL::is_executable(file(false, 0o40755)));
    assert!(!REPL::is_executable(None));
}

#[test]
fn redirected_output_is_taken_once() {
    let mut repl = REPL::new();
    let mut c = command(&["echo", "hello"]);
    c.std_out = Some("f".to_string());
    repl.std_out = strs(&["hello", "x"]);
    repl.std_err = strs(&["e"]);
    assert!(matches!(repl.flush_std_out(&c), Flush::Redirect(t) if t == "hellox"));
    assert!(repl.std_out.is_empty());
    assert!(matches!(repl.flush_std_err(&c), Flush::Print(t) if t == "e\r\n"));
    assert!(repl.std_err.is_empty());
    assert!(matches!(repl.flush_std_out(&c), Flush::Redirect(t) if t.is_empty()));
    c.std_err = Some("g".to_string());
    repl.std_err = strs(&["oops"]);
    assert!(matches!(repl.flush_std_err(&c), Flush::Redirect(t) if t == "oops"));
    assert!(repl.std_err.is_empty());
}
