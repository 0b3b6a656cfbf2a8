use bakery_shell::builtins::cd::{expand_home, missing_directory};
use bakery_shell::builtins::complete::handle_complete;
use bakery_shell::builtins::echo::handle_echo;
use bakery_shell::builtins::jobs::handle_jobs;
use bakery_shell::builtins::typecmd::handle_type;
use bakery_shell::builtins::{run_builtin, BuiltinRun};
use bakery_shell::shell::{CommandError, RunningJob, ShellCommand, ShellHelper};

fn strs(v: &[&str]) -> Vec<String> {
    v.iter().map(|s| s.to_string()).collect()
}

#[test]
fn echo_returns_its_text() {
    assert!(matches!(handle_echo("a  b"), Ok(s) if s == "a  b"));
}

#[test]
fn type_of_builtin() {
    assert!(matches!(handle_type("echo", &vec![], &vec![]), Ok(s) if s == "echo is a shell builtin"));
}

#[test]
fn type_of_executable() {
    let paths = strs(&["/usr/bin", "/bin"]);
    assert!(matches!(handle_type("ls", &paths, &vec![false, true]), Ok(s) if s == "ls is /bin/ls"));
}

#[test]
fn type_of_unknown() {
    assert!(matches!(
        handle_type("nope", &strs(&["/bin"]), &vec![false]),
        Err(CommandError::Process(m)) if m == "nope: not found"
    ));
}

#[test]
fn complete_registers_and_shows() {
    let mut h = ShellHelper::new();
    let r = handle_complete(&strs(&["complete", "-C", "/tmp/c.sh", "git"]), &mut h);
    assert!(matches!(r, Ok(s) if s.is_empty()));
    let r = handle_complete(&strs(&["complete", "-p", "git"]), &mut h);
    assert!(matches!(r, Ok(s) if s == "complete -C '/tmp/c.sh' git"));
}

#[test]
fn complete_without_specification() {
    let mut h = ShellHelper::new();
    let r = handle_complete(&strs(&["complete", "-p", "foo"]), &mut h);
    assert!(matches!(r, Ok(s) if s == "complete: foo: no completion specification"));
    let r = handle_complete(&strs(&["complete", "-p", ""]), &mut h);
    assert!(matches!(r, Ok(s) if s == "complete: : no completion specification"));
}

#[test]
fn complete_ignores_incomplete_or_unknown_requests() {
    let mut h = ShellHelper::new();
    assert!(matches!(handle_complete(&strs(&["complete", "-C", "x"]), &mut h), Ok(s) if s.is_empty()));
    assert!(matches!(handle_complete(&strs(&["complete", "-x", "y"]), &mut h), Ok(s) if s.is_empty()));
    assert!(matches!(handle_complete(&strs(&["complete", "p"]), &mut h), Ok(s) if s.is_empty()));
    assert!(matches!(handle_complete(&strs(&["complete"]), &mut h), Ok(s) if s.is_empty()));
    assert_eq!(h.completion_for("x"), None);
}

#[test]
fn run_builtin_dispatch() {
    let mut h = ShellHelper::new();
    assert!(matches!(run_builtin(ShellCommand::Exit, strs(&["exit"]), &mut h), BuiltinRun::Exit));
    assert!(matches!(run_builtin(ShellCommand::Pwd, strs(&["pwd"]), &mut h), BuiltinRun::PrintWorkingDirectory));
    assert!(matches!(run_builtin(ShellCommand::Cd, strs(&["cd", " /tmp "]), &mut h), BuiltinRun::ChangeDirectory(d) if d == "/tmp"));
    assert!(matches!(run_builtin(ShellCommand::Type, strs(&["type", "ls"]), &mut h), BuiltinRun::DescribeCommand(c) if c == "ls"));
    assert!(matches!(run_builtin(ShellCommand::Echo, strs(&["echo", "a", "b"]), &mut h), BuiltinRun::Finished(Ok(s)) if s == "a b"));
    assert!(matches!(run_builtin(ShellCommand::Echo, strs(&["echo"]), &mut h), BuiltinRun::Finished(Ok(s)) if s.is_empty()));
    assert!(matches!(
        run_builtin(ShellCommand::Complete, strs(&["complete", "-C", "/c", "ls"]), &mut h),
        BuiltinRun::Finished(Ok(_))
    ));
    assert_eq!(h.completion_for("ls"), Some("/c".to_string()));
}

#[test]
fn cd_expands_home() {
    assert_eq!(expand_home("~/src", Some("/home/u".to_string())), "/home/u/src");
    assert_eq!(expand_home("~", Some("/h".to_string())), "/h");
    assert_eq!(expand_home("~/a~b", Some("/h".to_string())), "/h/a~b");
    assert_eq!(expand_home("a~", Some("/h".to_string())), "a~");
    assert_eq!(expand_home("~/x", None), "~/x");
}

#[test]
fn cd_missing_directory_message() {
    assert!(matches!(missing_directory("/nope"), CommandError::Process(m) if m == "cd: /nope: No such file or directory \r\n"));
}

fn job(n: usize, cmd: &str) -> RunningJob {
    RunningJob { job_number: n, process_id: 100 + n as u32, command_string: cmd.to_string(), status: "Running".to_string() }
}

#[test]
fn jobs_table() {
    let mut jobs = vec![job(1, "sleep 1 &"), job(2, "sleep 2 &"), job(3, "sleep 3 &")];
    let lines = handle_jobs(&mut jobs, &vec![false, true, false]);
    assert_eq!(lines.len(), 3);
    assert_eq!(lines[0], format!("[1]  {:<24}{}", "Running", "sleep 1 &"));
    assert_eq!(lines[1], format!("[2]-  {:<24}{}", "Done", "sleep 2"));
    assert_eq!(lines[2], format!("[3]+  {:<24}{}", "Running", "sleep 3 &"));
    assert_eq!(jobs.len(), 2);
    assert_eq!(jobs[0].job_number, 1);
    assert_eq!(jobs[1].job_number, 3);
}

#[test]
fn jobs_single_and_empty() {
    let mut jobs = vec![job(7, "x &")];
    let lines = handle_jobs(&mut jobs, &vec![true]);
    assert_eq!(lines, vec![format!("[7]+  {:<24}{}", "Done", "x")]);
    assert!(jobs.is_empty());
    assert!(handle_jobs(&mut jobs, &vec![]).is_empty());
}

#[test]
fn showing_a_completion_registers_nothing() {
    let mut h = ShellHelper::new();
    let _ = handle_complete(&strs(&["complete", "-C", "/c", "git"]), &mut h);
    let _ = handle_complete(&strs(&["complete", "-p", "ls"]), &mut h);
    assert_eq!(h.completion_for("ls"), None);
    assert_eq!(h.completion_for("git"), Some("/c".to_string()));
}
