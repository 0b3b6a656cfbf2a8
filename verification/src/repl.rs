//! Turning parsed arguments into a command to run, finding executables on
//! the search path, and collecting what commands write.
//!
//! The file system is probed by the caller: for a command name and the
//! search path, [`REPL::path_candidates`] lists the paths to test, and the
//! caller hands back, for each, whether an executable file is there.
use vstd::prelude::*;
use crate::shell::{
    CommandError, RunningJob, ShellCommand as ShellBuiltin, ShellHelper, is_builtin_text, not_found_message, string_from_utf8,
};
use crate::text::{
    chars_of, chars_eq, concat_all, concat_strings, join, join_strings, opt_view, push_all, push_char,
    to_owned_string, trim, trim_end, trim_end_string, trim_string, views,
};
use vstd::utf8::{decode_utf8, valid_utf8};

verus! {

/// A command ready to run: its arguments (the first names the command),
/// where its executable is, and where its output goes.
#[derive(Clone, Debug, PartialEq)]
pub struct ShellCommand {
    pub args: Vec<String>,
    pub executable_path: String,
    pub background: bool,
    pub is_builtin: bool,
    /// File that standard output is redirected to.
    pub std_out: Option<String>,
    /// File that standard error is redirected to.
    pub std_err: Option<String>,
    /// Redirected output is appended rather than written over.
    pub append: bool,
}

/// The abstract value of a [`ShellCommand`].
pub struct CommandView {
    pub args: Seq<Seq<char>>,
    pub executable_path: Seq<char>,
    pub background: bool,
    pub is_builtin: bool,
    pub std_out: Option<Seq<char>>,
    pub std_err: Option<Seq<char>>,
    pub append: bool,
}

impl View for ShellCommand {
    type V = CommandView;

    open spec fn view(&self) -> CommandView {
        CommandView {
            args: views(self.args@),
            executable_path: self.executable_path@,
            background: self.background,
            is_builtin: self.is_builtin,
            std_out: opt_view(self.std_out),
            std_err: opt_view(self.std_err),
            append: self.append,
        }
    }
}

/// The command with nothing in it.
pub open spec fn empty_command() -> CommandView {
    CommandView {
        args: Seq::empty(),
        executable_path: Seq::empty(),
        background: false,
        is_builtin: false,
        std_out: None,
        std_err: None,
        append: false,
    }
}

/// `>`, `1>`, `>>`, `1>>`, `2>` or `2>>`.
pub open spec fn is_redirect(a: Seq<char>) -> bool {
    ||| a == seq!['>']
    ||| a == seq!['1', '>']
    ||| a == seq!['>', '>']
    ||| a == seq!['1', '>', '>']
    ||| a == seq!['2', '>']
    ||| a == seq!['2', '>', '>']
}

/// The redirection `symbol path` applied to `c`.
pub open spec fn redirect(c: CommandView, symbol: Seq<char>, path: Seq<char>) -> CommandView {
    if symbol == seq!['>'] || symbol == seq!['1', '>'] {
        CommandView { std_out: Some(path), ..c }
    } else if symbol == seq!['2', '>'] {
        CommandView { std_err: Some(path), ..c }
    } else if symbol == seq!['>', '>'] || symbol == seq!['1', '>', '>'] {
        CommandView { std_out: Some(path), append: true, ..c }
    } else if symbol == seq!['2', '>', '>'] {
        CommandView { std_err: Some(path), append: true, ..c }
    } else {
        c
    }
}

/// `args[i..]` read into `c`: a redirection symbol takes the next argument
/// as its file (and is dropped when none follows); anything else is an
/// argument of the command.
pub open spec fn gather(args: Seq<Seq<char>>, i: int, c: CommandView) -> CommandView
    decreases args.len() - i,
{
    if i < 0 || i >= args.len() {
        c
    } else if is_redirect(args[i]) {
        if i + 1 < args.len() {
            gather(args, i + 2, redirect(c, args[i], args[i + 1]))
        } else {
            c
        }
    } else {
        gather(args, i + 1, CommandView { args: c.args.push(args[i]), ..c })
    }
}

/// The command that `args` describe, before its executable is looked up.
pub open spec fn gathered(args: Seq<Seq<char>>) -> CommandView {
    gather(args, 0, empty_command())
}

/// `name` looked up in directory `dir`, as `Path::join` forms it: an
/// absolute name stands for itself; otherwise a `/` separates the two
/// unless `dir` is empty or already ends in one.
pub open spec fn path_join(dir: Seq<char>, name: Seq<char>) -> Seq<char> {
    if name.len() > 0 && name[0] == '/' {
        name
    } else if dir.len() == 0 || dir.last() == '/' {
        dir + name
    } else {
        dir + seq!['/'] + name
    }
}

/// The first of the candidates `i..` that was found to be executable.
pub open spec fn first_found(
    name: Seq<char>,
    paths: Seq<Seq<char>>,
    found: Seq<bool>,
    i: int,
) -> Option<Seq<char>>
    decreases paths.len() - i,
{
    if i < 0 || i >= paths.len() {
        None
    } else if i < found.len() && found[i] {
        Some(path_join(paths[i], name))
    } else {
        first_found(name, paths, found, i + 1)
    }
}

/// Where `name` is found on the search path `paths`, given for each
/// directory whether `name` is an executable file there.
pub open spec fn located(name: Seq<char>, paths: Seq<Seq<char>>, found: Seq<bool>) -> Option<
    Seq<char>,
> {
    if name.len() == 0 {
        None
    } else {
        first_found(name, paths, found, 0)
    }
}

/// `c` with its builtin flag or executable path set from its first argument.
pub open spec fn resolve(c: CommandView, paths: Seq<Seq<char>>, found: Seq<bool>) -> CommandView {
    if is_builtin_text(c.args[0]) {
        CommandView { is_builtin: true, ..c }
    } else {
        match located(trim(c.args[0]), paths, found) {
            Some(p) => CommandView { executable_path: p, ..c },
            None => c,
        }
    }
}

/// `c` marked to run in the background when its last argument is `&`,
/// which is then dropped.
pub open spec fn mark_background(c: CommandView) -> CommandView {
    if c.args.last() == seq!['&'] {
        CommandView { args: c.args.drop_last(), background: true, ..c }
    } else {
        c
    }
}

/// The commands that `args` describe.
pub open spec fn determined(args: Seq<Seq<char>>, paths: Seq<Seq<char>>, found: Seq<bool>) -> Seq<
    CommandView,
> {
    let c = gathered(args);
    if c == empty_command() {
        Seq::empty()
    } else {
        seq![mark_background(resolve(c, paths, found))]
    }
}

/// Only redirections with their files: no command to run.
pub open spec fn only_redirections(args: Seq<Seq<char>>) -> bool {
    gathered(args) != empty_command() && gathered(args).args.len() == 0
}

/// The strings of `v` that are not empty, in order.
pub open spec fn non_empty(v: Seq<Seq<char>>) -> Seq<Seq<char>>
    decreases v.len(),
{
    if v.len() == 0 {
        Seq::empty()
    } else if v.last().len() > 0 {
        non_empty(v.drop_last()).push(v.last())
    } else {
        non_empty(v.drop_last())
    }
}

/// What is printed for collected output: the non-empty pieces, one per line,
/// and a final `\r\n`; nothing when there are none.
pub open spec fn printed(v: Seq<Seq<char>>) -> Seq<char> {
    if non_empty(v).len() == 0 {
        Seq::empty()
    } else {
        join(non_empty(v), seq!['\n']) + seq!['\r', '\n']
    }
}

/// The decimal digits of `n`.
pub open spec fn decimal(n: nat) -> Seq<char>
    decreases n,
{
    if n < 10 {
        seq![digit(n)]
    } else {
        decimal(n / 10).push(digit(n % 10))
    }
}

/// The character of the digit `d`.
pub open spec fn digit(d: nat) -> char {
    if d == 0 {
        '0'
    } else if d == 1 {
        '1'
    } else if d == 2 {
        '2'
    } else if d == 3 {
        '3'
    } else if d == 4 {
        '4'
    } else if d == 5 {
        '5'
    } else if d == 6 {
        '6'
    } else if d == 7 {
        '7'
    } else if d == 8 {
        '8'
    } else {
        '9'
    }
}

fn digit_char(d: u64) -> (c: char)
    requires
        d < 10,
    ensures
        c == digit(d as nat),
{
    if d == 0 {
        '0'
    } else if d == 1 {
        '1'
    } else if d == 2 {
        '2'
    } else if d == 3 {
        '3'
    } else if d == 4 {
        '4'
    } else if d == 5 {
        '5'
    } else if d == 6 {
        '6'
    } else if d == 7 {
        '7'
    } else if d == 8 {
        '8'
    } else {
        '9'
    }
}

/// `n` written in decimal.
pub fn decimal_string(n: u64) -> (s: String)
    ensures
        s@ == decimal(n as nat),
    decreases n,
{
    if n < 10 {
        let mut s = String::new();
        push_char(&mut s, digit_char(n));
        assert(s@ =~= seq![digit(n as nat)]);
        s
    } else {
        let mut s = decimal_string(n / 10);
        push_char(&mut s, digit_char(n % 10));
        s
    }
}

/// What a finished process wrote, as raw bytes.
pub struct ProcessOutput {
    pub stdout: Vec<u8>,
    pub stderr: Vec<u8>,
}

/// The text of a process's output stream, when it is valid UTF-8.
pub open spec fn decoded(bytes: Seq<u8>) -> Option<Seq<char>> {
    if valid_utf8(bytes) {
        Some(decode_utf8(bytes))
    } else {
        None
    }
}

/// The job table line of a job started in the background: `[n] pid`.
pub open spec fn job_started_line(n: nat, pid: nat) -> Seq<char> {
    seq!['['] + decimal(n) + seq![']', ' '] + decimal(pid)
}

/// What the file system tells of a file: whether it is a regular file, and
/// its permission bits.
#[derive(Clone, Copy, Debug)]
pub struct FileMode {
    pub is_regular_file: bool,
    pub permissions: u32,
}

/// How a command is started.
#[derive(Clone, Copy, Debug, PartialEq, Eq, Structural)]
pub enum Launch {
    Builtin,
    Background,
    Foreground,
}

/// Where collected output goes once a command has run.
pub enum Flush {
    /// Write this text to the command's redirection file.
    Redirect(String),
    /// Print this text (nothing when empty).
    Print(String),
}

/// Collects what commands write until it is printed.
pub struct REPL {
    pub std_out: Vec<String>,
    pub std_err: Vec<String>,
}

impl ShellCommand {
    pub fn new() -> (c: Self)
        ensures
            c@ == empty_command(),
    {
        let c = ShellCommand {
            args: Vec::new(),
            executable_path: String::new(),
            background: false,
            is_builtin: false,
            std_out: None,
            std_err: None,
            append: false,
        };
        assert(views(c.args@) =~= Seq::<Seq<char>>::empty());
        c
    }

    /// Whether nothing has been put in the command.
    pub fn is_empty(&self) -> (r: bool)
        ensures
            r == (self@ == empty_command()),
    {
        let r = self.args.len() == 0 && self.executable_path.as_str().is_empty() && !self.background
            && !self.is_builtin && self.std_out.is_none() && self.std_err.is_none() && !self.append;
        if self.args.len() == 0 {
            assert(views(self.args@) =~= Seq::<Seq<char>>::empty());
        }
        proof {
            if self.executable_path@.len() == 0 {
                assert(self.executable_path@ =~= Seq::<char>::empty());
            }
            assert(views(self.args@).len() == self.args@.len());
            if self@ == empty_command() {
                assert(self.args@.len() == 0);
                assert(self.executable_path@.len() == 0);
                assert(self.std_out is None);
                assert(self.std_err is None);
            }
        }
        r
    }
}

/// Whether `a` is one of the redirection symbols.
fn redirect_symbol(a: &str) -> (r: bool)
    ensures
        r == is_redirect(a@),
{
    let v = chars_of(a);
    proof {
        reveal_strlit(">");
        reveal_strlit("1>");
        reveal_strlit(">>");
        reveal_strlit("1>>");
        reveal_strlit("2>");
        reveal_strlit("2>>");
        assert(">"@ =~= seq!['>']);
        assert("1>"@ =~= seq!['1', '>']);
        assert(">>"@ =~= seq!['>', '>']);
        assert("1>>"@ =~= seq!['1', '>', '>']);
        assert("2>"@ =~= seq!['2', '>']);
        assert("2>>"@ =~= seq!['2', '>', '>']);
    }
    let a1 = chars_of(">");
    let a2 = chars_of("1>");
    let a3 = chars_of(">>");
    let a4 = chars_of("1>>");
    let a5 = chars_of("2>");
    let a6 = chars_of("2>>");
    chars_eq(&v, &a1) || chars_eq(&v, &a2) || chars_eq(&v, &a3) || chars_eq(&v, &a4)
        || chars_eq(&v, &a5) || chars_eq(&v, &a6)
}

fn apply_redirect(c: &mut ShellCommand, symbol: &str, path: String)
    requires
        is_redirect(symbol@),
    ensures
        final(c)@ == redirect(old(c)@, symbol@, path@),
{
    let v = chars_of(symbol);
    proof {
        reveal_strlit(">");
        reveal_strlit("1>");
        reveal_strlit(">>");
        reveal_strlit("1>>");
        reveal_strlit("2>");
        reveal_strlit("2>>");
        assert(">"@ =~= seq!['>']);
        assert("1>"@ =~= seq!['1', '>']);
        assert(">>"@ =~= seq!['>', '>']);
        assert("1>>"@ =~= seq!['1', '>', '>']);
        assert("2>"@ =~= seq!['2', '>']);
        assert("2>>"@ =~= seq!['2', '>', '>']);
    }
    let gt = chars_of(">");
    let one_gt = chars_of("1>");
    let two_gt = chars_of("2>");
    let gtgt = chars_of(">>");
    let one_gtgt = chars_of("1>>");
    if chars_eq(&v, &gt) || chars_eq(&v, &one_gt) {
        c.std_out = Some(path);
    } else if chars_eq(&v, &two_gt) {
        c.std_err = Some(path);
    } else if chars_eq(&v, &gtgt) || chars_eq(&v, &one_gtgt) {
        c.std_out = Some(path);
        c.append = true;
    } else {
        c.std_err = Some(path);
        c.append = true;
    }
}

/// Reads `args` into a command: arguments and redirections.
fn gather_command(args: &Vec<String>) -> (c: ShellCommand)
    ensures
        c@ == gathered(views(args@)),
{
    let ghost all = views(args@);
    let mut c = ShellCommand::new();
    let mut i: usize = 0;
    while i < args.len()
        invariant
            i <= args.len() + 1,
            all == views(args@),
            gather(all, i as int, c@) == gathered(all),
        decreases args.len() + 1 - i,
    {
        let arg = &args[i];
        if redirect_symbol(arg.as_str()) {
            if i + 1 < args.len() {
                let path = args[i + 1].clone();
                apply_redirect(&mut c, arg.as_str(), path);
                i = i + 2;
            } else {
                i = i + 1;
            }
        } else {
            let ghost before = c@;
            c.args.push(arg.clone());
            assert(views(c.args@) =~= before.args.push(all[i as int]));
            i = i + 1;
        }
    }
    c
}

impl REPL {
    pub fn new() -> (r: Self)
        ensures
            r.std_out@.len() == 0,
            r.std_err@.len() == 0,
    {
        REPL { std_out: Vec::new(), std_err: Vec::new() }
    }

    /// The paths at which `command` is looked for, one per directory of the
    /// search path: for each, the caller reports whether an executable file
    /// is there.
    pub fn path_candidates(command: &str, paths: &Vec<String>) -> (r: Vec<String>)
        ensures
            r@.len() == paths@.len(),
            forall|i: int| 0 <= i < paths@.len() ==> #[trigger] r@[i]@ == path_join(paths@[i]@, command@),
    {
        let mut r: Vec<String> = Vec::new();
        let mut i: usize = 0;
        while i < paths.len()
            invariant
                i <= paths.len(),
                r@.len() == i,
                forall|k: int| 0 <= k < i ==> #[trigger] r@[k]@ == path_join(paths@[k]@, command@),
            decreases paths.len() - i,
        {
            r.push(join_path(paths[i].as_str(), command));
            i = i + 1;
        }
        r
    }

    /// Where `command` is found on the search path: the first directory in
    /// which it was found to be an executable file (`found[i]` tells it for
    /// `paths[i]`); `None` for an empty command.
    pub fn check_in_path(command: &str, paths: &Vec<String>, found: &Vec<bool>) -> (r: Option<String>)
        ensures
            opt_view(r) == located(command@, views(paths@), found@),
    {
        if command.is_empty() {
            return None;
        }
        let mut i: usize = 0;
        while i < paths.len()
            invariant
                i <= paths.len(),
                command@.len() > 0,
                first_found(command@, views(paths@), found@, i as int) == located(
                    command@,
                    views(paths@),
                    found@,
                ),
            decreases paths.len() - i,
        {
            if i < found.len() && found[i] {
                return Some(join_path(paths[i].as_str(), command));
            }
            i = i + 1;
        }
        None
    }

    /// Whether `args` hold redirections and nothing to run, so that no
    /// command can be formed from them.
    pub fn has_only_redirections(args: &Vec<String>) -> (r: bool)
        ensures
            r == only_redirections(views(args@)),
    {
        let c = gather_command(args);
        !c.is_empty() && c.args.len() == 0
    }

    /// Whether a file may be run as a command: it is a regular file and one
    /// of its execute bits is set. `file` is `None` when nothing can be
    /// learnt of it (it does not exist or cannot be read).
    pub fn is_executable(file: Option<FileMode>) -> (r: bool)
        ensures
            r == (file matches Some(f) && f.is_regular_file && f.permissions & 0o111 != 0),
    {
        match file {
            Some(f) => f.is_regular_file && f.permissions & 0o111 != 0,
            None => false,
        }
    }

    /// The name looked up on the search path for the command that `args`
    /// describe: its first argument, trimmed.
    pub fn command_name(args: &Vec<String>) -> (r: Option<String>)
        ensures
            gathered(views(args@)).args.len() > 0 ==> opt_view(r) == Some(
                trim(gathered(views(args@)).args[0]),
            ),
            gathered(views(args@)).args.len() == 0 ==> r is None,
    {
        let c = gather_command(args);
        if c.args.len() > 0 {
            Some(trim_string(c.args[0].as_str()))
        } else {
            None
        }
    }

    /// The commands that `args` describe: redirections are taken out, a
    /// builtin is marked as such, any other command gets the path where it
    /// was found (`found` answers for the candidates of
    /// [`REPL::command_name`]), and a final `&` makes it a background job.
    pub fn determine_commands(&mut self, args: Vec<String>, paths: &Vec<String>, found: &Vec<bool>) -> (r:
        Vec<ShellCommand>)
        requires
            !only_redirections(views(args@)),
        ensures
            r@.map_values(|c: ShellCommand| c@) == determined(views(args@), views(paths@), found@),
            *final(self) == *old(self),
    {
        let mut commands: Vec<ShellCommand> = Vec::new();
        let mut current = gather_command(&args);
        if current.is_empty() {
            assert(commands@.map_values(|c: ShellCommand| c@) =~= Seq::<CommandView>::empty());
            return commands;
        }
        let ghost c0 = current@;
        assert(c0.args.len() > 0);
        let builtin = ShellBuiltin::from_str(current.args[0].as_str());
        match builtin {
            Ok(_) => {
                current.is_builtin = true;
            },
            Err(_) => {
                let name = trim_string(current.args[0].as_str());
                if let Some(execute_path) = REPL::check_in_path(name.as_str(), paths, found) {
                    current.executable_path = execute_path;
                }
            },
        }
        assert(current@ == resolve(c0, views(paths@), found@));
        let n = current.args.len();
        let amp = chars_of("&");
        proof {
            reveal_strlit("&");
            assert("&"@ =~= seq!['&']);
        }
        let last = chars_of(current.args[n - 1].as_str());
        if chars_eq(&last, &amp) {
            let ghost before = current@;
            let _ = current.args.pop();
            assert(views(current.args@) =~= before.args.drop_last());
            current.background = true;
        }
        commands.push(current);
        assert(commands@.map_values(|c: ShellCommand| c@) =~= determined(
            views(args@),
            views(paths@),
            found@,
        ));
        commands
    }

    /// Takes the collected standard output: returns what is to be printed
    /// (see [`printed`]) and forgets it.
    pub fn read_std_out(&mut self) -> (r: String)
        ensures
            r@ == printed(views(old(self).std_out@)),
            final(self).std_out@.len() == 0,
            final(self).std_err == old(self).std_err,
    {
        let r = printable(&self.std_out);
        self.std_out.clear();
        r
    }

    /// Takes the collected standard error: returns what is to be printed
    /// (see [`printed`]) and forgets it.
    pub fn read_std_err(&mut self) -> (r: String)
        ensures
            r@ == printed(views(old(self).std_err@)),
            final(self).std_err@.len() == 0,
            final(self).std_out == old(self).std_out,
    {
        let r = printable(&self.std_err);
        self.std_err.clear();
        r
    }

    /// Records how an external command ended. `found` is where its
    /// executable was found (if anywhere) and `output` what it wrote, if it
    /// could be run: a missing command is reported on standard error; its
    /// error output, when not empty, and its standard output are kept,
    /// without trailing whitespace, when they are valid UTF-8.
    pub fn handle_executable(&mut self, command: &ShellCommand, found: &Option<String>, output: Option<ProcessOutput>)
        requires
            command.args@.len() > 0,
        ensures
            found is None ==> {
                &&& views(final(self).std_err@) == views(old(self).std_err@).push(
                    not_found_message(command.args@[0]@),
                )
                &&& final(self).std_out == old(self).std_out
            },
            found is Some ==> match output {
                None => *final(self) == *old(self),
                Some(out) => {
                    &&& views(final(self).std_err@) == if out.stderr@.len() > 0 && decoded(
                        out.stderr@,
                    ) is Some {
                        views(old(self).std_err@).push(trim_end(decoded(out.stderr@)->0))
                    } else {
                        views(old(self).std_err@)
                    }
                    &&& views(final(self).std_out@) == if decoded(out.stdout@) is Some {
                        views(old(self).std_out@).push(trim_end(decoded(out.stdout@)->0))
                    } else {
                        views(old(self).std_out@)
                    }
                },
            },
    {
        match found {
            Some(_) => {
                if let Some(result) = output {
                    if result.stderr.len() > 0 {
                        if let Some(err) = string_from_utf8(result.stderr) {
                            let ghost before = views(self.std_err@);
                            self.std_err.push(trim_end_string(err.as_str()));
                            assert(views(self.std_err@) =~= before.push(trim_end(err@)));
                        }
                    }
                    if let Some(out) = string_from_utf8(result.stdout) {
                        let ghost before = views(self.std_out@);
                        self.std_out.push(trim_end_string(out.as_str()));
                        assert(views(self.std_out@) =~= before.push(trim_end(out@)));
                    }
                }
            },
            None => {
                let ghost before = views(self.std_err@);
                self.std_err.push(ShellHelper::handle_not_found(command.args[0].as_str()));
                assert(views(self.std_err@) =~= before.push(not_found_message(command.args@[0]@)));
            },
        }
    }

    /// How `command` is started: builtins run in the shell, other commands
    /// in the background when marked so, else in the foreground.
    pub fn launch_kind(command: &ShellCommand) -> (r: Launch)
        ensures
            r == if command.is_builtin {
                Launch::Builtin
            } else if command.background {
                Launch::Background
            } else {
                Launch::Foreground
            },
    {
        if command.is_builtin {
            Launch::Builtin
        } else if command.background {
            Launch::Background
        } else {
            Launch::Foreground
        }
    }

    /// Takes the collected standard output after `command`: when it is
    /// redirected, all of it, written one piece after the other, is for the
    /// file; otherwise it is for printing (see [`printed`]). Either way it is
    /// then forgotten.
    pub fn flush_std_out(&mut self, command: &ShellCommand) -> (r: Flush)
        ensures
            command.std_out is Some ==> (r matches Flush::Redirect(s) && s@ == concat_all(
                views(old(self).std_out@),
            ) && final(self).std_out@.len() == 0 && final(self).std_err == old(self).std_err),
            command.std_out is None ==> (r matches Flush::Print(s) && s@ == printed(
                views(old(self).std_out@),
            ) && final(self).std_out@.len() == 0 && final(self).std_err == old(self).std_err),
    {
        if command.std_out.is_some() {
            let text = concat_strings(&self.std_out);
            self.std_out.clear();
            Flush::Redirect(text)
        } else {
            Flush::Print(self.read_std_out())
        }
    }

    /// Takes the collected standard error after `command`, as
    /// [`REPL::flush_std_out`] does for standard output.
    pub fn flush_std_err(&mut self, command: &ShellCommand) -> (r: Flush)
        ensures
            command.std_err is Some ==> (r matches Flush::Redirect(s) && s@ == concat_all(
                views(old(self).std_err@),
            ) && final(self).std_err@.len() == 0 && final(self).std_out == old(self).std_out),
            command.std_err is None ==> (r matches Flush::Print(s) && s@ == printed(
                views(old(self).std_err@),
            ) && final(self).std_err@.len() == 0 && final(self).std_out == old(self).std_out),
    {
        if command.std_err.is_some() {
            let text = concat_strings(&self.std_err);
            self.std_err.clear();
            Flush::Redirect(text)
        } else {
            Flush::Print(self.read_std_err())
        }
    }

    /// Records what a builtin returned: its output on standard output, its
    /// error message without trailing whitespace on standard error.
    pub fn handle_builtin(&mut self, result: Result<String, CommandError>)
        ensures
            match result {
                Ok(s) => views(final(self).std_out@) == views(old(self).std_out@).push(s@)
                    && final(self).std_err == old(self).std_err,
                Err(CommandError::Process(m)) => views(final(self).std_err@) == views(
                    old(self).std_err@,
                ).push(trim_end(m@)) && final(self).std_out == old(self).std_out,
                Err(CommandError::NotFound) => *final(self) == *old(self),
            },
    {
        match result {
            Ok(result_string) => {
                let ghost before = views(self.std_out@);
                let ghost s = result_string@;
                self.std_out.push(result_string);
                assert(views(self.std_out@) =~= before.push(s));
            },
            Err(error) => match error {
                CommandError::Process(err_message) => {
                    let ghost before = views(self.std_err@);
                    self.std_err.push(trim_end_string(err_message.as_str()));
                    assert(views(self.std_err@) =~= before.push(trim_end(err_message@)));
                },
                CommandError::NotFound => {},
            },
        }
    }

    /// Records a command started in the background with process id `pid`:
    /// it joins the job list with the next job number, and `[n] pid` is
    /// written on standard output.
    pub fn record_background_job(&mut self, helper: &mut ShellHelper, command: &ShellCommand, pid: u32)
        requires
            old(helper).running_jobs@.len() < usize::MAX,
        ensures
            final(helper).completions == old(helper).completions,
            final(helper).running_jobs@.len() == old(helper).running_jobs@.len() + 1,
            forall|i: int|
                0 <= i < old(helper).running_jobs@.len() ==> #[trigger] final(helper).running_jobs@[i]
                    == old(helper).running_jobs@[i],
            ({
                let job = final(helper).running_jobs@.last();
                &&& job.job_number == old(helper).running_jobs@.len() + 1
                &&& job.process_id == pid
                &&& job.command_string@ == join(views(command.args@), seq![' ']) + seq![' ', '&']
                &&& job.status@ == seq!['R', 'u', 'n', 'n', 'i', 'n', 'g']
            }),
            views(final(self).std_out@) == views(old(self).std_out@).push(
                job_started_line((old(helper).running_jobs@.len() + 1) as nat, pid as nat),
            ),
            final(self).std_err == old(self).std_err,
    {
        let mut command_line = join_strings(&command.args, " ");
        proof {
            reveal_strlit(" ");
            reveal_strlit(" &");
            reveal_strlit("Running");
            reveal_strlit("] ");
            assert(" "@ =~= seq![' ']);
            assert(" &"@ =~= seq![' ', '&']);
            assert("Running"@ =~= seq!['R', 'u', 'n', 'n', 'i', 'n', 'g']);
            assert("] "@ =~= seq![']', ' ']);
        }
        push_all(&mut command_line, " &");
        let count = helper.running_jobs.len() + 1;
        let job = RunningJob {
            job_number: count,
            process_id: pid,
            command_string: command_line,
            status: to_owned_string("Running"),
        };
        helper.running_jobs.push(job);
        let mut out = String::new();
        push_char(&mut out, '[');
        let n = decimal_string(count as u64);
        push_all(&mut out, n.as_str());
        push_all(&mut out, "] ");
        let p = decimal_string(pid as u64);
        push_all(&mut out, p.as_str());
        let ghost before = views(self.std_out@);
        let ghost line = out@;
        self.std_out.push(out);
        assert(line =~= job_started_line(count as nat, pid as nat));
        assert(views(self.std_out@) =~= before.push(line));
    }
}

/// `name` looked up in `dir` (`Path::join`).
fn join_path(dir: &str, name: &str) -> (r: String)
    ensures
        r@ == path_join(dir@, name@),
{
    let n = chars_of(name);
    if n.len() > 0 && n[0] == '/' {
        return to_owned_string(name);
    }
    let d = chars_of(dir);
    let mut r = to_owned_string(dir);
    if !(d.len() == 0 || d[d.len() - 1] == '/') {
        push_char(&mut r, '/');
    }
    push_all(&mut r, name);
    r
}

/// The text printed for collected output `v`.
fn printable(v: &Vec<String>) -> (r: String)
    ensures
        r@ == printed(views(v@)),
{
    let mut kept: Vec<String> = Vec::new();
    let mut i: usize = 0;
    while i < v.len()
        invariant
            i <= v.len(),
            views(kept@) == non_empty(views(v@.subrange(0, i as int))),
        decreases v.len() - i,
    {
        let ghost before = views(kept@);
        assert(views(v@.subrange(0, i + 1)).drop_last() =~= views(v@.subrange(0, i as int)));
        assert(views(v@.subrange(0, i + 1)).last() == v@[i as int]@);
        if !v[i].as_str().is_empty() {
            kept.push(v[i].clone());
            assert(views(kept@) =~= before.push(v@[i as int]@));
        }
        i = i + 1;
    }
    assert(v@.subrange(0, v.len() as int) =~= v@);
    if kept.len() == 0 {
        String::new()
    } else {
        proof {
            reveal_strlit("\n");
            reveal_strlit("\r\n");
            assert("\n"@ =~= seq!['\n']);
            assert("\r\n"@ =~= seq!['\r', '\n']);
        }
        let mut r = join_strings(&kept, "\n");
        push_all(&mut r, "\r\n");
        r
    }
}

} // verus!

verus! {

proof fn lemma_gather_plain(args: Seq<Seq<char>>, i: int, n: int, c: CommandView)
    requires
        0 <= i <= n <= args.len(),
        forall|k: int| i <= k < n ==> !is_redirect(#[trigger] args[k]),
    ensures
        gather(args, i, c) == gather(
            args,
            n,
            CommandView { args: c.args + args.subrange(i, n), ..c },
        ),
    decreases n - i,
{
    if i == n {
        assert(c.args + args.subrange(i, n) =~= c.args);
    } else {
        let c1 = CommandView { args: c.args.push(args[i]), ..c };
        lemma_gather_plain(args, i + 1, n, c1);
        assert(c1.args + args.subrange(i + 1, n) =~= c.args + args.subrange(i, n));
    }
}

/// `cmd args... SYMBOL file`: a redirection written last sends the output to
/// the file, and neither the symbol nor the file is an argument.
pub proof fn law_trailing_redirection(xs: Seq<Seq<char>>, symbol: Seq<char>, file: Seq<char>)
    requires
        forall|k: int| 0 <= k < xs.len() ==> !is_redirect(#[trigger] xs[k]),
        is_redirect(symbol),
    ensures
        gathered(xs + seq![symbol, file]) == redirect(
            CommandView { args: xs, ..empty_command() },
            symbol,
            file,
        ),
{
    let all = xs + seq![symbol, file];
    assert forall|k: int| 0 <= k < xs.len() implies !is_redirect(#[trigger] all[k]) by {
        assert(all[k] == xs[k]);
    }
    lemma_gather_plain(all, 0, xs.len() as int, empty_command());
    assert(empty_command().args + all.subrange(0, xs.len() as int) =~= xs);
    assert(all[xs.len() as int] == symbol);
    assert(all[xs.len() as int + 1] == file);
    let c = redirect(CommandView { args: xs, ..empty_command() }, symbol, file);
    assert(gather(all, xs.len() as int + 2, c) == c);
}

/// `cmd args... &`: a final `&` makes the command a background job and is
/// not one of its arguments.
pub proof fn law_background_marker(xs: Seq<Seq<char>>, paths: Seq<Seq<char>>, found: Seq<bool>)
    requires
        xs.len() > 0,
        forall|k: int| 0 <= k < xs.len() ==> !is_redirect(#[trigger] xs[k]),
    ensures
        determined(xs.push(seq!['&']), paths, found).len() == 1,
        determined(xs.push(seq!['&']), paths, found)[0].background,
        determined(xs.push(seq!['&']), paths, found)[0].args == xs,
{
    let all = xs.push(seq!['&']);
    assert forall|k: int| 0 <= k < all.len() implies !is_redirect(#[trigger] all[k]) by {
        if k < xs.len() {
            assert(all[k] == xs[k]);
        } else {
            assert(all[k] == seq!['&']);
            assert(seq!['&'] != seq!['>']) by {
                assert(seq!['&'][0] != seq!['>'][0]);
            }
            assert(seq!['&'].len() == 1);
        }
    }
    lemma_gather_plain(all, 0, all.len() as int, empty_command());
    assert(empty_command().args + all.subrange(0, all.len() as int) =~= all);
    let c = gathered(all);
    assert(c.args == all);
    assert(c != empty_command()) by {
        assert(c.args.len() != empty_command().args.len());
    }
    assert(resolve(c, paths, found).args.last() == seq!['&']);
}

/// What each redirection symbol written last does, for a command `xs`
/// without other redirections: `>` and `1>` send standard output to the file
/// and overwrite it, `>>` and `1>>` append to it; `2>` and `2>>` do the same
/// for standard error. The command keeps exactly the arguments `xs`.
pub proof fn law_redirection_symbols(
    xs: Seq<Seq<char>>,
    file: Seq<char>,
    paths: Seq<Seq<char>>,
    found: Seq<bool>,
)
    requires
        xs.len() > 0,
        forall|k: int| 0 <= k < xs.len() ==> !is_redirect(#[trigger] xs[k]),
    ensures
        ({
            let c = determined(xs + seq![seq!['>'], file], paths, found);
            c.len() == 1 && c[0].std_out == Some(file) && c[0].std_err is None && !c[0].append
        }),
        ({
            let c = determined(xs + seq![seq!['1', '>'], file], paths, found);
            c.len() == 1 && c[0].std_out == Some(file) && c[0].std_err is None && !c[0].append
        }),
        ({
            let c = determined(xs + seq![seq!['>', '>'], file], paths, found);
            c.len() == 1 && c[0].std_out == Some(file) && c[0].std_err is None && c[0].append
        }),
        ({
            let c = determined(xs + seq![seq!['1', '>', '>'], file], paths, found);
            c.len() == 1 && c[0].std_out == Some(file) && c[0].std_err is None && c[0].append
        }),
        ({
            let c = determined(xs + seq![seq!['2', '>'], file], paths, found);
            c.len() == 1 && c[0].std_err == Some(file) && c[0].std_out is None && !c[0].append
        }),
        ({
            let c = determined(xs + seq![seq!['2', '>', '>'], file], paths, found);
            c.len() == 1 && c[0].std_err == Some(file) && c[0].std_out is None && c[0].append
        }),
        forall|k: int| 0 <= k < 6 ==> {
            let sym = #[trigger] redirection_symbol(k);
            determined(xs + seq![sym, file], paths, found)[0].args == (if xs.last() == seq!['&'] {
                xs.drop_last()
            } else {
                xs
            })
        },
{
    lemma_redirected_command(xs, seq!['>'], file, paths, found);
    lemma_redirected_command(xs, seq!['1', '>'], file, paths, found);
    lemma_redirected_command(xs, seq!['>', '>'], file, paths, found);
    lemma_redirected_command(xs, seq!['1', '>', '>'], file, paths, found);
    lemma_redirected_command(xs, seq!['2', '>'], file, paths, found);
    lemma_redirected_command(xs, seq!['2', '>', '>'], file, paths, found);
    assert forall|k: int| 0 <= k < 6 implies ({
        let sym = #[trigger] redirection_symbol(k);
        determined(xs + seq![sym, file], paths, found)[0].args == (if xs.last() == seq!['&'] {
            xs.drop_last()
        } else {
            xs
        })
    }) by {
        lemma_redirected_command(xs, redirection_symbol(k), file, paths, found);
    }
    assert(seq!['>'].len() == 1 && seq!['1', '>'].len() == 2 && seq!['>', '>'].len() == 2);
    assert(seq!['1', '>', '>'].len() == 3 && seq!['2', '>'].len() == 2 && seq!['2', '>', '>'].len()
        == 3);
    assert(seq!['>'] != seq!['1', '>']);
    assert(seq!['>', '>'] != seq!['1', '>']) by {
        assert(seq!['>', '>'][0] != seq!['1', '>'][0]);
    }
    assert(seq!['>', '>'] != seq!['>']);
    assert(seq!['>', '>'] != seq!['2', '>']) by {
        assert(seq!['>', '>'][0] != seq!['2', '>'][0]);
    }
    assert(seq!['1', '>', '>'] != seq!['1', '>']);
    assert(seq!['1', '>', '>'] != seq!['>']);
    assert(seq!['1', '>', '>'] != seq!['2', '>']);
    assert(seq!['1', '>', '>'] != seq!['>', '>']);
    assert(seq!['2', '>'] != seq!['>']);
    assert(seq!['2', '>'] != seq!['1', '>']) by {
        assert(seq!['2', '>'][0] != seq!['1', '>'][0]);
    }
    assert(seq!['2', '>', '>'] != seq!['>']);
    assert(seq!['2', '>', '>'] != seq!['1', '>']);
    assert(seq!['2', '>', '>'] != seq!['>', '>']) by {
        assert(seq!['2', '>', '>'][0] != seq!['>', '>'][0]);
    }
    assert(seq!['2', '>', '>'] != seq!['1', '>', '>']) by {
        assert(seq!['2', '>', '>'][0] != seq!['1', '>', '>'][0]);
    }
    assert(seq!['2', '>', '>'] != seq!['2', '>']);
    assert(is_redirect(seq!['>']));
    assert(is_redirect(seq!['1', '>']));
    assert(is_redirect(seq!['>', '>']));
    assert(is_redirect(seq!['1', '>', '>']));
    assert(is_redirect(seq!['2', '>']));
    assert(is_redirect(seq!['2', '>', '>']));
}

proof fn lemma_redirected_command(
    xs: Seq<Seq<char>>,
    sym: Seq<char>,
    file: Seq<char>,
    paths: Seq<Seq<char>>,
    found: Seq<bool>,
)
    requires
        xs.len() > 0,
        forall|k: int| 0 <= k < xs.len() ==> !is_redirect(#[trigger] xs[k]),
        is_redirect(sym),
    ensures
        gathered(xs + seq![sym, file]) == redirect(
            CommandView { args: xs, ..empty_command() },
            sym,
            file,
        ),
        determined(xs + seq![sym, file], paths, found) == seq![
            mark_background(resolve(gathered(xs + seq![sym, file]), paths, found)),
        ],
        determined(xs + seq![sym, file], paths, found)[0].args == (if xs.last() == seq!['&'] {
            xs.drop_last()
        } else {
            xs
        }),
{
    law_trailing_redirection(xs, sym, file);
    let g = gathered(xs + seq![sym, file]);
    assert(g.args == xs);
    assert(g.args.len() != empty_command().args.len());
}

/// The redirection symbols: `>`, `1>`, `>>`, `1>>`, `2>`, `2>>`.
pub open spec fn redirection_symbol(k: int) -> Seq<char> {
    if k == 0 {
        seq!['>']
    } else if k == 1 {
        seq!['1', '>']
    } else if k == 2 {
        seq!['>', '>']
    } else if k == 3 {
        seq!['1', '>', '>']
    } else if k == 4 {
        seq!['2', '>']
    } else {
        seq!['2', '>', '>']
    }
}

proof fn lemma_first_found_skips(name: Seq<char>, paths: Seq<Seq<char>>, found: Seq<bool>, i: int, k: int)
    requires
        0 <= i <= k,
        forall|j: int| 0 <= j < k ==> !(j < found.len() && #[trigger] found[j]),
    ensures
        first_found(name, paths, found, i) == first_found(name, paths, found, k),
    decreases k - i,
{
    if i < k {
        lemma_first_found_skips(name, paths, found, i + 1, k);
    }
}

/// The search path is looked at in order: a non-empty command is found in
/// the first directory, counting from the first, in which it is an
/// executable file, and nowhere when it is an executable file in none.
pub proof fn law_search_path_order(name: Seq<char>, paths: Seq<Seq<char>>, found: Seq<bool>, k: int)
    requires
        name.len() > 0,
    ensures
        0 <= k < paths.len() && k < found.len() && found[k] && (forall|j: int|
            0 <= j < k ==> !(j < found.len() && #[trigger] found[j])) ==> located(
            name,
            paths,
            found,
        ) == Some(path_join(paths[k], name)),
        (forall|j: int| 0 <= j < paths.len() ==> !(j < found.len() && #[trigger] found[j]))
            ==> located(name, paths, found) is None,
{
    if 0 <= k < paths.len() && k < found.len() && found[k] && (forall|j: int|
        0 <= j < k ==> !(j < found.len() && #[trigger] found[j])) {
        lemma_first_found_skips(name, paths, found, 0, k);
    }
    if forall|j: int| 0 <= j < paths.len() ==> !(j < found.len() && #[trigger] found[j]) {
        lemma_first_found_skips(name, paths, found, 0, paths.len() as int);
    }
}

/// How a command name is looked for in a directory: an absolute name stands
/// for itself; otherwise the directory and the name are joined by exactly
/// one `/` (none is added after an empty directory).
pub proof fn law_path_join(dir: Seq<char>, name: Seq<char>)
    ensures
        name.len() > 0 && name[0] == '/' ==> path_join(dir, name) == name,
        !(name.len() > 0 && name[0] == '/') && dir.len() > 0 && dir.last() != '/' ==> path_join(
            dir,
            name,
        ) == dir + seq!['/'] + name,
        !(name.len() > 0 && name[0] == '/') && dir.len() > 0 && dir.last() == '/' ==> path_join(
            dir,
            name,
        ) == dir + name,
        !(name.len() > 0 && name[0] == '/') && dir.len() == 0 ==> path_join(dir, name) == name,
{
    assert(Seq::<char>::empty() + name =~= name);
}

} // verus!

verus! {

/// A command without redirections: a builtin name (around which whitespace
/// is ignored) makes a builtin with no executable; any other first word is
/// looked up on the search path by its trimmed name and gets the path where
/// it was found, or none. The arguments are kept, and it runs in the
/// foreground unless it ends in `&`.
pub proof fn law_command_resolution(xs: Seq<Seq<char>>, paths: Seq<Seq<char>>, found: Seq<bool>)
    requires
        xs.len() > 0,
        forall|k: int| 0 <= k < xs.len() ==> !is_redirect(#[trigger] xs[k]),
        xs.last() != seq!['&'],
    ensures
        determined(xs, paths, found).len() == 1,
        determined(xs, paths, found)[0].args == xs,
        !determined(xs, paths, found)[0].background,
        determined(xs, paths, found)[0].std_out is None,
        determined(xs, paths, found)[0].std_err is None,
        !determined(xs, paths, found)[0].append,
        is_builtin_text(xs[0]) ==> determined(xs, paths, found)[0].is_builtin
            && determined(xs, paths, found)[0].executable_path.len() == 0,
        !is_builtin_text(xs[0]) ==> !determined(xs, paths, found)[0].is_builtin
            && determined(xs, paths, found)[0].executable_path == match located(
            trim(xs[0]),
            paths,
            found,
        ) {
            Some(p) => p,
            None => Seq::<char>::empty(),
        },
{
    lemma_gather_plain(xs, 0, xs.len() as int, empty_command());
    assert(empty_command().args + xs.subrange(0, xs.len() as int) =~= xs);
    let c = gathered(xs);
    assert(c.args == xs);
    assert(c.args.len() != empty_command().args.len());
}

} // verus!
