//! Builtin command names, the shell's error type, the registry of
//! programmable completions and background jobs, and the text that the
//! shell writes for a missing command, a redirected output and a
//! completion script's answer.
use vstd::prelude::*;
use vstd::utf8::{decode_utf8, valid_utf8};
use crate::text::{
    chars_eq, chars_of, has_suffix, opt_view, push_all, push_char,
    to_owned_string, trim, trimmed_chars, views,
};

verus! {

/// Why a command produced no output.
#[derive(Debug)]
pub enum CommandError {
    NotFound,
    /// The command failed; the text says why.
    Process(String),
}

/// The builtin commands.
#[derive(Clone, Copy, Debug, PartialEq, Eq, Structural)]
pub enum ShellCommand {
    Exit,
    Echo,
    Type,
    Pwd,
    Cd,
    Complete,
}

/// The builtin named `name`, if any.
pub open spec fn builtin_named(name: Seq<char>) -> Option<ShellCommand> {
    if name == seq!['e', 'x', 'i', 't'] {
        Some(ShellCommand::Exit)
    } else if name == seq!['e', 'c', 'h', 'o'] {
        Some(ShellCommand::Echo)
    } else if name == seq!['t', 'y', 'p', 'e'] {
        Some(ShellCommand::Type)
    } else if name == seq!['p', 'w', 'd'] {
        Some(ShellCommand::Pwd)
    } else if name == seq!['c', 'd'] {
        Some(ShellCommand::Cd)
    } else if name == seq!['c', 'o', 'm', 'p', 'l', 'e', 't', 'e'] {
        Some(ShellCommand::Complete)
    } else {
        None
    }
}

/// `text` names a builtin once surrounding whitespace is removed.
pub open spec fn is_builtin_text(text: Seq<char>) -> bool {
    builtin_named(trim(text)) is Some
}

/// Whether `v` holds exactly the characters of the literal `w`.
fn is_word(v: &Vec<char>, w: &str) -> (r: bool)
    ensures
        r == (v@ == w@),
{
    let cs = chars_of(w);
    chars_eq(v, &cs)
}

impl ShellCommand {
    /// The builtin named by `check`, ignoring surrounding whitespace.
    pub fn from_str(check: &str) -> (r: Result<Self, CommandError>)
        ensures
            builtin_named(trim(check@)) matches Some(b) ==> r == Ok::<ShellCommand, CommandError>(
                b,
            ),
            builtin_named(trim(check@)) is None ==> r matches Err(CommandError::NotFound),
    {
        let name = trimmed_chars(check);
        proof {
            reveal_strlit("exit");
            reveal_strlit("echo");
            reveal_strlit("type");
            reveal_strlit("pwd");
            reveal_strlit("cd");
            reveal_strlit("complete");
            assert("exit"@ =~= seq!['e', 'x', 'i', 't']);
            assert("echo"@ =~= seq!['e', 'c', 'h', 'o']);
            assert("type"@ =~= seq!['t', 'y', 'p', 'e']);
            assert("pwd"@ =~= seq!['p', 'w', 'd']);
            assert("cd"@ =~= seq!['c', 'd']);
            assert("complete"@ =~= seq!['c', 'o', 'm', 'p', 'l', 'e', 't', 'e']);
        }
        if is_word(&name, "exit") {
            Ok(ShellCommand::Exit)
        } else if is_word(&name, "echo") {
            Ok(ShellCommand::Echo)
        } else if is_word(&name, "type") {
            Ok(ShellCommand::Type)
        } else if is_word(&name, "pwd") {
            Ok(ShellCommand::Pwd)
        } else if is_word(&name, "cd") {
            Ok(ShellCommand::Cd)
        } else if is_word(&name, "complete") {
            Ok(ShellCommand::Complete)
        } else {
            Err(CommandError::NotFound)
        }
    }
}

/// A job started in the background.
pub struct RunningJob {
    pub job_number: usize,
    pub process_id: u32,
    /// The command line as typed, ending in ` &`.
    pub command_string: String,
    /// `Running` or `Done`.
    pub status: String,
}

/// The registered programmable completions, as a map from command name to
/// completer script, built from the entries in order (a later entry for a
/// name replaces an earlier one).
pub open spec fn completion_map(entries: Seq<(String, String)>) -> Map<Seq<char>, Seq<char>>
    decreases entries.len(),
{
    if entries.len() == 0 {
        Map::empty()
    } else {
        completion_map(entries.drop_last()).insert(entries.last().0@, entries.last().1@)
    }
}

/// Shell state that the completer and the builtins share: the completion
/// scripts registered with `complete -C` and the background jobs.
pub struct ShellHelper {
    /// Command name and completer script, in the order they were registered.
    pub completions: Vec<(String, String)>,
    pub running_jobs: Vec<RunningJob>,
}

impl ShellHelper {
    /// The registered completions: command name to script path.
    pub open spec fn completions(&self) -> Map<Seq<char>, Seq<char>> {
        completion_map(self.completions@)
    }

    pub fn new() -> (h: Self)
        ensures
            h.completions() == Map::<Seq<char>, Seq<char>>::empty(),
            h.running_jobs@.len() == 0,
    {
        ShellHelper { completions: Vec::new(), running_jobs: Vec::new() }
    }

    /// The script registered for `command`.
    pub fn completion_for(&self, command: &str) -> (r: Option<String>)
        ensures
            self.completions().contains_key(command@) ==> (r matches Some(p) && p@
                == self.completions()[command@]),
            !self.completions().contains_key(command@) ==> r is None,
    {
        let key = chars_of(command);
        let mut i = self.completions.len();
        while i > 0
            invariant
                i <= self.completions.len(),
                key@ == command@,
                forall|j: int|
                    i <= j < self.completions@.len() ==> #[trigger] self.completions@[j].0@
                        != key@,
            decreases i,
        {
            let k = chars_of(self.completions[i - 1].0.as_str());
            if chars_eq(&k, &key) {
                proof {
                    lemma_completion_map_latest(self.completions@, i - 1);
                }
                return Some(self.completions[i - 1].1.clone());
            }
            i = i - 1;
        }
        proof {
            lemma_completion_map_absent(self.completions@, command@);
        }
        None
    }

    /// Registers `script` as the completer of `command`.
    pub fn set_completion(&mut self, command: String, script: String)
        ensures
            final(self).completions() == old(self).completions().insert(command@, script@),
            final(self).running_jobs == old(self).running_jobs,
    {
        self.completions.push((command, script));
        assert(self.completions@.drop_last() =~= old(self).completions@);
    }
}

proof fn lemma_completion_map_latest(entries: Seq<(String, String)>, i: int)
    requires
        0 <= i < entries.len(),
        forall|j: int| i < j < entries.len() ==> #[trigger] entries[j].0@ != entries[i].0@,
    ensures
        completion_map(entries).contains_key(entries[i].0@),
        completion_map(entries)[entries[i].0@] == entries[i].1@,
    decreases entries.len(),
{
    if i < entries.len() - 1 {
        let u = entries.drop_last();
        assert forall|j: int| i < j < u.len() implies #[trigger] u[j].0@ != u[i].0@ by {
            assert(u[j] == entries[j]);
        }
        assert(entries[entries.len() - 1] == entries.last());
        lemma_completion_map_latest(u, i);
    }
}

proof fn lemma_completion_map_absent(entries: Seq<(String, String)>, key: Seq<char>)
    requires
        forall|j: int| 0 <= j < entries.len() ==> #[trigger] entries[j].0@ != key,
    ensures
        !completion_map(entries).contains_key(key),
    decreases entries.len(),
{
    if entries.len() > 0 {
        let u = entries.drop_last();
        assert forall|j: int| 0 <= j < u.len() implies #[trigger] u[j].0@ != key by {
            assert(u[j] == entries[j]);
        }
        assert(entries[entries.len() - 1] == entries.last());
        lemma_completion_map_absent(u, key);
    }
}

/// `<command>: command not found`, with the command trimmed.
pub open spec fn not_found_message(command: Seq<char>) -> Seq<char> {
    trim(command) + seq![
        ':', ' ', 'c', 'o', 'm', 'm', 'a', 'n', 'd', ' ', 'n', 'o', 't', ' ', 'f', 'o', 'u', 'n', 'd'
    ]
}

/// What a redirected command's output file receives: the output; when
/// appending to a file that already holds text, that text and a newline
/// come first.
pub open spec fn redirected_text(output: Seq<char>, existing: Option<Seq<char>>) -> Seq<char> {
    let result = output;
    match existing {
        Some(old) => if old.len() > 0 {
            old + seq!['\n'] + result
        } else {
            result
        },
        None => result,
    }
}

/// The argument vector a completion script is called with: the command,
/// the word being completed (the last argument) and the word before it when
/// there are more than two.
pub open spec fn completer_args(args: Seq<Seq<char>>) -> Seq<Seq<char>> {
    seq![
        args[0],
        if args.len() > 1 {
            args.last()
        } else {
            Seq::empty()
        },
        if args.len() > 2 {
            args[args.len() - 2]
        } else {
            Seq::empty()
        },
    ]
}

/// A line without the carriage return that ended it, if any.
pub open spec fn strip_cr(line: Seq<char>) -> Seq<char> {
    if line.len() > 0 && line.last() == '\r' {
        line.drop_last()
    } else {
        line
    }
}

/// The lines of `s` after the partial line `cur`, as `str::lines` yields
/// them: split at `\n`, a `\r` right before the `\n` dropped, and no empty
/// line after a final `\n`.
pub open spec fn lines_from(s: Seq<char>, cur: Seq<char>) -> Seq<Seq<char>>
    decreases s.len(),
{
    if s.len() == 0 {
        if cur.len() > 0 {
            seq![cur]
        } else {
            Seq::empty()
        }
    } else if s[0] == '\n' {
        seq![strip_cr(cur)] + lines_from(s.drop_first(), Seq::empty())
    } else {
        lines_from(s.drop_first(), cur.push(s[0]))
    }
}

/// The lines of `s` (`str::lines`).
pub open spec fn lines(s: Seq<char>) -> Seq<Seq<char>> {
    lines_from(s, Seq::empty())
}

/// Decodes UTF-8 bytes with `String::from_utf8`; `None` when the bytes are
/// not valid UTF-8. Trusted: the contract claims, as `String::from_utf8` is
/// documented, that the result is `Some` exactly when the bytes are valid
/// UTF-8, and then holds the characters they encode.
#[verifier::external_body]
pub(crate) fn string_from_utf8(bytes: Vec<u8>) -> (r: Option<String>)
    ensures
        r is Some <==> valid_utf8(bytes@),
        r matches Some(s) ==> s@ == decode_utf8(bytes@),
{
    String::from_utf8(bytes).ok()
}

/// The lines of `s`, as strings.
pub fn split_lines(s: &str) -> (r: Vec<String>)
    ensures
        views(r@) == lines(s@),
{
    let cs = chars_of(s);
    let mut out: Vec<String> = Vec::new();
    let mut cur = String::new();
    let mut i: usize = 0;
    assert(cs@.subrange(0, cs.len() as int) =~= cs@);
    assert(views(out@) + lines(s@) =~= lines(s@));
    while i < cs.len()
        invariant
            i <= cs.len(),
            cs@ == s@,
            views(out@) + lines_from(cs@.subrange(i as int, cs.len() as int), cur@) == lines(s@),
        decreases cs.len() - i,
    {
        let ghost rest = cs@.subrange(i as int, cs.len() as int);
        assert(rest.drop_first() =~= cs@.subrange(i + 1, cs.len() as int));
        if cs[i] == '\n' {
            let line = strip_trailing_cr(&cur);
            let ghost before = views(out@);
            out.push(line);
            assert(views(out@) =~= before.push(strip_cr(cur@)));
            assert(before + (seq![strip_cr(cur@)] + lines_from(rest.drop_first(), Seq::empty()))
                =~= views(out@) + lines_from(rest.drop_first(), Seq::empty()));
            cur = String::new();
        } else {
            push_char(&mut cur, cs[i]);
        }
        i = i + 1;
    }
    if !cur.as_str().is_empty() {
        let ghost before = views(out@);
        out.push(cur);
        assert(views(out@) =~= before.push(cur@));
    } else {
        assert(views(out@) + Seq::<Seq<char>>::empty() =~= views(out@));
    }
    out
}

fn strip_trailing_cr(line: &String) -> (r: String)
    ensures
        r@ == strip_cr(line@),
{
    let cs = chars_of(line.as_str());
    if cs.len() > 0 && cs[cs.len() - 1] == '\r' {
        crate::text::string_from_range(&cs, 0, cs.len() - 1)
    } else {
        line.clone()
    }
}

impl ShellHelper {
    /// The script and the argument vector to run for programmable completion
    /// of the command line `args`, when a script is registered for its first
    /// word.
    pub fn completer_invocation(&self, args: &Vec<String>) -> (r: Option<(String, Vec<String>)>)
        requires
            args.len() > 0,
        ensures
            self.completions().contains_key(args@[0]@) ==> (r matches Some((script, call))
                && script@ == self.completions()[args@[0]@] && views(call@) == completer_args(
                views(args@),
            )),
            !self.completions().contains_key(args@[0]@) ==> r is None,
    {
        let command = &args[0];
        let length = args.len();
        let file_path = match self.completion_for(command.as_str()) {
            Some(p) => p,
            None => {
                return None;
            },
        };
        let mut completion_args: Vec<String> = Vec::new();
        completion_args.push(command.clone());
        if length > 1 {
            completion_args.push(args[length - 1].clone());
        } else {
            completion_args.push(String::new());
        }
        if length > 2 {
            completion_args.push(args[length - 2].clone());
        } else {
            completion_args.push(String::new());
        }
        assert(views(completion_args@) =~= completer_args(views(args@)));
        Some((file_path, completion_args))
    }

    /// The message for a command that was not found (see
    /// [`not_found_message`]).
    pub fn handle_not_found(command: &str) -> (r: String)
        ensures
            r@ == not_found_message(command@),
    {
        let mut message = crate::text::trim_string(command);
        proof {
            reveal_strlit(": command not found");
        }
        push_all(&mut message, ": command not found");
        message
    }

    /// The text a redirected command's output file receives. `existing` is
    /// the file's current text when appending to a readable UTF-8 file.
    pub fn redirect_contents(output: &str, existing: Option<String>) -> (r: String)
        ensures
            r@ == redirected_text(output@, opt_view(existing)),
    {
        let result = to_owned_string(output);
        match existing {
            Some(mut new_string) => {
                if !new_string.as_str().is_empty() {
                    push_char(&mut new_string, '\n');
                }
                push_all(&mut new_string, result.as_str());
                new_string
            },
            None => result,
        }
    }
}

} // verus!

verus! {

/// The builtins are exactly `exit`, `echo`, `type`, `pwd`, `cd` and
/// `complete`, each naming its own command; any other text names none.
pub proof fn law_builtin_names(name: Seq<char>)
    ensures
        name == seq!['e', 'x', 'i', 't'] <==> builtin_named(name) == Some(ShellCommand::Exit),
        name == seq!['e', 'c', 'h', 'o'] <==> builtin_named(name) == Some(ShellCommand::Echo),
        name == seq!['t', 'y', 'p', 'e'] <==> builtin_named(name) == Some(ShellCommand::Type),
        name == seq!['p', 'w', 'd'] <==> builtin_named(name) == Some(ShellCommand::Pwd),
        name == seq!['c', 'd'] <==> builtin_named(name) == Some(ShellCommand::Cd),
        name == seq!['c', 'o', 'm', 'p', 'l', 'e', 't', 'e'] <==> builtin_named(name) == Some(
            ShellCommand::Complete,
        ),
{
}

/// A completion script is called with the command, the word being
/// completed (the last one) and the word before it, an empty text standing
/// for a word that is not there.
pub proof fn law_completer_arguments(args: Seq<Seq<char>>)
    requires
        args.len() > 0,
    ensures
        args.len() == 1 ==> completer_args(args) == seq![args[0], Seq::<char>::empty(), Seq::<char>::empty()],
        args.len() == 2 ==> completer_args(args) == seq![args[0], args[1], Seq::<char>::empty()],
        args.len() >= 3 ==> completer_args(args) == seq![
            args[0],
            args[args.len() - 1],
            args[args.len() - 2],
        ],
{
}

/// A redirected file receives exactly the command's output; when appending
/// to a file that holds text, that text and one newline stay in front.
pub proof fn law_redirected_file(output: Seq<char>, existing: Option<Seq<char>>)
    ensures
        redirected_text(output, None) == output,
        existing is Some && existing->0.len() > 0 ==> redirected_text(output, existing)
            == existing->0 + seq!['\n'] + output,
        existing is Some && existing->0.len() == 0 ==> redirected_text(output, existing)
            == output,
        redirected_text(output, existing).len() >= output.len(),
        has_suffix(redirected_text(output, existing), output),
{
    let r = redirected_text(output, existing);
    assert(r.subrange(r.len() - output.len(), r.len() as int) =~= output);
}

} // verus!
