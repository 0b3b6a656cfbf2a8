//! The builtin commands. Those that only compute run here; for `exit`,
//! `cd`, `pwd` and `type` the caller is told what to do.
use vstd::prelude::*;
use crate::shell::{CommandError, ShellCommand as ShellBuiltin, ShellHelper};
use crate::text::{join, join_strings, trim, trim_string, views};
use self::complete::{complete_message, complete_registry, has_flag, print_flag};

pub mod cd;
pub mod complete;
pub mod echo;
pub mod jobs;
pub mod typecmd;

verus! {

/// What running a builtin leaves to the caller.
pub enum BuiltinRun {
    /// The builtin ran; this is its result.
    Finished(Result<String, CommandError>),
    /// Leave the shell.
    Exit,
    /// Go to this directory (see [`cd::expand_home`] and
    /// [`cd::missing_directory`]).
    ChangeDirectory(String),
    /// Answer with the current directory.
    PrintWorkingDirectory,
    /// Describe this command with [`typecmd::handle_type`].
    DescribeCommand(String),
}

/// `args` holds what the builtin reads: `cd` and `type` need an argument,
/// and `complete -p` a name.
pub open spec fn builtin_args_ok(command: ShellBuiltin, args: Seq<Seq<char>>) -> bool {
    &&& (command == ShellBuiltin::Cd || command == ShellBuiltin::Type) ==> args.len() >= 2
    &&& command == ShellBuiltin::Echo ==> args.len() >= 1
    &&& command == ShellBuiltin::Complete ==> (has_flag(args) && args[1] == print_flag()
        ==> args.len() >= 3)
}

/// Runs the builtin `command` with the arguments `args` (the first is the
/// builtin's name): `echo` answers with its arguments joined by spaces and
/// `complete` runs on the shared completions; the others are handed back.
pub fn run_builtin(command: ShellBuiltin, args: Vec<String>, completions: &mut ShellHelper) -> (r:
    BuiltinRun)
    requires
        builtin_args_ok(command, views(args@)),
    ensures
        command == ShellBuiltin::Exit ==> r is Exit,
        command == ShellBuiltin::Pwd ==> r is PrintWorkingDirectory,
        command == ShellBuiltin::Cd ==> (r matches BuiltinRun::ChangeDirectory(d) && d@ == trim(
            args@[1]@,
        )),
        command == ShellBuiltin::Type ==> (r matches BuiltinRun::DescribeCommand(c) && c@
            == args@[1]@),
        command == ShellBuiltin::Echo ==> (r matches BuiltinRun::Finished(Ok(s)) && s@ == join(
            views(args@).drop_first(),
            seq![' '],
        )),
        command == ShellBuiltin::Complete ==> (r matches BuiltinRun::Finished(Ok(s)) && s@
            == complete_message(views(args@), old(completions).completions())),
        command == ShellBuiltin::Complete ==> final(completions).completions() == complete_registry(
            views(args@),
            old(completions).completions(),
        ),
        command != ShellBuiltin::Complete ==> *final(completions) == *old(completions),
        final(completions).running_jobs == old(completions).running_jobs,
{
    match command {
        ShellBuiltin::Exit => BuiltinRun::Exit,
        ShellBuiltin::Cd => BuiltinRun::ChangeDirectory(trim_string(args[1].as_str())),
        ShellBuiltin::Echo => {
            let mut rest: Vec<String> = Vec::new();
            let mut i: usize = 1;
            while i < args.len()
                invariant
                    1 <= i <= args.len(),
                    views(rest@) == views(args@).subrange(1, i as int),
                decreases args.len() - i,
            {
                let ghost before = views(rest@);
                let item = args[i].clone();
                assert(item@ == args@[i as int]@);
                rest.push(item);
                assert(views(rest@) =~= before.push(args@[i as int]@));
                assert(views(rest@) =~= views(args@).subrange(1, i + 1));
                i = i + 1;
            }
            assert(views(args@).subrange(1, args@.len() as int) =~= views(args@).drop_first());
            proof {
                reveal_strlit(" ");
                assert(" "@ =~= seq![' ']);
            }
            BuiltinRun::Finished(echo::handle_echo(join_strings(&rest, " ").as_str()))
        },
        ShellBuiltin::Type => BuiltinRun::DescribeCommand(args[1].clone()),
        ShellBuiltin::Pwd => BuiltinRun::PrintWorkingDirectory,
        ShellBuiltin::Complete => BuiltinRun::Finished(complete::handle_complete(&args, completions)),
    }
}

} // verus!
