//! `type`: says whether a name is a builtin or where its executable is.
use vstd::prelude::*;
use crate::repl::{REPL, located};
use crate::shell::{CommandError, ShellCommand, builtin_named};
use crate::text::{push_all, to_owned_string, trim, views};

verus! {

/// `<name> is a shell builtin`.
pub open spec fn builtin_message(name: Seq<char>) -> Seq<char> {
    name + seq![
        ' ', 'i', 's', ' ', 'a', ' ', 's', 'h', 'e', 'l', 'l', ' ', 'b', 'u', 'i', 'l', 't', 'i', 'n'
    ]
}

/// `<name> is <path>`.
pub open spec fn located_message(name: Seq<char>, path: Seq<char>) -> Seq<char> {
    name + seq![' ', 'i', 's', ' '] + path
}

/// `<name>: not found`.
pub open spec fn missing_message(name: Seq<char>) -> Seq<char> {
    name + seq![':', ' ', 'n', 'o', 't', ' ', 'f', 'o', 'u', 'n', 'd']
}

/// Describes `command`: a builtin, or the executable found for it on the
/// search path (`found[i]` tells whether it is an executable file in
/// `paths[i]`, see [`REPL::path_candidates`]), or an error when it is
/// neither.
pub fn handle_type(command: &str, paths: &Vec<String>, found: &Vec<bool>) -> (r: Result<
    String,
    CommandError,
>)
    ensures
        builtin_named(trim(command@)) is Some ==> (r matches Ok(s) && s@ == builtin_message(
            command@,
        )),
        builtin_named(trim(command@)) is None ==> match located(command@, views(paths@), found@) {
            Some(p) => (r matches Ok(s) && s@ == located_message(command@, p)),
            None => (r matches Err(CommandError::Process(m)) && m@ == missing_message(command@)),
        },
{
    match ShellCommand::from_str(command) {
        Ok(_) => {
            let mut s = to_owned_string(command);
            proof {
                reveal_strlit(" is a shell builtin");
                assert(" is a shell builtin"@ =~= seq![
                    ' ', 'i', 's', ' ', 'a', ' ', 's', 'h', 'e', 'l', 'l', ' ', 'b', 'u', 'i', 'l', 't', 'i', 'n'
                ]);
            }
            push_all(&mut s, " is a shell builtin");
            Ok(s)
        },
        Err(_) => {
            let in_path = REPL::check_in_path(command, paths, found);
            match in_path {
                Some(exec_path) => {
                    let mut s = to_owned_string(command);
                    proof {
                        reveal_strlit(" is ");
                        assert(" is "@ =~= seq![' ', 'i', 's', ' ']);
                    }
                    push_all(&mut s, " is ");
                    push_all(&mut s, exec_path.as_str());
                    Ok(s)
                },
                None => {
                    let mut s = to_owned_string(command);
                    proof {
                        reveal_strlit(": not found");
                        assert(": not found"@ =~= seq![':', ' ', 'n', 'o', 't', ' ', 'f', 'o', 'u', 'n', 'd']);
                    }
                    push_all(&mut s, ": not found");
                    Err(CommandError::Process(s))
                },
            }
        },
    }
}

} // verus!
