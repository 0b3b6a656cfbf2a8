//! `complete`: registers (`-C script name`) and shows (`-p name`)
//! programmable completions.
use vstd::prelude::*;
use crate::shell::{CommandError, ShellHelper};
use crate::text::{chars_eq, chars_of, has_prefix, push_all, to_owned_string, views};

verus! {

/// `-p`
pub open spec fn print_flag() -> Seq<char> {
    seq!['-', 'p']
}

/// `-C`
pub open spec fn command_flag() -> Seq<char> {
    seq!['-', 'C']
}

/// `complete -C '<script>' <name>`.
pub open spec fn spec_line(name: Seq<char>, script: Seq<char>) -> Seq<char> {
    seq!['c', 'o', 'm', 'p', 'l', 'e', 't', 'e', ' ', '-', 'C', ' ', '\''] + script + seq![
        '\'',
        ' ',
    ] + name
}

/// `complete: <name>: no completion specification`.
pub open spec fn no_spec_line(name: Seq<char>) -> Seq<char> {
    seq!['c', 'o', 'm', 'p', 'l', 'e', 't', 'e', ':', ' '] + name + seq![
        ':', ' ', 'n', 'o', ' ', 'c', 'o', 'm', 'p', 'l', 'e', 't', 'i', 'o', 'n', ' ', 's', 'p',
        'e', 'c', 'i', 'f', 'i', 'c', 'a', 't', 'i', 'o', 'n'
    ]
}

/// `args` is `complete` with a flag.
pub open spec fn has_flag(args: Seq<Seq<char>>) -> bool {
    args.len() > 1 && has_prefix(args[1], seq!['-'])
}

/// What `complete` answers to `args` with the registered completions `map`.
pub open spec fn complete_message(args: Seq<Seq<char>>, map: Map<Seq<char>, Seq<char>>) -> Seq<char> {
    if has_flag(args) && args[1] == print_flag() {
        if args[2].len() > 0 && map.contains_key(args[2]) {
            spec_line(args[2], map[args[2]])
        } else {
            no_spec_line(args[2])
        }
    } else {
        Seq::empty()
    }
}

/// The completions after `complete` ran with `args`: `-C script name`, with
/// both non-empty, registers `script` for `name`.
pub open spec fn complete_registry(args: Seq<Seq<char>>, map: Map<Seq<char>, Seq<char>>) -> Map<Seq<char>, Seq<char>> {
    if has_flag(args) && args[1] == command_flag() && args.len() >= 4 && args[2].len() > 0
        && args[3].len() > 0 {
        map.insert(args[3], args[2])
    } else {
        map
    }
}

/// `complete -C script name` followed by `complete -p name` shows the
/// registration: a registered script is what `-p` reports.
pub proof fn law_registered_completion_is_shown(
    map: Map<Seq<char>, Seq<char>>,
    first: Seq<char>,
    script: Seq<char>,
    name: Seq<char>,
    second: Seq<char>,
)
    requires
        script.len() > 0,
        name.len() > 0,
    ensures
        complete_message(
            seq![second, print_flag(), name],
            complete_registry(seq![first, command_flag(), script, name], map),
        ) == spec_line(name, script),
{
    let reg = seq![first, command_flag(), script, name];
    assert(command_flag().subrange(0, 1) =~= seq!['-']);
    assert(print_flag().subrange(0, 1) =~= seq!['-']);
    assert(has_prefix(command_flag(), seq!['-']));
    assert(has_prefix(print_flag(), seq!['-']));
    assert(reg[1] == command_flag());
    assert(seq![second, print_flag(), name][1] == print_flag());
    assert(seq![second, print_flag(), name][2] == name);
    assert(reg[2] == script && reg[3] == name);
}

/// `complete -p` only shows: the registered completions stay as they were.
pub proof fn law_showing_does_not_register(map: Map<Seq<char>, Seq<char>>, args: Seq<Seq<char>>)
    requires
        has_flag(args) && args[1] == print_flag(),
    ensures
        complete_registry(args, map) == map,
{
    assert(print_flag() != command_flag()) by {
        assert(print_flag()[1] != command_flag()[1]);
    }
}

/// Runs `complete` with the arguments `args` (the first is `complete`).
pub fn handle_complete(args: &Vec<String>, completions: &mut ShellHelper) -> (r: Result<String, CommandError>)
    requires
        has_flag(views(args@)) && views(args@)[1] == print_flag() ==> args@.len() >= 3,
    ensures
        r matches Ok(s) && s@ == complete_message(views(args@), old(completions).completions()),
        final(completions).completions() == complete_registry(
            views(args@),
            old(completions).completions(),
        ),
        final(completions).running_jobs == old(completions).running_jobs,
{
    let ghost a = views(args@);
    proof {
        reveal_strlit("-");
        reveal_strlit("-p");
        reveal_strlit("-C");
        assert("-"@ =~= seq!['-']);
        assert("-p"@ =~= print_flag());
        assert("-C"@ =~= command_flag());
    }
    if args.len() > 1 && crate::text::starts_with(args[1].as_str(), "-") {
        assert(a[1] == args@[1]@);
        let flag = chars_of(args[1].as_str());
        let p = chars_of("-p");
        let c = chars_of("-C");
        if chars_eq(&flag, &p) {
            assert(a[2] == args@[2]@);
            if args.len() >= 3 && !args[2].as_str().is_empty() {
                if let Some(path) = completions.completion_for(args[2].as_str()) {
                    proof {
                        reveal_strlit("complete -C '");
                        reveal_strlit("' ");
                        assert("complete -C '"@ =~= seq!['c', 'o', 'm', 'p', 'l', 'e', 't', 'e', ' ', '-', 'C', ' ', '\'']);
                        assert("' "@ =~= seq!['\'', ' ']);
                    }
                    let mut message = to_owned_string("complete -C '");
                    push_all(&mut message, path.as_str());
                    push_all(&mut message, "' ");
                    push_all(&mut message, args[2].as_str());
                    return Ok(message);
                }
            }
            proof {
                reveal_strlit("complete: ");
                reveal_strlit(": no completion specification");
                assert("complete: "@ =~= seq!['c', 'o', 'm', 'p', 'l', 'e', 't', 'e', ':', ' ']);
                assert(": no completion specification"@ =~= seq![
                    ':', ' ', 'n', 'o', ' ', 'c', 'o', 'm', 'p', 'l', 'e', 't', 'i', 'o', 'n', ' ', 's', 'p',
                    'e', 'c', 'i', 'f', 'i', 'c', 'a', 't', 'i', 'o', 'n'
                ]);
            }
            let mut message = to_owned_string("complete: ");
            push_all(&mut message, args[2].as_str());
            push_all(&mut message, ": no completion specification");
            return Ok(message);
        } else if chars_eq(&flag, &c) {
            if args.len() >= 4 && !args[2].as_str().is_empty() && !args[3].as_str().is_empty() {
                assert(a[2] == args@[2]@ && a[3] == args@[3]@);
                let key = args[3].clone();
                let value = args[2].clone();
                completions.set_completion(key, value);
            }
        }
    }
    Ok(String::new())
}

} // verus!
