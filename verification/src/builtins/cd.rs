//! `cd`: where it goes, and what it says when the directory is missing.
//! Changing the directory itself is left to the caller.
use vstd::prelude::*;
use crate::shell::CommandError;
use crate::text::{chars_of, has_prefix, push_all, string_from_range, to_owned_string};

verus! {

/// The directory `cd dir` goes to: when `dir` starts with `~` and the home
/// directory is known, that leading `~` stands for the home directory.
pub open spec fn cd_destination(dir: Seq<char>, home: Option<Seq<char>>) -> Seq<char> {
    match home {
        Some(h) => if has_prefix(dir, seq!['~']) {
            h + dir.drop_first()
        } else {
            dir
        },
        None => dir,
    }
}

/// `cd: <dir>: No such file or directory \r\n`.
pub open spec fn no_such_directory(dir: Seq<char>) -> Seq<char> {
    seq!['c', 'd', ':', ' '] + dir + seq![
        ':', ' ', 'N', 'o', ' ', 's', 'u', 'c', 'h', ' ', 'f', 'i', 'l', 'e', ' ', 'o', 'r', ' ',
        'd', 'i', 'r', 'e', 'c', 't', 'o', 'r', 'y', ' ', '\r', '\n'
    ]
}

/// The directory that `cd directory` goes to, given the home directory.
pub fn expand_home(directory: &str, home: Option<String>) -> (r: String)
    ensures
        r@ == cd_destination(directory@, crate::text::opt_view(home)),
{
    proof {
        reveal_strlit("~");
        assert("~"@ =~= seq!['~']);
    }
    match home {
        Some(h) => {
            if crate::text::starts_with(directory, "~") {
                let cs = chars_of(directory);
                let rest = string_from_range(&cs, 1, cs.len());
                assert(cs@.subrange(1, cs@.len() as int) =~= directory@.drop_first());
                let mut r = h;
                push_all(&mut r, rest.as_str());
                r
            } else {
                to_owned_string(directory)
            }
        },
        None => to_owned_string(directory),
    }
}

/// The error of `cd` to a directory that does not exist.
pub fn missing_directory(dir: &str) -> (e: CommandError)
    ensures
        e matches CommandError::Process(m) && m@ == no_such_directory(dir@),
{
    proof {
        reveal_strlit("cd: ");
        reveal_strlit(": No such file or directory \r\n");
        assert("cd: "@ =~= seq!['c', 'd', ':', ' ']);
        assert(": No such file or directory \r\n"@ =~= seq![
            ':', ' ', 'N', 'o', ' ', 's', 'u', 'c', 'h', ' ', 'f', 'i', 'l', 'e', ' ', 'o', 'r', ' ',
            'd', 'i', 'r', 'e', 'c', 't', 'o', 'r', 'y', ' ', '\r', '\n'
        ]);
    }
    let mut m = to_owned_string("cd: ");
    push_all(&mut m, dir);
    push_all(&mut m, ": No such file or directory \r\n");
    CommandError::Process(m)
}

} // verus!

verus! {

/// Only a leading `~` stands for the home directory: `~rest` goes to the
/// home directory followed by `rest` (any later `~` kept), and a directory
/// that does not start with `~`, or any directory when the home directory is
/// unknown, is used as written.
pub proof fn law_home_expansion(dir: Seq<char>, home: Option<Seq<char>>)
    ensures
        dir.len() > 0 && dir[0] == '~' && home is Some ==> cd_destination(dir, home) == home->0
            + dir.subrange(1, dir.len() as int),
        !(dir.len() > 0 && dir[0] == '~') ==> cd_destination(dir, home) == dir,
        home is None ==> cd_destination(dir, home) == dir,
{
    if dir.len() > 0 && dir[0] == '~' {
        assert(dir.subrange(0, 1) =~= seq!['~']);
        assert(dir.drop_first() =~= dir.subrange(1, dir.len() as int));
    } else if dir.len() > 0 {
        assert(dir.subrange(0, 1)[0] == dir[0]);
    }
}

} // verus!
