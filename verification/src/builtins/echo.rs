//! `echo`: its output is its argument text.
use vstd::prelude::*;
use crate::shell::CommandError;
use crate::text::to_owned_string;

verus! {

/// The output of `echo` for the argument text `input`: the text itself.
pub fn handle_echo(input: &str) -> (r: Result<String, CommandError>)
    ensures
        r matches Ok(s) && s@ == input@,
{
    Ok(to_owned_string(input))
}

} // verus!
