use vstd::prelude::*;

pub mod text;
pub mod parser;
pub mod parser_laws;
pub mod shell;
pub mod repl;
pub mod builtins;
pub mod completion;
