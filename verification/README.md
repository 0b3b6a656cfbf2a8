# bakery_shell

A small interactive shell (builtins `exit`, `echo`, `type`, `pwd`, `cd`,
`complete`; external programs found on `PATH`; quoting and escapes;
output redirection; background jobs; tab completion), with its logic
written as a Verus-verified library.

- `src/` — the verified library:
  - `text.rs`: Unicode whitespace, trimming, prefixes, joining, splitting.
  - `parser.rs`, `parser_laws.rs`: the command-line parser as a state
    machine, and what it guarantees for whole inputs.
  - `repl.rs`: from arguments to a command (redirections, builtins, search
    path, background jobs) and what becomes of a command's output.
  - `shell.rs`: builtin names, errors, registered completions and jobs.
  - `builtins/`: the builtins that compute; those that touch the process
    state are handed back to the caller.
  - `completion.rs`: tab completion as a step-by-step session.
- `app/` — the program: terminal, processes and file system, driving the
  library.
- `tests/` — tests of the library on concrete inputs.
