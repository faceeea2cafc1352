# rshell

An interactive shell whose logic is a Verus-verified library.

- `src/` — the library, verified with Verus:
  - `command_parser.rs`: words with shell quoting, pipeline segments,
    redirections, command lookup and whole pipelines, with the laws of the
    parser (words read back, quoting, segments rejoin, builtins shadow `PATH`).
  - `command.rs`: the parsed command, its text as the job list shows it, and
    which redirections apply to a stream.
  - `builtins/`: the builtin table and each builtin's argument reading and
    outcome (lines written, exit request, action on the outside world).
  - `bg_jobs.rs`: background job numbering, `+`/`-` markers, completion and
    the `jobs` listing.
  - `history.rs`: entries, the numbered listing, and the history file's text.
  - `autocomplete.rs`: command-name, script and file-name completion.
  - `shell_state/`, `completions.rs`: variables, completion scripts and the
    executables of `PATH`, held in `rustc_hash` maps.
  - `session.rs`: what the read loop does after each attempt to read a line.
  - `text.rs`: the string helpers the rest is written with.
- `app/` — the program: terminal (`rustyline`), processes, pipes (`libc`),
  files, the environment, and the parallel `PATH` scan (`rayon`).
- `tests/` — tests of the library on concrete values.
