# winuxsh

A bash-like shell for Windows whose decision-making core is verified with
Verus. Every function in `src/` carries a `requires`/`ensures` contract over
mathematical models (`Seq`, `Map`, `int`, views of the library's types) and
is proved by Verus; `app/` is the thin program around it (terminal, files,
processes).

## Layout

- `src/text.rs` — character-level helpers (trimming, splitting, decimal
  text and parsing) with their specifications.
- `src/builtins/` — option parsing and per-operand decisions of the native
  `cat`, `chmod`, `cp`, `kill`, `mkdir`, `mkfifo`, `pwd`, `rm`, `rmdir` and
  `touch` builtins.
- `src/script.rs`, `src/blocks.rs`, `src/script_utils.rs` — script state,
  variable expansion and the block structure of `if`/`while`/`case`/function
  definitions.
- `src/winpath.rs` — Windows path prefixes (drive, UNC, verbatim, device),
  absoluteness, and joining as `PathBuf::push` does.
- `src/runtime.rs` — path joining, command search plans, aliases, command
  substitution, wildcards, redirection routing and environment lookups.
- `src/config.rs`, `src/prompt.rs`, `src/history.rs` — startup file lines,
  prompt templates and the history file.
- `src/chain.rs` — which command of a line joined by `&&`, `||` and `;`
  runs next, as a step function over a command tree.
- `src/job.rs`, `src/array.rs`, `src/plugin.rs`, `src/executor.rs` — jobs,
  array variables, plugins and how a found program is launched.
- `src/menu.rs`, `src/doctor.rs`, `src/cli.rs`, `src/self_update.rs` — the
  arrow-key menu, the `doctor` report, command-line parsing and self-update.
- `src/games/` — the dino runner and snake, as state machines with their
  frames.
- `app/` — `main`, the REPL loop, the file system and process work.
- `tests/` — executable tests of the library.

Laws of the library are public proof functions named `law_*`.

The interactive loop in `app/` splits a command line on white space: it has
no operator grammar, so `&&`, `||`, `;`, pipes, redirections and quoting are
not understood there, although `src/runtime.rs` holds the verified routing
decisions for redirections and pipelines and `src/chain.rs` the order in
which a tree of `&&`, `||` and `;` runs its commands.
