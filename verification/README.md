# rust_shell

A small interactive Unix shell. The library (`src/`) holds its logic, verified with Verus:

- `text` – trimming, searching, splitting, joining, replacing, decimal text, with specs.
- `vars` – `VarTable`, the name/value table for shell variables and aliases.
- `status` – `CommandStatus`.
- `builtins` – `export`, `alias`, `unalias`, `unset`, `exit`, `cd`, `source`.
- `commands` – reading a command line: comments, quoting, groups, pipelines, aliases,
  argument expansion.
- `session` – `CommandRun`, the decisions while a line runs; the host starts programs,
  changes directory and sources files when asked.
- `sourcing` – `SourceRun`, the decisions of the `source` builtin; the host opens the files
  and reads their lines.
- `ps1` – prompt escapes and `$(...)` substitution (`Ps1Expansion`).
- `prompt` – prompt colors, when to remake the prompt, start-up settings.
- `lineutils` – command-word highlighting.

`app/` is the program: argument parsing, the line editor, processes, files and the
process environment.
