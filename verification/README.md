# devkit-poe-complete

Shell completion for `poe`, answered by a verified library: `devkit-complete query` reads
the command line a shell shim forwards, resolves the project's poe task table (its own
tasks, `include`d TOML files, `include_script` output), and prints the candidates in a
line-oriented format the PowerShell and bash shims act on.

## Layout

- `src/` — the library, verified with Verus. Each module states its behaviour over
  mathematical models (`Seq`, views of its types) and proves it:
  - `words`: bash's `COMP_LINE`/`COMP_POINT` into words, cursor index and prefix;
  - `parse`: where the task is, which directory `-C` names, whether `--` was passed;
  - `engine`: the completion decision (task names, global options and their values,
    a task's options, choices and positionals); every candidate starts with the prefix;
  - `wire`: the directive as text, one record per item, four columns per record;
  - `format`: the `tasks` and `args` outputs in poe's own formats;
  - `json`, `config`, `resolve`, `resolver`: the configuration tree and the parsing of TOML
    and JSON text into it, argument normalization, and
    the step-by-step resolution of the task table (include walk with a cycle guard,
    `include_script` calls and their output);
  - `cache`: when a stored table may answer; `repair`: which shim files a drifted shim
    rewrites, and which of them are stale; `install`: whether a shim may be written and what
    the PowerShell profile holds after registering; `paths`: what holds of joined paths on
    every platform; `process`: a recording runner; `scripts`: the shims; `cli`: the commands.
- `app/` — the program around it: argument parsing, the disk, processes, the cache file,
  and installation.
- `tests/` — the test suite, run against the compiled library.
