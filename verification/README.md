# cargo-x

A small task runner: commands are defined in `~/.x.toml`, `x.toml` files and
`[package.metadata.x]` of `Cargo.toml`, or detected from the project
(cargo, `package.json` scripts, Makefile / justfile / Taskfile targets), and
run through the system shell with `x <COMMAND> [ARGS]...`.

Commands take the forms of the original documentation: a string, a list
of command names, or a table with `cmd` or `seq`, and optionally `desc`,
`env`, `cwd` and `confirm`. The fields `deps`, `cache` and `inputs` are not
supported: a table that has them is rejected as an invalid command. `-w`
runs the command again whenever the project's files change.

## Layout

- `src/` — the library, verified with Verus:
  - `text.rs` — character-level helpers (lines, trimming, search, replace,
    lexicographic order of names);
  - `name_map.rs` — a map from names to values kept in name order;
  - `data.rs` — TOML/JSON documents as plain values, read by the `toml` and
    `serde_json` crates;
  - `config.rs` — command definitions, the rules for reading them from
    tables, files and the manifest, the order of the configuration layers
    (detected commands, `~/.x.toml`, the root `x.toml`, the `x.toml` files
    walked up from the current directory, the manifest), and the laws of
    precedence;
  - `detect.rs` — zero-config detection of commands from project files;
  - `handle.rs` — alias resolution, shell quoting, `{{args}}`
    interpolation, the listing and `--show` output, and the runner that
    decides, step by step, what to execute for a command or a sequence;
  - `shell_words.rs` — how a POSIX shell reads a quoted argument back;
  - `runs.rs` — what a whole run performs, nested sequences included, and
    that every run ends when no sequence reaches itself;
  - `cli.rs` — command-line parsing and completion scripts;
  - `fingerprint.rs` — order-independent fingerprints of file sets;
  - `meta.rs`, `parse.rs` — `cargo locate-project` output and merging of
    flat command tables.
- `app/` — the program: reads files and the environment, runs processes,
  prints, and drives the runner.
- `tests/` — tests of the library.
