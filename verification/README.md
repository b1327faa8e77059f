# agentrec

`agentrec` records what coding agents change in a repository, turn by turn.
This crate is its verified core, written in Verus: the functions under
`src/` state what they return or change in `requires`/`ensures` contracts
that Verus proves. The wall-clock readings, which may return any value,
carry none.

- `src/` — the library:
  - `text`, `paths`, `strmap`, `doc`: character-sequence helpers, `Path`
    semantics on strings, a string-keyed map, and the JSON/TOML value tree
    (JSON text is read through `serde_json`).
  - `config`: reading `.agentrec/config.toml` (per-key fallback, the
    `mcp_destructive` refusal, the store budget).
  - `fmt`, `record`: the turn renderers, the log records and the questions
    asked of them.
  - `hookcmds`: the Codex hook (payload validation, the scratch store of
    patched paths) and the bracketing hooks of other agents.
  - `daemon`: the recorder's clock, change classification, the watch batch,
    the signal inbox tail, staging, crash recovery and transcript parsing.
  - `importcmd`, `session`: the transcript importer's tier ladder, its
    per-session bookkeeping and turn segmentation, the T2 content gate and
    the synthesised after-state.
  - `initcmd`, `doctorcmd`: the installers' merge and registration plans and
    the health checks.
  - `statuscmd`: the status report's facts built from its raw figures
    (the consumed share clamped, the budget notice chosen, the rich-rate
    window taken) and the report rendered from them.
- `app/` — the command line around the library: argument handling, file
  and process edges.
- `tests/` — tests of the library's public functions.

`strmap::StrMap` is a string-keyed map kept as a list of entries. The
standard `HashMap` is specified in vstd only through its keys' views, and
with a `String` key Verus proves nothing of even a single `insert`, so the
library keeps its string-keyed maps in this list form. Its view is the map
the entries denote, a later entry for a key overriding an earlier one, and
every operation's contract is stated over that view.
