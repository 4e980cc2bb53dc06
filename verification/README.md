# codex_enhanced

Verified core of the Codex Enhanced runtime checks and output handling,
written in Verus. Every function in `src/` carries a contract that Verus
proves, except three small trusted wrappers whose contracts are taken from
the documentation of the function they call: `text::push_char`
(`String::push`), `hook_stream::utf8_lossy` (`String::from_utf8_lossy`) and
`spill::sha256` (`sha2::Sha256::digest`). `app/` is the thin program around
the library (command-line parsing, file system, processes, async streams).

Layout of `src/`:

- `text` — character-sequence helpers: `lines`, `split_inclusive`, trimming,
  decimal and hexadecimal rendering, UTF-8 byte lengths.
- `output` — model-visible command output: ANSI colour removal, coalescing of
  repeated warnings and errors, extraction of key diagnostics within a byte
  budget, and their assembly for failed commands.
- `doctor` — check statuses, issues, checks, and the `doctor` arguments.
- `preflight` — classification of the local execution preflight.
- `runtime` — build provenance, source parity, FNV-1a source fingerprints,
  install-method naming, search provider and search/runtime reports.
- `cleanup` — the two-pass retention run over spilled output, and session
  marker parsing.
- `spill` — names of spill files (SHA-256 of the call id).
- `hook_stream` — bounded head/tail capture of hook output with spilling.
- `hook_command` — hook command lines and the result of each way a run ends.
