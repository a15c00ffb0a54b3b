# shuaforge_core

The verified core of ShuaForge, a question-bank practice tool: problem
banks, answer checking, practice sessions, tag statistics, the prompts and
local reports of the AI assistant, formula text, the browser bridge of the
userscript, LAN sync packages and the update check.

- `src/` is the library. Every function in it is verified by Verus against
  its `requires`/`ensures`; the few calls into `sha2`, `hex`, `base64`,
  `serde_json`, `rand` and std that it makes are wrapped in small trusted
  functions whose contracts state what those crates document.
- `tests/` exercises the library on concrete banks and inputs.
- `app/` is a small command-line front end: reading and writing bank files
  (JSON through serde, CSV through `csv`), a terminal practice session, the
  local analysis, tag ranking and export.

Verify with `verus` on `src/lib.rs` (crate type `lib`).
