# gx

gx pins the GitHub Actions that a repository's workflows use to commit SHAs,
keeps the wanted versions in a manifest (`gx.toml`) and the pins in a lock
file, and rewrites the workflows' `uses:` lines to match.

## Layout

- `src/` is the library, written and proved with Verus. It holds the data
  model (actions, versions, manifests, locks), the lock and manifest file
  formats and the in-place edits of them, the reading and rewriting of
  workflow files, the GitHub response handling and resolution fallback chain,
  the retrying and caching registries, and the shell-check seam. Each public
  function states in its contract what it returns; the laws that span several
  functions (what a saved manifest or lock loads back as, how long a retry
  loop may run, how many responses a resolution needs) are public proof
  functions.
- Calls into `toml_edit`, `regex` and `elsa` stand behind small trusted
  wrappers in `src/toml_doc.rs`, `src/workflow.rs` and `src/caching.rs`; the
  results those crates compute are named by spec functions, and the verified
  code is proved against those names.
- `app/` is the unverified shell around the library: file and network I/O
  (`reqwest`, `glob`, `gix-discover`), serde decoding of TOML, YAML and JSON,
  running `shellcheck`, and waiting between retries.
- `tests/` runs the library on concrete inputs.
