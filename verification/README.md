# wk

`wk` keeps selected untracked files (editor settings, local env files, tool
state) consistent across the worktrees of one git repository. Each managed
path has a mode: `link` (a relative symlink to the main worktree), `copy` (a
one-time overlay copy), `sync` (a per-entry three-way sync against the last
clean state), or `ignore`.

## Layout

- `src/` is the library, verified with Verus. It holds the planners: drift
  classification, per-entry sync planning, apply and mode-change planning,
  status rows and exit codes, discovery of candidate paths, configuration
  and state models, and the command decisions. Planners take observations of
  the filesystem as plain values and return operation plans; their contracts
  state which operations a plan holds and in what order, over the results of
  the path and hashing calls they make, and `src/laws.rs` states the
  properties that span several functions.
- `tests/` runs the library on concrete inputs.
- `app/` is the command-line program around the library: argument parsing,
  reading the filesystem and git, executing plans, prompts, locking, and
  serialization of configuration and state.
