//! The command line as parsed values. Parsing the arguments happens outside
//! the library, which receives these values.
use vstd::prelude::*;

verus! {

/// The global flags and the subcommand.
#[derive(Debug)]
pub struct Cli {
    /// Avoid prompts and fail where a decision would need interaction.
    pub non_interactive: bool,
    /// Print planned operations without mutating files.
    pub dry_run: bool,
    pub command: Command,
}

#[derive(Debug)]
pub enum Command {
    /// Configure ignored local files for this repository.
    Init,
    /// Add a concrete path or discovery glob to the managed set.
    Add { path: String, force: bool },
    /// Materialize configured paths into one or all worktrees.
    Apply { worktree: Option<String> },
    /// Show managed path drift and conflicts.
    Status { json: bool },
    /// Synchronize sync-mode paths.
    Sync { path: Option<String>, worktree: Option<String> },
    /// Change a managed path's mode.
    Mode {
        path: String,
        mode: CliMode,
        sync_policy: Option<CliSyncPolicy>,
        conflict_policy: Option<CliConflictPolicy>,
        choice: Option<CliTransitionChoice>,
    },
    /// Remove state for deleted worktrees.
    Prune,
    /// Preview or remove old backups.
    Gc { force: bool, older_than: Option<String>, keep: Option<usize> },
}

#[derive(Clone, Copy, Debug, PartialEq, Eq, Structural)]
pub enum CliMode {
    Ignore,
    Link,
    Copy,
    Sync,
}

#[derive(Clone, Copy, Debug, PartialEq, Eq, Structural)]
pub enum CliSyncPolicy {
    Manual,
    Auto,
}

#[derive(Clone, Copy, Debug, PartialEq, Eq, Structural)]
pub enum CliConflictPolicy {
    Ask,
    Source,
    Worktree,
    Newer,
}

#[derive(Clone, Copy, Debug, PartialEq, Eq, Structural)]
pub enum CliTransitionChoice {
    Default,
    Source,
    Worktree,
    Skip,
}

} // verus!
