//! Interactive questions. The questions themselves are asked outside the
//! library through `Prompter`; the library decides which ones to ask.
use vstd::prelude::*;

use crate::config::PathConfig;
use crate::domain::{ConflictPolicy, ManagedPath, Mode, SyncPolicy};
use crate::error::WkError;

verus! {

/// The questions `wk` asks while configuring paths.
pub trait Prompter {
    fn select_mode(&self, path: &ManagedPath) -> Result<Mode, WkError>;

    fn select_sync_policy(&self, path: &ManagedPath) -> Result<SyncPolicy, WkError>;

    fn select_conflict_policy(&self, path: &ManagedPath) -> Result<ConflictPolicy, WkError>;

    fn confirm(&self, message: &str, default: bool) -> Result<bool, WkError>;
}

/// The terminal prompter's setting: whether interaction is forbidden.
#[derive(Clone, Copy, Debug, PartialEq, Eq, Structural)]
pub struct CliclackPrompter {
    non_interactive: bool,
}

impl CliclackPrompter {
    pub fn new(non_interactive: bool) -> (p: Self)
        ensures
            p.is_non_interactive() == non_interactive,
    {
        CliclackPrompter { non_interactive }
    }

    pub closed spec fn is_non_interactive(self) -> bool {
        self.non_interactive
    }

    /// A prompter is its flag and nothing else: two prompters with the same
    /// flag are equal, so `new(a) == new(b)` exactly when `a == b`.
    pub proof fn lemma_determined_by_flag(a: Self, b: Self)
        ensures
            a == b <==> a.is_non_interactive() == b.is_non_interactive(),
    {
    }

    /// Every question fails under `--non-interactive`.
    pub fn require_interactive(self) -> (r: Result<(), WkError>)
        ensures
            r is Ok <==> !self.is_non_interactive(),
            r matches Err(e) ==> (e matches WkError::Message(m) && m@
                == "interaction required but --non-interactive was supplied"@),
    {
        if self.non_interactive {
            return Err(
                WkError::message(String::from_str("interaction required but --non-interactive was supplied")),
            );
        }
        Ok(())
    }
}

/// The configuration of a newly managed path from the answers given for it:
/// the sync and conflict policies are kept for `sync` and dropped for every
/// other mode.
pub fn path_config_from_answers(
    path: ManagedPath,
    mode: Mode,
    sync_policy: Option<SyncPolicy>,
    conflict_policy: Option<ConflictPolicy>,
) -> (pc: PathConfig)
    ensures
        pc.path == path,
        pc.mode == mode,
        pc.sync_policy == (if mode == Mode::Sync { sync_policy } else { None::<SyncPolicy> }),
        pc.conflict_policy == (if mode == Mode::Sync { conflict_policy } else { None::<ConflictPolicy> }),
{
    if mode == Mode::Sync {
        PathConfig { path, mode, sync_policy, conflict_policy }
    } else {
        PathConfig { path, mode, sync_policy: None, conflict_policy: None }
    }
}

/// Asks for the mode of a newly managed path, and for its sync and conflict
/// policies only when the mode is `sync`. Every answer, and so whether the
/// call succeeds, comes from the prompter; the result is built from the
/// answers by `path_config_from_answers`.
pub fn prompt_path_config<P: Prompter>(path: ManagedPath, prompter: &P) -> (r: Result<PathConfig, WkError>)
    ensures
        r matches Ok(pc) ==> pc.path.view() == path.view() && (pc.mode == Mode::Sync <==> pc.sync_policy is Some) && (
        pc.mode == Mode::Sync <==> pc.conflict_policy is Some),
{
    let mode = match prompter.select_mode(&path) {
        Ok(m) => m,
        Err(err) => {
            return Err(err);
        },
    };
    if mode == Mode::Sync {
        let sync_policy = match prompter.select_sync_policy(&path) {
            Ok(p) => p,
            Err(err) => {
                return Err(err);
            },
        };
        let conflict_policy = match prompter.select_conflict_policy(&path) {
            Ok(p) => p,
            Err(err) => {
                return Err(err);
            },
        };
        Ok(path_config_from_answers(path, mode, Some(sync_policy), Some(conflict_policy)))
    } else {
        Ok(path_config_from_answers(path, mode, None, None))
    }
}

} // verus!
