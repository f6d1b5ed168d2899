//! The decisions of the commands: which commands mutate, how command-line
//! values map to the library's, which sync runs a command asks for, which
//! configuration a mode change writes, and how durations are read.
use vstd::prelude::*;

use crate::cli::{CliConflictPolicy, CliMode, CliSyncPolicy, CliTransitionChoice, Command};
use crate::config::{configured, mode_in, Config, PathConfig};
use crate::domain::{valid_managed_path, ConflictPolicy, ManagedPath, Mode, SyncPolicy};
use crate::error::WkError;
use crate::git_repo::{RepoContext, WorktreeId};
use crate::materialize::{ApplyTarget, OperationPlan};
use crate::mode_plan::{ModeOptions, TransitionChoice};
use crate::sync_plan::{SyncOptions, SyncSelector};
use crate::pathops::{looks_rooted, trimmed};
use crate::text::{cat, lemma_text_order, text_less, text_less_exec};

verus! {

/// Whether a command changes config, state, backups or managed files, and so
/// needs the mutation lock: init, add and prune always; apply, sync and mode
/// unless dry; gc only when forced and not dry; status never.
pub open spec fn mutates(command: Command, dry_run: bool) -> bool {
    match command {
        Command::Init | Command::Add { .. } | Command::Prune => true,
        Command::Apply { .. } | Command::Sync { .. } | Command::Mode { .. } => !dry_run,
        Command::Gc { force, .. } => force && !dry_run,
        Command::Status { .. } => false,
    }
}

pub fn command_mutates(command: &Command, dry_run: bool) -> (b: bool)
    ensures
        b == mutates(*command, dry_run),
{
    match command {
        Command::Init | Command::Add { .. } | Command::Prune => true,
        Command::Apply { .. } | Command::Sync { .. } | Command::Mode { .. } => !dry_run,
        Command::Gc { force, .. } => *force && !dry_run,
        Command::Status { .. } => false,
    }
}

pub open spec fn mode_of(mode: CliMode) -> Mode {
    match mode {
        CliMode::Ignore => Mode::Ignore,
        CliMode::Link => Mode::Link,
        CliMode::Copy => Mode::Copy,
        CliMode::Sync => Mode::Sync,
    }
}

pub open spec fn sync_policy_of(policy: CliSyncPolicy) -> SyncPolicy {
    match policy {
        CliSyncPolicy::Manual => SyncPolicy::Manual,
        CliSyncPolicy::Auto => SyncPolicy::Auto,
    }
}

pub open spec fn conflict_policy_of(policy: CliConflictPolicy) -> ConflictPolicy {
    match policy {
        CliConflictPolicy::Ask => ConflictPolicy::Ask,
        CliConflictPolicy::Source => ConflictPolicy::Source,
        CliConflictPolicy::Worktree => ConflictPolicy::Worktree,
        CliConflictPolicy::Newer => ConflictPolicy::Newer,
    }
}

pub open spec fn choice_of(choice: CliTransitionChoice) -> TransitionChoice {
    match choice {
        CliTransitionChoice::Default => TransitionChoice::Default,
        CliTransitionChoice::Source => TransitionChoice::SourceWins,
        CliTransitionChoice::Worktree => TransitionChoice::WorktreeWins,
        CliTransitionChoice::Skip => TransitionChoice::Skip,
    }
}

pub fn cli_mode(mode: CliMode) -> (m: Mode)
    ensures
        m == mode_of(mode),
{
    match mode {
        CliMode::Ignore => Mode::Ignore,
        CliMode::Link => Mode::Link,
        CliMode::Copy => Mode::Copy,
        CliMode::Sync => Mode::Sync,
    }
}

pub fn cli_sync_policy(policy: CliSyncPolicy) -> (p: SyncPolicy)
    ensures
        p == sync_policy_of(policy),
{
    match policy {
        CliSyncPolicy::Manual => SyncPolicy::Manual,
        CliSyncPolicy::Auto => SyncPolicy::Auto,
    }
}

pub fn cli_conflict_policy(policy: CliConflictPolicy) -> (p: ConflictPolicy)
    ensures
        p == conflict_policy_of(policy),
{
    match policy {
        CliConflictPolicy::Ask => ConflictPolicy::Ask,
        CliConflictPolicy::Source => ConflictPolicy::Source,
        CliConflictPolicy::Worktree => ConflictPolicy::Worktree,
        CliConflictPolicy::Newer => ConflictPolicy::Newer,
    }
}

pub fn cli_transition_choice(choice: CliTransitionChoice) -> (c: TransitionChoice)
    ensures
        c == choice_of(choice),
{
    match choice {
        CliTransitionChoice::Default => TransitionChoice::Default,
        CliTransitionChoice::Source => TransitionChoice::SourceWins,
        CliTransitionChoice::Worktree => TransitionChoice::WorktreeWins,
        CliTransitionChoice::Skip => TransitionChoice::Skip,
    }
}

/// The options of `wk mode` as given on the command line.
#[derive(Clone, Copy, Debug, PartialEq, Eq, Structural)]
pub struct ModeCommandOptions {
    pub sync_policy: Option<CliSyncPolicy>,
    pub conflict_policy: Option<CliConflictPolicy>,
    pub choice: Option<CliTransitionChoice>,
    pub dry_run: bool,
}

/// The planner options of `wk mode`: the given choice, `default` when none.
pub fn mode_options(options: ModeCommandOptions) -> (o: ModeOptions)
    ensures
        o.dry_run == options.dry_run,
        o.choice == match options.choice {
            Some(c) => choice_of(c),
            None => TransitionChoice::Default,
        },
{
    ModeOptions {
        dry_run: options.dry_run,
        choice: match options.choice {
            Some(c) => cli_transition_choice(c),
            None => TransitionChoice::Default,
        },
    }
}

/// The conflict policy `wk mode` records, and whether it is the unsafe one
/// that is warned about.
pub fn mode_conflict_policy(options: ModeCommandOptions) -> (r: (Option<ConflictPolicy>, bool))
    ensures
        r.0 == match options.conflict_policy {
            Some(p) => Some(conflict_policy_of(p)),
            None => None,
        },
        r.1 <==> r.0 == Some(ConflictPolicy::Newer),
{
    let policy = match options.conflict_policy {
        Some(p) => Some(cli_conflict_policy(p)),
        None => None,
    };
    let warn = match policy {
        Some(p) => p.requires_warning(),
        None => false,
    };
    (policy, warn)
}

/// A mode change is recorded in the configuration unless it is a change from
/// `sync` to `link` whose plan touched neither files nor state (every
/// worktree was skipped).
pub fn should_update_config(config: &Config, path: &ManagedPath, target: Mode, plan: &OperationPlan) -> (b: bool)
    ensures
        b == !(mode_in(config.paths@, path.view()) == Mode::Sync && target == Mode::Link && plan.fs_ops@.len() == 0
            && plan.state_updates@.len() == 0),
{
    let current = config.current_mode(path);
    !(current == Mode::Sync && target == Mode::Link && plan.fs_ops.len() == 0 && plan.state_updates.len() == 0)
}

/// The worktree a selector names: the identity of the non-source worktree
/// whose identity or path equals it.
pub fn resolve_worktree(ctx: &RepoContext, raw: &str) -> (r: Result<WorktreeId, WkError>)
    ensures
        r is Ok <==> exists|i: int| 0 <= i < ctx.worktrees@.len() && !(#[trigger] ctx.worktrees@[i]).is_source && (
        ctx.worktrees@[i].id.view() == raw@ || ctx.worktrees@[i].path@ == raw@),
        r matches Ok(id) ==> exists|i: int| 0 <= i < ctx.worktrees@.len() && !(#[trigger] ctx.worktrees@[i]).is_source
            && (ctx.worktrees@[i].id.view() == raw@ || ctx.worktrees@[i].path@ == raw@) && id.view()
            == ctx.worktrees@[i].id.view(),
        r matches Err(e) ==> (e matches WkError::Message(m) && m@ == "unknown worktree: "@ + raw@),
{
    match ctx.find_worktree(raw) {
        Some(w) => Ok(w.id.clone()),
        None => Err(WkError::message(cat("unknown worktree: ", raw))),
    }
}

/// Which worktrees `wk apply` targets: all without a selector, otherwise the
/// one the selector names.
pub fn apply_target(ctx: &RepoContext, worktree: Option<&str>) -> (r: Result<ApplyTarget, WkError>)
    ensures
        worktree is None ==> r matches Ok(ApplyTarget::All),
        worktree matches Some(raw) ==> (r is Ok <==> exists|i: int| 0 <= i < ctx.worktrees@.len()
            && !(#[trigger] ctx.worktrees@[i]).is_source && (ctx.worktrees@[i].id.view() == raw@
            || ctx.worktrees@[i].path@ == raw@)),
        worktree matches Some(raw) ==> (r matches Ok(t) ==> t matches ApplyTarget::Worktree(id) && exists|i: int|
            0 <= i < ctx.worktrees@.len() && !(#[trigger] ctx.worktrees@[i]).is_source && (ctx.worktrees@[i].id.view()
            == raw@ || ctx.worktrees@[i].path@ == raw@) && id.view() == ctx.worktrees@[i].id.view()),
        worktree matches Some(raw) ==> (r matches Err(e) ==> (e matches WkError::Message(m) && m@ == "unknown worktree: "@
            + raw@)),
{
    match worktree {
        None => Ok(ApplyTarget::All),
        Some(raw) => match resolve_worktree(ctx, raw) {
            Ok(id) => Ok(ApplyTarget::Worktree(id)),
            Err(err) => Err(err),
        },
    }
}

/// What `wk sync` was asked to cover.
#[derive(Debug)]
pub enum SyncScope {
    All,
    Path(ManagedPath),
    Worktree(WorktreeId),
    PathAndWorktree(ManagedPath, WorktreeId),
}

/// The selector `raw` names a non-source worktree, by identity or by path,
/// whose identity is `id`.
pub open spec fn names_worktree(ctx: RepoContext, raw: Seq<char>, id: Seq<char>) -> bool {
    exists|i: int|
        0 <= i < ctx.worktrees@.len() && !(#[trigger] ctx.worktrees@[i]).is_source && (ctx.worktrees@[i].id.view()
            == raw || ctx.worktrees@[i].path@ == raw) && id == ctx.worktrees@[i].id.view()
}

/// The selector `raw` names some non-source worktree.
pub open spec fn worktree_known(ctx: RepoContext, raw: Seq<char>) -> bool {
    exists|i: int|
        0 <= i < ctx.worktrees@.len() && !(#[trigger] ctx.worktrees@[i]).is_source && (ctx.worktrees@[i].id.view()
            == raw || ctx.worktrees@[i].path@ == raw)
}

/// A path argument that reads as a managed path on every platform.
pub open spec fn clear_path(raw: Seq<char>) -> bool {
    valid_managed_path(trimmed(raw)) && !looks_rooted(trimmed(raw))
}

/// Reads the optional path and worktree arguments of `wk sync`. A lone
/// argument is a path when the configuration has it, and otherwise a
/// worktree.
pub fn sync_scope(ctx: &RepoContext, config: &Config, path: Option<&str>, worktree: Option<&str>) -> (r: Result<
    SyncScope,
    WkError,
>)
    ensures
        match (path, worktree) {
            (None, None) => r matches Ok(SyncScope::All),
            (None, Some(w)) => {
                &&& (r is Ok <==> worktree_known(*ctx, w@))
                &&& r matches Ok(sc) ==> (sc matches SyncScope::Worktree(id) && names_worktree(*ctx, w@, id.view()))
            },
            (Some(raw), None) => {
                &&& r is Ok ==> valid_managed_path(trimmed(raw@))
                &&& clear_path(raw@) && configured(config.paths@, trimmed(raw@)) ==> (r matches Ok(SyncScope::Path(p))
                    && p.view() == trimmed(raw@))
                &&& clear_path(raw@) && !configured(config.paths@, trimmed(raw@)) ==> (r is Ok <==> worktree_known(
                    *ctx,
                    raw@,
                ))
                &&& r matches Ok(sc) ==> match sc {
                    SyncScope::Path(p) => p.view() == trimmed(raw@) && configured(config.paths@, p.view()),
                    SyncScope::Worktree(id) => !configured(config.paths@, trimmed(raw@)) && names_worktree(
                        *ctx,
                        raw@,
                        id.view(),
                    ),
                    _ => false,
                }
            },
            (Some(raw), Some(w)) => {
                &&& r is Ok ==> valid_managed_path(trimmed(raw@)) && worktree_known(*ctx, w@)
                &&& clear_path(raw@) && worktree_known(*ctx, w@) ==> r is Ok
                &&& r matches Ok(sc) ==> (sc matches SyncScope::PathAndWorktree(p, id) && p.view() == trimmed(raw@)
                    && names_worktree(*ctx, w@, id.view()))
            },
        },
{
    match (path, worktree) {
        (None, None) => Ok(SyncScope::All),
        (Some(raw), None) => {
            let managed = match ManagedPath::parse(raw) {
                Ok(p) => p,
                Err(err) => {
                    return Err(err);
                },
            };
            if config.has_path(&managed) {
                return Ok(SyncScope::Path(managed));
            }
            match resolve_worktree(ctx, raw) {
                Ok(id) => Ok(SyncScope::Worktree(id)),
                Err(err) => Err(err),
            }
        },
        (Some(raw_path), Some(raw_worktree)) => {
            let managed = match ManagedPath::parse(raw_path) {
                Ok(p) => p,
                Err(err) => {
                    return Err(err);
                },
            };
            match resolve_worktree(ctx, raw_worktree) {
                Ok(id) => Ok(SyncScope::PathAndWorktree(managed, id)),
                Err(err) => Err(err),
            }
        },
        (None, Some(raw_worktree)) => match resolve_worktree(ctx, raw_worktree) {
            Ok(id) => Ok(SyncScope::Worktree(id)),
            Err(err) => Err(err),
        },
    }
}

/// One run of the sync planner: what it selects and with which options.
#[derive(Debug)]
pub struct SyncRequest {
    pub selector: SyncSelector,
    pub options: SyncOptions,
}

/// The options a path is synced with: its effective policies.
pub open spec fn options_for(config: Config, pc: PathConfig, dry_run: bool) -> SyncOptions {
    SyncOptions {
        policy: match pc.sync_policy {
            Some(x) => x,
            None => config.default_sync_policy,
        },
        conflict_policy: match pc.conflict_policy {
            Some(x) => x,
            None => config.default_conflict_policy,
        },
        dry_run,
    }
}

/// The selector of one path, restricted to worktree `wt` when given.
pub open spec fn selects(sel: SyncSelector, p: Seq<char>, wt: Option<Seq<char>>) -> bool {
    match wt {
        None => sel matches SyncSelector::Path(q) && q.view() == p,
        Some(w) => sel matches SyncSelector::PathAndWorktree(q, id) && q.view() == p && id.view() == w,
    }
}

/// The positions of the entries of `paths` that `keep` admits, in order.
pub open spec fn positions_where(paths: Seq<PathConfig>, keep: spec_fn(PathConfig) -> bool) -> Seq<int>
    decreases paths.len(),
{
    if paths.len() == 0 {
        Seq::empty()
    } else {
        positions_where(paths.drop_last(), keep) + if keep(paths.last()) {
            seq![paths.len() - 1]
        } else {
            Seq::empty()
        }
    }
}

/// The requests covering a list of path positions, restricted to `wt`.
pub open spec fn requests_ok(
    reqs: Seq<SyncRequest>,
    config: Config,
    positions: Seq<int>,
    wt: Option<Seq<char>>,
    dry_run: bool,
    policy: Option<SyncPolicy>,
) -> bool {
    &&& reqs.len() == positions.len()
    &&& forall|i: int| 0 <= i < reqs.len() ==> {
        let pc = config.paths@[positions[i]];
        let opts = options_for(config, pc, dry_run);
        &&& selects((#[trigger] reqs[i]).selector, pc.path.view(), wt)
        &&& reqs[i].options == match policy {
            Some(p) => SyncOptions { policy: p, ..opts },
            None => opts,
        }
    }
}

pub open spec fn is_sync_path(pc: PathConfig) -> bool {
    pc.mode == Mode::Sync
}

fn scoped_selector(path: &ManagedPath, worktree: Option<&WorktreeId>) -> (sel: SyncSelector)
    ensures
        selects(sel, path.view(), match worktree {
            Some(id) => Some(id.view()),
            None => None,
        }),
{
    match worktree {
        None => SyncSelector::Path(path.clone()),
        Some(id) => SyncSelector::PathAndWorktree(path.clone(), id.clone()),
    }
}

/// The requests for every path `keep` admits, restricted to `worktree`; with
/// `policy`, every request runs under that sync policy.
fn requests_where(
    config: &Config,
    Ghost(keep): Ghost<spec_fn(PathConfig) -> bool>,
    auto_only: bool,
    worktree: Option<&WorktreeId>,
    dry_run: bool,
    policy: Option<SyncPolicy>,
) -> (reqs: Vec<SyncRequest>)
    requires
        forall|pc: PathConfig| #[trigger] keep(pc) == (pc.mode == Mode::Sync && (auto_only ==> match pc.sync_policy {
            Some(x) => x,
            None => config.default_sync_policy,
        } == SyncPolicy::Auto)),
    ensures
        requests_ok(reqs@, *config, positions_where(config.paths@, keep), match worktree {
            Some(id) => Some(id.view()),
            None => None,
        }, dry_run, policy),
{
    let ghost wt = match worktree {
        Some(id) => Some(id.view()),
        None => None,
    };
    let mut reqs: Vec<SyncRequest> = Vec::new();
    let mut i: usize = 0;
    while i < config.paths.len()
        invariant
            i <= config.paths@.len(),
            forall|pc: PathConfig| #[trigger] keep(pc) == (pc.mode == Mode::Sync && (auto_only ==> match pc.sync_policy {
                Some(x) => x,
                None => config.default_sync_policy,
            } == SyncPolicy::Auto)),
            wt == match worktree {
                Some(id) => Some(id.view()),
                None => None,
            },
            requests_ok(reqs@, *config, positions_where(config.paths@.take(i as int), keep), wt, dry_run, policy),
            forall|j: int| 0 <= j < positions_where(config.paths@.take(i as int), keep).len() ==> 0 <= #[trigger] positions_where(
                config.paths@.take(i as int),
                keep,
            )[j] < i,
        decreases config.paths@.len() - i,
    {
        let pc = &config.paths[i];
        let ghost before = reqs@;
        let ghost prev = positions_where(config.paths@.take(i as int), keep);
        proof {
            assert(config.paths@.take(i as int + 1).drop_last() =~= config.paths@.take(i as int));
            assert(config.paths@.take(i as int + 1).last() == config.paths@[i as int]);
        }
        let effective = crate::config::effective_sync_policy(config, pc);
        if pc.mode == Mode::Sync && (!auto_only || effective == SyncPolicy::Auto) {
            let base = SyncOptions {
                policy: effective,
                conflict_policy: crate::config::effective_conflict_policy(config, pc),
                dry_run,
            };
            let options = match policy {
                Some(p) => SyncOptions { policy: p, ..base },
                None => base,
            };
            reqs.push(SyncRequest { selector: scoped_selector(&pc.path, worktree), options });
            proof {
                let next = positions_where(config.paths@.take(i as int + 1), keep);
                assert(next =~= prev.push(i as int));
                assert forall|j: int| 0 <= j < reqs@.len() implies {
                    let pcj = config.paths@[next[j]];
                    let opts = options_for(*config, pcj, dry_run);
                    &&& selects((#[trigger] reqs@[j]).selector, pcj.path.view(), wt)
                    &&& reqs@[j].options == match policy {
                        Some(p) => SyncOptions { policy: p, ..opts },
                        None => opts,
                    }
                } by {
                    if j < before.len() {
                        assert(reqs@[j] == before[j]);
                        assert(next[j] == prev[j]);
                    }
                }
            }
        } else {
            proof {
                assert(positions_where(config.paths@.take(i as int + 1), keep) =~= prev);
            }
        }
        i = i + 1;
    }
    proof {
        assert(config.paths@.take(config.paths@.len() as int) =~= config.paths@);
    }
    reqs
}

/// The first entry configured for `path`.
pub fn find_path_config<'a>(config: &'a Config, path: &ManagedPath) -> (r: Option<&'a PathConfig>)
    ensures
        r is None <==> !configured(config.paths@, path.view()),
        r matches Some(pc) ==> exists|i: int| 0 <= i < config.paths@.len() && config.paths@[i] == *pc && (
        #[trigger] config.paths@[i]).path.view() == path.view() && forall|j: int| 0 <= j < i ==> config.paths@[j].path.view()
            != path.view(),
{
    let mut i: usize = 0;
    while i < config.paths.len()
        invariant
            i <= config.paths@.len(),
            forall|j: int| 0 <= j < i ==> config.paths@[j].path.view() != path.view(),
        decreases config.paths@.len() - i,
    {
        if config.paths[i].path.same_as(path) {
            return Some(&config.paths[i]);
        }
        i = i + 1;
    }
    None
}

/// The sync runs `wk sync` makes for its scope: every sync-mode path (in
/// configuration order, restricted to the worktree when one is given), or the
/// one configured path asked for, each with its effective policies.
pub fn sync_requests(config: &Config, scope: &SyncScope, dry_run: bool) -> (r: Result<Vec<SyncRequest>, WkError>)
    ensures
        scope is All ==> (r matches Ok(reqs) && requests_ok(
            reqs@,
            *config,
            positions_where(config.paths@, |pc: PathConfig| is_sync_path(pc)),
            None,
            dry_run,
            None,
        )),
        scope matches SyncScope::Worktree(id) ==> (r matches Ok(reqs) && requests_ok(
            reqs@,
            *config,
            positions_where(config.paths@, |pc: PathConfig| is_sync_path(pc)),
            Some(id.view()),
            dry_run,
            None,
        )),
        scope matches SyncScope::Path(p) ==> (r is Ok <==> configured(config.paths@, p.view())),
        scope matches SyncScope::PathAndWorktree(p, _) ==> (r is Ok <==> configured(config.paths@, p.view())),
        r matches Ok(reqs) ==> (scope matches SyncScope::Path(p) ==> exists|i: int|
            0 <= i < config.paths@.len() && (#[trigger] config.paths@[i]).path.view() == p.view() && (forall|j: int|
                0 <= j < i ==> config.paths@[j].path.view() != p.view()) && requests_ok(
                reqs@,
                *config,
                seq![i],
                None,
                dry_run,
                None,
            )),
        r matches Ok(reqs) ==> (scope matches SyncScope::PathAndWorktree(p, id) ==> exists|i: int|
            0 <= i < config.paths@.len() && (#[trigger] config.paths@[i]).path.view() == p.view() && (forall|j: int|
                0 <= j < i ==> config.paths@[j].path.view() != p.view()) && requests_ok(
                reqs@,
                *config,
                seq![i],
                Some(id.view()),
                dry_run,
                None,
            )),
{
    let ghost keep = |pc: PathConfig| is_sync_path(pc);
    match scope {
        SyncScope::All => Ok(requests_where(config, Ghost(keep), false, None, dry_run, None)),
        SyncScope::Worktree(id) => Ok(requests_where(config, Ghost(keep), false, Some(id), dry_run, None)),
        SyncScope::Path(p) | SyncScope::PathAndWorktree(p, _) => {
            let pc = match find_path_config(config, p) {
                Some(pc) => pc,
                None => {
                    return Err(WkError::message(cat("path is not configured: ", p.as_str())));
                },
            };
            let worktree = match scope {
                SyncScope::PathAndWorktree(_, id) => Some(id),
                _ => None,
            };
            let options = SyncOptions {
                policy: crate::config::effective_sync_policy(config, pc),
                conflict_policy: crate::config::effective_conflict_policy(config, pc),
                dry_run,
            };
            let mut reqs: Vec<SyncRequest> = Vec::new();
            reqs.push(SyncRequest { selector: scoped_selector(p, worktree), options });
            Ok(reqs)
        },
    }
}

/// The sync runs `wk apply` makes after materializing: every sync-mode path
/// whose effective policy is automatic, restricted to the targeted worktree,
/// under the automatic policy.
pub fn auto_sync_requests(config: &Config, target: &ApplyTarget, dry_run: bool) -> (reqs: Vec<SyncRequest>)
    ensures
        requests_ok(
            reqs@,
            *config,
            positions_where(
                config.paths@,
                |pc: PathConfig|
                    pc.mode == Mode::Sync && match pc.sync_policy {
                        Some(x) => x,
                        None => config.default_sync_policy,
                    } == SyncPolicy::Auto,
            ),
            match target {
                ApplyTarget::All => None,
                ApplyTarget::Worktree(id) => Some(id.view()),
            },
            dry_run,
            Some(SyncPolicy::Auto),
        ),
{
    let ghost default_policy = config.default_sync_policy;
    let ghost keep = |pc: PathConfig|
        pc.mode == Mode::Sync && match pc.sync_policy {
            Some(x) => x,
            None => default_policy,
        } == SyncPolicy::Auto;
    let worktree = match target {
        ApplyTarget::All => None,
        ApplyTarget::Worktree(id) => Some(id),
    };
    requests_where(config, Ghost(keep), true, worktree, dry_run, Some(SyncPolicy::Auto))
}


/// The value of a string of decimal digits.
pub open spec fn digits_value(s: Seq<char>) -> int
    decreases s.len(),
{
    if s.len() == 0 {
        0
    } else {
        digits_value(s.drop_last()) * 10 + (s.last() as int - '0' as int)
    }
}

pub open spec fn all_digits(s: Seq<char>) -> bool {
    forall|i: int| 0 <= i < s.len() ==> '0' <= #[trigger] s[i] <= '9'
}

/// What `u64::from_str` accepts, as its documentation states: an optional
/// `+` followed by at least one decimal digit, with a value that fits.
pub open spec fn u64_text_value(s: Seq<char>) -> Option<u64> {
    let body = if s.len() > 0 && s[0] == '+' {
        s.drop_first()
    } else {
        s
    };
    if body.len() > 0 && all_digits(body) && digits_value(body) <= u64::MAX {
        Some(digits_value(body) as u64)
    } else {
        None
    }
}

/// Calls `str::parse::<u64>`; an error carries the text of std's error.
#[verifier::external_body]
fn parse_u64(s: &str) -> (r: Result<u64, String>)
    ensures
        r matches Ok(n) ==> u64_text_value(s@) == Some(n),
        r is Err ==> u64_text_value(s@) is None,
{
    match s.parse::<u64>() {
        Ok(n) => Ok(n),
        Err(e) => Err(e.to_string()),
    }
}

/// The seconds of one unit of a duration suffix.
pub open spec fn unit_seconds(c: char) -> Option<u64> {
    if c == 's' {
        Some(1)
    } else if c == 'm' {
        Some(60)
    } else if c == 'h' {
        Some(3600)
    } else if c == 'd' {
        Some(86400)
    } else {
        None
    }
}

/// The seconds a retention duration such as `30d` stands for: an amount and
/// one of the units `s`, `m`, `h`, `d`; `None` when it is malformed or too
/// large for `u64`.
pub open spec fn duration_seconds(raw: Seq<char>) -> Option<int> {
    if raw.len() == 0 {
        None
    } else {
        match u64_text_value(raw.drop_last()) {
            None => None,
            Some(amount) => match unit_seconds(raw.last()) {
                None => None,
                Some(unit) => if amount * unit <= u64::MAX {
                    Some(amount * unit)
                } else {
                    None
                },
            },
        }
    }
}

/// Reads a retention duration such as `30d` as seconds.
pub fn parse_duration(raw: &str) -> (r: Result<u64, WkError>)
    requires
        raw@.len() == 0 || (raw@.last() as u32) < 128,
    ensures
        r matches Ok(secs) ==> duration_seconds(raw@) == Some(secs as int),
        r is Err <==> duration_seconds(raw@) is None,
{
    let n = raw.unicode_len();
    if n == 0 {
        return match parse_u64(raw) {
            Ok(_) => Err(WkError::message(cat("unsupported duration: ", raw))),
            Err(e) => Err(WkError::message(e)),
        };
    }
    let amount_text = raw.substring_char(0, n - 1);
    let unit = raw.get_char(n - 1);
    proof {
        assert(amount_text@ =~= raw@.drop_last());
    }
    let amount = match parse_u64(amount_text) {
        Ok(a) => a,
        Err(e) => {
            return Err(WkError::message(e));
        },
    };
    let seconds: u64 = if unit == 's' {
        1
    } else if unit == 'm' {
        60
    } else if unit == 'h' {
        3600
    } else if unit == 'd' {
        86400
    } else {
        return Err(WkError::message(cat("unsupported duration: ", raw)));
    };
    match amount.checked_mul(seconds) {
        Some(total) => Ok(total),
        None => Err(WkError::message(cat("duration is too large: ", raw))),
    }
}

/// The state directories whose worktree identity is no longer a live
/// non-source worktree.
pub open spec fn is_live(ctx: RepoContext, name: Seq<char>) -> bool {
    exists|i: int| 0 <= i < ctx.worktrees@.len() && !(#[trigger] ctx.worktrees@[i]).is_source
        && ctx.worktrees@[i].id.view() == name
}

pub open spec fn stale_names(ctx: RepoContext, names: Seq<String>) -> Seq<Seq<char>>
    decreases names.len(),
{
    if names.len() == 0 {
        Seq::empty()
    } else {
        stale_names(ctx, names.drop_last()) + if is_live(ctx, names.last()@) {
            Seq::empty()
        } else {
            seq![names.last()@]
        }
    }
}

/// Keeps, in order, the state directory names that `wk prune` removes.
pub fn stale_state_dirs(ctx: &RepoContext, names: &Vec<String>) -> (stale: Vec<String>)
    ensures
        crate::text::views(stale@) == stale_names(*ctx, names@),
{
    let mut stale: Vec<String> = Vec::new();
    let mut i: usize = 0;
    while i < names.len()
        invariant
            i <= names@.len(),
            crate::text::views(stale@) == stale_names(*ctx, names@.take(i as int)),
        decreases names@.len() - i,
    {
        proof {
            assert(names@.take(i as int + 1).drop_last() =~= names@.take(i as int));
        }
        let ghost before = stale@;
        let live_id = is_live_id(ctx, names[i].as_str());
        if !live_id {
            stale.push(names[i].clone());
        }
        proof {
            assert(crate::text::views(stale@) =~= stale_names(*ctx, names@.take(i as int + 1)));
        }
        i = i + 1;
    }
    proof {
        assert(names@.take(names@.len() as int) =~= names@);
    }
    stale
}

fn is_live_id(ctx: &RepoContext, name: &str) -> (b: bool)
    ensures
        b == is_live(*ctx, name@),
{
    let mut i: usize = 0;
    while i < ctx.worktrees.len()
        invariant
            i <= ctx.worktrees@.len(),
            forall|j: int| 0 <= j < i ==> !(!(#[trigger] ctx.worktrees@[j]).is_source && ctx.worktrees@[j].id.view() == name@),
        decreases ctx.worktrees@.len() - i,
    {
        if !ctx.worktrees[i].is_source && crate::text::str_eq(ctx.worktrees[i].id.as_str(), name) {
            return true;
        }
        i = i + 1;
    }
    false
}


/// `s[a..b]` is a whole line of `s`: it starts at the beginning or after a
/// newline, ends at the end or at a newline, and holds no newline.
pub open spec fn is_line(s: Seq<char>, a: int, b: int) -> bool {
    &&& 0 <= a <= b <= s.len()
    &&& (a == 0 || s[a - 1] == '\n')
    &&& (b == s.len() || s[b] == '\n')
    &&& forall|k: int| a <= k < b ==> s[k] != '\n'
}

/// Some line of `s`, trimmed, is `.wk/`.
pub open spec fn ignores_control_dir(s: Seq<char>) -> bool {
    exists|a: int, b: int| #[trigger] is_line(s, a, b) && trimmed(s.subrange(a, b)) == ".wk/"@
}

/// The `.gitignore` text with `.wk/` ignored: unchanged (`None`) when a line
/// already is `.wk/`, otherwise the text ended by a newline (added where it is
/// missing) followed by `.wk/` and a newline.
pub fn with_control_dir_ignore(existing: &str) -> (r: Option<String>)
    ensures
        r is None <==> ignores_control_dir(existing@),
        r matches Some(next) ==> next@ == existing@ + (if existing@.len() > 0 && existing@.last() != '\n' {
            "\n"@
        } else {
            Seq::empty()
        }) + ".wk/\n"@,
{
    let n = existing.unicode_len();
    let ghost s = existing@;
    let mut start: usize = 0;
    let mut i: usize = 0;
    let mut found = false;
    while i < n
        invariant
            n == s.len(),
            s == existing@,
            start <= i <= n,
            start == 0 || s[start - 1] == '\n',
            forall|k: int| start <= k < i ==> s[k] != '\n',
            found ==> ignores_control_dir(s),
            !found ==> forall|a: int, b: int| #[trigger] is_line(s, a, b) && b < start ==> trimmed(s.subrange(a, b))
                != ".wk/"@,
        decreases n - i,
    {
        let c = existing.get_char(i);
        if c == '\n' {
            let line = existing.substring_char(start, i);
            let t = crate::pathops::trim_str(line);
            if crate::text::str_eq(t.as_str(), ".wk/") {
                proof {
                    reveal_strlit(".wk/");
                    assert(is_line(s, start as int, i as int));
                }
                found = true;
            }
            proof {
                if !found {
                    assert forall|a: int, b: int| #[trigger] is_line(s, a, b) && b < i + 1 implies trimmed(s.subrange(a, b))
                        != ".wk/"@ by {
                        if b >= start {
                            if a < start {
                                assert(s[start - 1] == '\n');
                            }
                            if a > start {
                                assert(s[a - 1] == '\n');
                            }
                            assert(a == start);
                            if b < i {
                                assert(s[b] == '\n');
                            }
                            assert(b == i);
                            reveal_strlit(".wk/");
                        }
                    }
                }
            }
            start = i + 1;
        }
        i = i + 1;
    }
    if !found {
        let line = existing.substring_char(start, n);
        let t = crate::pathops::trim_str(line);
        if crate::text::str_eq(t.as_str(), ".wk/") {
            proof {
                reveal_strlit(".wk/");
                assert(is_line(s, start as int, n as int));
            }
            found = true;
        } else {
            proof {
                reveal_strlit(".wk/");
                assert forall|a: int, b: int| #[trigger] is_line(s, a, b) implies trimmed(s.subrange(a, b)) != ".wk/"@ by {
                    if b >= start {
                        if a < start {
                            assert(s[start - 1] == '\n');
                        }
                        if a > start {
                            assert(s[a - 1] == '\n');
                        }
                        if b < n {
                            assert(s[b] == '\n');
                        }
                    }
                }
            }
        }
    }
    if found {
        return None;
    }
    let mut next = existing.to_owned();
    if n > 0 && existing.get_char(n - 1) != '\n' {
        next.append("\n");
    }
    next.append(".wk/\n");
    Some(next)
}


/// A backup unit under `<control dir>/backups`: its path and when it was
/// last modified, in nanoseconds relative to the epoch.
#[derive(Debug)]
pub struct BackupCandidate {
    pub path: String,
    pub modified: i128,
}

/// A backup is old once it was last modified at or before the cutoff.
pub open spec fn is_old(c: BackupCandidate, cutoff: i128) -> bool {
    c.modified <= cutoff
}

/// Newer backups come first; among equally old ones, the greater path.
pub open spec fn goes_before(a: BackupCandidate, b: BackupCandidate) -> bool {
    a.modified > b.modified || (a.modified == b.modified && text_less(b.path@, a.path@))
}

pub open spec fn newest_first(s: Seq<BackupCandidate>) -> bool {
    forall|i: int, j: int| 0 <= i < j < s.len() ==> !goes_before(#[trigger] s[j], #[trigger] s[i])
}

proof fn lemma_goes_before_transitive(a: BackupCandidate, b: BackupCandidate, c: BackupCandidate)
    requires
        goes_before(a, b),
        goes_before(b, c),
    ensures
        goes_before(a, c),
{
    lemma_text_order(c.path@, b.path@, a.path@);
}

fn goes_before_exec(a: &BackupCandidate, b: &BackupCandidate) -> (r: bool)
    ensures
        r == goes_before(*a, *b),
{
    a.modified > b.modified || (a.modified == b.modified && text_less_exec(b.path.as_str(), a.path.as_str()))
}

/// What `wk gc` removes: the old backups, newest first, except the `keep`
/// newest of them.
pub fn backups_to_remove(candidates: Vec<BackupCandidate>, cutoff: i128, keep: usize) -> (r: Vec<BackupCandidate>)
    ensures
        exists|ordered: Seq<BackupCandidate>|
            {
                &&& newest_first(ordered)
                &&& ordered.to_multiset() == candidates@.filter(|c: BackupCandidate| is_old(c, cutoff)).to_multiset()
                &&& r@ == if keep >= ordered.len() {
                    Seq::<BackupCandidate>::empty()
                } else {
                    ordered.skip(keep as int)
                }
            },
{
    let ghost pred = |c: BackupCandidate| is_old(c, cutoff);
    let ghost all = candidates@;
    let n = candidates.len();
    let mut rest = candidates;
    let mut old: Vec<BackupCandidate> = Vec::new();
    let mut taken: usize = 0;
    proof {
        reveal(Seq::filter);
        assert(all.take(0) =~= Seq::<BackupCandidate>::empty());
        assert(all.skip(0) =~= all);
    }
    while rest.len() > 0
        invariant
            n == all.len(),
            taken <= all.len(),
            rest@ == all.skip(taken as int),
            old@ == all.take(taken as int).filter(pred),
            pred == (|c: BackupCandidate| is_old(c, cutoff)),
        decreases rest@.len(),
    {
        let c = rest.remove(0);
        proof {
            reveal(Seq::filter);
            assert(c == all[taken as int]);
            assert(rest@ =~= all.skip(taken as int + 1));
            assert(all.take(taken as int + 1).drop_last() =~= all.take(taken as int));
            assert(all.take(taken as int + 1).last() == c);
        }
        if c.modified <= cutoff {
            old.push(c);
        }
        taken = taken + 1;
    }
    proof {
        assert(all.take(taken as int) =~= all);
    }
    let ghost olds = old@;
    let mut pending = old;
    let mut ordered: Vec<BackupCandidate> = Vec::new();
    proof {
        broadcast use vstd::multiset::group_multiset_axioms;

        vstd::seq_lib::to_multiset_len(ordered@);
        vstd::multiset::lemma_multiset_empty_len(ordered@.to_multiset());
        assert(ordered@.to_multiset().add(pending@.to_multiset()) =~= olds.to_multiset());
    }
    while pending.len() > 0
        invariant
            newest_first(ordered@),
            ordered@.to_multiset().add(pending@.to_multiset()) == olds.to_multiset(),
        decreases pending@.len(),
    {
        let ghost pending0 = pending@;
        let c = pending.remove(0);
        let mut k: usize = 0;
        while k < ordered.len() && !goes_before_exec(&c, &ordered[k])
            invariant
                k <= ordered@.len(),
                forall|i: int| 0 <= i < k ==> !goes_before(c, #[trigger] ordered@[i]),
            decreases ordered@.len() - k,
        {
            k = k + 1;
        }
        let ghost ordered0 = ordered@;
        let ghost cv = c;
        ordered.insert(k, c);
        proof {
            broadcast use vstd::multiset::group_multiset_axioms;

            assert(ordered@ == ordered0.insert(k as int, cv));
            assert forall|i: int, j: int| 0 <= i < j < ordered@.len() implies !goes_before(
                #[trigger] ordered@[j],
                #[trigger] ordered@[i],
            ) by {
                if j < k {
                    assert(ordered@[i] == ordered0[i] && ordered@[j] == ordered0[j]);
                } else if j == k {
                    assert(ordered@[i] == ordered0[i]);
                } else if i < k {
                    assert(ordered@[i] == ordered0[i] && ordered@[j] == ordered0[j - 1]);
                } else if i == k {
                    assert(ordered@[j] == ordered0[j - 1]);
                    assert(goes_before(cv, ordered0[k as int]));
                    if j - 1 > k {
                        assert(!goes_before(ordered0[j - 1], ordered0[k as int]));
                    }
                    if goes_before(ordered0[j - 1], cv) {
                        lemma_goes_before_transitive(ordered0[j - 1], cv, ordered0[k as int]);
                        lemma_text_order(ordered0[k as int].path@, ordered0[k as int].path@, ordered0[k as int].path@);
                    }
                } else {
                    assert(ordered@[i] == ordered0[i - 1] && ordered@[j] == ordered0[j - 1]);
                }
            }
            vstd::seq_lib::to_multiset_insert(ordered0, k as int, cv);
            vstd::seq_lib::to_multiset_remove(pending0, 0);
            vstd::seq_lib::to_multiset_contains(pending0, cv);
            assert(pending0.contains(cv)) by {
                assert(pending0[0] == cv);
            }
            assert(ordered@.to_multiset().add(pending@.to_multiset()) =~= olds.to_multiset());
        }
    }
    proof {
        broadcast use vstd::multiset::group_multiset_axioms;

        vstd::seq_lib::to_multiset_len(pending@);
        vstd::multiset::lemma_multiset_empty_len(pending@.to_multiset());
        assert(ordered@.to_multiset().add(pending@.to_multiset()) =~= ordered@.to_multiset());
    }
    let ghost ordered_v = ordered@;
    let mut result = ordered;
    let mut dropped: usize = 0;
    proof {
        assert(ordered_v.skip(0) =~= ordered_v);
    }
    while dropped < keep && result.len() > 0
        invariant
            dropped <= keep,
            dropped <= ordered_v.len(),
            result@ == ordered_v.skip(dropped as int),
        decreases keep - dropped,
    {
        result.remove(0);
        proof {
            assert(result@ =~= ordered_v.skip(dropped as int + 1));
        }
        dropped = dropped + 1;
    }
    proof {
        if keep >= ordered_v.len() {
            assert(result@ =~= Seq::<BackupCandidate>::empty());
        }
    }
    result
}
} // verus!
