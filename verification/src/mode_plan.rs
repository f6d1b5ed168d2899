//! Mode transitions: what changing a managed path from one mode to another
//! does in each destination worktree. The decision is a pure function of the
//! two modes, the chosen reconciliation and what occupies the destination;
//! each decision then becomes a plan whose shape is stated exactly.
use vstd::prelude::*;

use crate::config::Config;
use crate::domain::{ManagedPath, Mode};
use crate::error::WkError;
use crate::fs_plan::{
    all_details_ok, backup_path_op, details_ok, overlay_backups, overlay_possible, overlay_shapes,
    plan_overlay_copy, plan_overlay_copy_with_backups, shape, shapes, FsOp, OpShape,
};
use crate::git_repo::{non_source_positions, RepoContext, WorktreeId, WorktreeInfo};
use crate::manifest::{same_content, Manifest, PathSnapshot};
use crate::materialize::{
    clean_sync_state, clean_sync_state_ok, concat_ops, concat_summary, concat_updates, concat_warnings, concatenates,
    dest_location, is_empty_plan, lemma_concat_push, link_plan_ok, link_state, link_state_ok, link_target,
    only_warning, overlay_plan_ok, plan_link_to, plan_overlay, relative_symlink_target, source_location,
    sync_state_ok, warning_plan, DestinationObservation, OperationPlan, StateUpdate,
};
use crate::pathops::{join_path, joined};
use crate::state::{ConflictRecord, DestinationKind, MaterializationProvenance, PairStatus, PathState};
use crate::sync_plan::backup_root_of;
use crate::text::{cat, cat3, cat4, views};

verus! {

/// How a conflicting transition is reconciled.
#[derive(Clone, Copy, Debug, PartialEq, Eq, Structural)]
pub enum TransitionChoice {
    Default,
    SourceWins,
    WorktreeWins,
    Skip,
}

#[derive(Clone, Copy, Debug, PartialEq, Eq, Structural)]
pub struct ModeOptions {
    pub dry_run: bool,
    pub choice: TransitionChoice,
}

/// What a mode change is handed for one destination worktree: what occupies
/// the destination, the stored state of the pair, and snapshots of the
/// source and of the destination.
#[derive(Debug)]
pub struct TransitionObservation {
    pub destination: DestinationObservation,
    pub stored: Option<PathState>,
    pub source: PathSnapshot,
    pub worktree: PathSnapshot,
}

/// A destination as a transition sees it.
#[derive(Clone, Copy, Debug, PartialEq, Eq, Structural)]
pub enum DestState {
    Missing,
    /// The symlink `wk` would create, where a link is involved.
    CorrectLink,
    Present,
}

/// What a transition does in one worktree.
#[derive(Clone, Copy, Debug, PartialEq, Eq, Structural)]
pub enum TransitionAction {
    /// Leave everything as it is.
    Nothing,
    /// Keep the files and drop the pair's state.
    ForgetState,
    /// Materialize a link as `apply` does.
    Link,
    /// Back up the destination, then link it.
    ReplaceWithLink,
    /// Copy the destination back into the source (backing up what it
    /// replaces), back up the destination, then link it.
    ImportThenLink,
    /// Copy the source into the missing destination.
    CopyFromSource,
    /// Remove the link and copy the source in its place.
    UnlinkThenCopy,
    /// Copy the source over the destination, backing up what it replaces.
    ReplaceFromSource,
    /// As `ReplaceFromSource`, and start a clean sync pair from the source.
    StartSyncFromSource,
    /// As `UnlinkThenCopy`, and start a clean sync pair from the source.
    UnlinkThenSync,
    /// Copy the destination into the source (backing up what it replaces) and
    /// start a clean sync pair from the destination.
    StartSyncFromWorktree,
    /// Start a sync pair: clean when both sides have the same content,
    /// otherwise in conflict with the content left untouched.
    StartSyncCompare,
    /// Leave the destination and warn that the change needs a choice.
    Hold,
}

/// A transition involves a link target when either mode is `link`.
pub open spec fn link_needed(current: Mode, target: Mode) -> bool {
    current == Mode::Link || target == Mode::Link
}

pub open spec fn dest_state(d: DestinationObservation, t: Option<Seq<char>>) -> DestState {
    match d {
        DestinationObservation::Missing => DestState::Missing,
        DestinationObservation::Symlink(a) => if t == Some(a@) {
            DestState::CorrectLink
        } else {
            DestState::Present
        },
        DestinationObservation::Other => DestState::Present,
    }
}

/// The destination side of a sync pair has not changed since the last clean
/// sync.
pub open spec fn worktree_unchanged(obs: TransitionObservation) -> bool {
    &&& obs.stored matches Some(st)
    &&& st.status != PairStatus::Conflict
    &&& st.worktree_manifest matches Some(wm)
    &&& same_content(wm, obs.worktree.manifest)
}

/// The transition table. Defaults never overwrite or discard content: an
/// existing destination is kept, a differing sync pair starts in conflict,
/// and a link replaces content only when nothing of the worktree is lost.
pub open spec fn transition_action(
    current: Mode,
    target: Mode,
    choice: TransitionChoice,
    dest: DestState,
    unchanged: bool,
) -> TransitionAction {
    if choice == TransitionChoice::Skip {
        TransitionAction::Nothing
    } else {
        match target {
            Mode::Ignore => TransitionAction::ForgetState,
            Mode::Link => match dest {
                DestState::Missing | DestState::CorrectLink => TransitionAction::Link,
                DestState::Present => match choice {
                    TransitionChoice::SourceWins => TransitionAction::ReplaceWithLink,
                    TransitionChoice::WorktreeWins => TransitionAction::ImportThenLink,
                    _ => if current == Mode::Ignore {
                        TransitionAction::Link
                    } else if current == Mode::Sync && unchanged {
                        TransitionAction::ReplaceWithLink
                    } else {
                        TransitionAction::Hold
                    },
                },
            },
            Mode::Copy => if current == Mode::Sync {
                TransitionAction::ForgetState
            } else {
                match dest {
                    DestState::Missing => TransitionAction::CopyFromSource,
                    DestState::CorrectLink => TransitionAction::UnlinkThenCopy,
                    DestState::Present => if choice == TransitionChoice::SourceWins {
                        TransitionAction::ReplaceFromSource
                    } else {
                        TransitionAction::Nothing
                    },
                }
            },
            Mode::Sync => match dest {
                DestState::Missing => TransitionAction::StartSyncFromSource,
                DestState::CorrectLink => TransitionAction::UnlinkThenSync,
                DestState::Present => match choice {
                    TransitionChoice::SourceWins => TransitionAction::StartSyncFromSource,
                    TransitionChoice::WorktreeWins => TransitionAction::StartSyncFromWorktree,
                    _ => TransitionAction::StartSyncCompare,
                },
            },
        }
    }
}

/// Decides what a transition does in one worktree.
pub fn decide_transition(
    current: Mode,
    target: Mode,
    choice: TransitionChoice,
    dest: DestState,
    unchanged: bool,
) -> (a: TransitionAction)
    ensures
        a == transition_action(current, target, choice, dest, unchanged),
{
    if choice == TransitionChoice::Skip {
        return TransitionAction::Nothing;
    }
    match target {
        Mode::Ignore => TransitionAction::ForgetState,
        Mode::Link => match dest {
            DestState::Missing | DestState::CorrectLink => TransitionAction::Link,
            DestState::Present => match choice {
                TransitionChoice::SourceWins => TransitionAction::ReplaceWithLink,
                TransitionChoice::WorktreeWins => TransitionAction::ImportThenLink,
                _ => if current == Mode::Ignore {
                    TransitionAction::Link
                } else if current == Mode::Sync && unchanged {
                    TransitionAction::ReplaceWithLink
                } else {
                    TransitionAction::Hold
                },
            },
        },
        Mode::Copy => if current == Mode::Sync {
            TransitionAction::ForgetState
        } else {
            match dest {
                DestState::Missing => TransitionAction::CopyFromSource,
                DestState::CorrectLink => TransitionAction::UnlinkThenCopy,
                DestState::Present => if choice == TransitionChoice::SourceWins {
                    TransitionAction::ReplaceFromSource
                } else {
                    TransitionAction::Nothing
                },
            }
        },
        Mode::Sync => match dest {
            DestState::Missing => TransitionAction::StartSyncFromSource,
            DestState::CorrectLink => TransitionAction::UnlinkThenSync,
            DestState::Present => match choice {
                TransitionChoice::SourceWins => TransitionAction::StartSyncFromSource,
                TransitionChoice::WorktreeWins => TransitionAction::StartSyncFromWorktree,
                _ => TransitionAction::StartSyncCompare,
            },
        },
    }
}


/// `Debug` names of the modes, as transition summaries print them.
pub open spec fn mode_label(m: Mode) -> Seq<char> {
    match m {
        Mode::Ignore => "Ignore"@,
        Mode::Link => "Link"@,
        Mode::Copy => "Copy"@,
        Mode::Sync => "Sync"@,
    }
}

/// The configuration words of the modes.
pub open spec fn mode_word(m: Mode) -> Seq<char> {
    match m {
        Mode::Ignore => "ignore"@,
        Mode::Link => "link"@,
        Mode::Copy => "copy"@,
        Mode::Sync => "sync"@,
    }
}

pub fn mode_label_text(m: Mode) -> (s: &'static str)
    ensures
        s@ == mode_label(m),
{
    match m {
        Mode::Ignore => "Ignore",
        Mode::Link => "Link",
        Mode::Copy => "Copy",
        Mode::Sync => "Sync",
    }
}

pub fn mode_word_text(m: Mode) -> (s: &'static str)
    ensures
        s@ == mode_word(m),
{
    match m {
        Mode::Ignore => "ignore",
        Mode::Link => "link",
        Mode::Copy => "copy",
        Mode::Sync => "sync",
    }
}

pub open spec fn overlay_line(from: Seq<char>, to: Seq<char>) -> Seq<char> {
    "overlay copy "@ + from + " -> "@ + to
}

/// One summary line, the given operations, no warnings.
pub open spec fn copy_part(plan: OperationPlan, line: Seq<char>, ops: Seq<OpShape>, bk: Seq<char>) -> bool {
    &&& views(plan.summary@) == seq![line]
    &&& shapes(plan.fs_ops@) == ops
    &&& all_details_ok(plan.fs_ops@, bk)
    &&& plan.warnings@.len() == 0
}

/// The only state update drops the pair's state.
pub open spec fn records_removal(plan: OperationPlan, p: Seq<char>, id: Seq<char>) -> bool {
    &&& plan.state_updates@.len() == 1
    &&& plan.state_updates@[0] matches StateUpdate::Remove { path, worktree_id } && path.view() == p
        && worktree_id.view() == id
}

/// The only state update saves a clean sync pair with manifests `sm`, `wm`.
pub open spec fn records_clean(plan: OperationPlan, p: Seq<char>, id: Seq<char>, sm: Manifest, wm: Manifest) -> bool {
    &&& plan.state_updates@.len() == 1
    &&& plan.state_updates@[0] matches StateUpdate::Save(st) && clean_sync_state_ok(st, p, id, sm, wm)
}

/// A sync pair in conflict because the transition found differing content.
pub open spec fn conflict_sync_state_ok(st: PathState, p: Seq<char>, id: Seq<char>, sm: Manifest, wm: Manifest) -> bool {
    &&& sync_state_ok(st, p, id, PairStatus::Conflict, sm, wm)
    &&& st.conflict matches Some(c) && views(c.entries@) == seq![Seq::<char>::empty()]
        && c.message@ == "mode transition requires sync conflict resolution"@
}

/// The destination is backed up and replaced by the link `dst -> t`, after
/// the operations and summary lines given.
pub open spec fn links_after(
    plan: OperationPlan,
    lines: Seq<Seq<char>>,
    ops: Seq<OpShape>,
    t: Seq<char>,
    dst: Seq<char>,
    p: Seq<char>,
    id: Seq<char>,
    bk: Seq<char>,
) -> bool {
    let n = plan.fs_ops@.len();
    &&& views(plan.summary@) == lines + seq!["replace with link "@ + dst + " -> "@ + t]
    &&& shapes(plan.fs_ops@) == ops + seq![OpShape::Backup(dst), OpShape::CopySymlink(t, dst)]
    &&& forall|j: int| 0 <= j < n - 1 ==> details_ok(#[trigger] plan.fs_ops@[j], bk)
    &&& plan.fs_ops@[n - 1] matches FsOp::CopySymlink { warning, .. } && warning is None
    &&& plan.state_updates@.len() == 1
    &&& plan.state_updates@[0] matches StateUpdate::Save(st) && link_state_ok(st, p, id, t)
    &&& plan.warnings@.len() == 0
}

/// The plan of `action` for path `p` in worktree `w`, with link target `t`
/// where a link is involved.
pub open spec fn action_plan_ok(
    plan: OperationPlan,
    action: TransitionAction,
    ctx: RepoContext,
    p: Seq<char>,
    w: WorktreeInfo,
    obs: TransitionObservation,
    t: Seq<char>,
    current: Mode,
) -> bool {
    let src = source_location(ctx, p);
    let dst = dest_location(w, p);
    let bk = backup_root_of(ctx);
    let id = w.id.view();
    let sm = obs.source.manifest;
    let wm = obs.worktree.manifest;
    match action {
        TransitionAction::Nothing => is_empty_plan(plan),
        TransitionAction::ForgetState => {
            &&& plan.summary@.len() == 0
            &&& plan.fs_ops@.len() == 0
            &&& plan.warnings@.len() == 0
            &&& records_removal(plan, p, id)
        },
        TransitionAction::Link => link_plan_ok(plan, t, dst, p, id, obs.destination, obs.stored),
        TransitionAction::ReplaceWithLink => links_after(plan, Seq::empty(), Seq::empty(), t, dst, p, id, bk),
        TransitionAction::ImportThenLink => links_after(
            plan,
            seq![overlay_line(dst, src)],
            overlay_backups(obs.worktree, sm, src) + overlay_shapes(dst, src, obs.worktree),
            t,
            dst,
            p,
            id,
            bk,
        ),
        TransitionAction::CopyFromSource => overlay_plan_ok(plan, src, dst, obs.source),
        TransitionAction::UnlinkThenCopy => {
            &&& copy_part(plan, overlay_line(src, dst), seq![OpShape::RemoveFile(dst)] + overlay_shapes(src, dst, obs.source), bk)
            &&& records_removal(plan, p, id)
        },
        TransitionAction::ReplaceFromSource => {
            &&& copy_part(plan, overlay_line(src, dst), overlay_backups(obs.source, wm, dst) + overlay_shapes(src, dst, obs.source), bk)
            &&& plan.state_updates@.len() == 0
        },
        TransitionAction::StartSyncFromSource => {
            &&& copy_part(plan, overlay_line(src, dst), overlay_backups(obs.source, wm, dst) + overlay_shapes(src, dst, obs.source), bk)
            &&& records_clean(plan, p, id, sm, sm)
        },
        TransitionAction::UnlinkThenSync => {
            &&& copy_part(plan, overlay_line(src, dst), seq![OpShape::RemoveFile(dst)] + overlay_shapes(src, dst, obs.source), bk)
            &&& records_clean(plan, p, id, sm, sm)
        },
        TransitionAction::StartSyncFromWorktree => {
            &&& copy_part(plan, overlay_line(dst, src), overlay_backups(obs.worktree, sm, src) + overlay_shapes(dst, src, obs.worktree), bk)
            &&& records_clean(plan, p, id, wm, wm)
        },
        TransitionAction::StartSyncCompare => {
            &&& plan.summary@.len() == 0
            &&& plan.fs_ops@.len() == 0
            &&& if same_content(sm, wm) {
                &&& plan.warnings@.len() == 0
                &&& records_clean(plan, p, id, sm, wm)
            } else {
                &&& views(plan.warnings@) == seq![p + " differs; marked sync conflict"@]
                &&& plan.state_updates@.len() == 1
                &&& plan.state_updates@[0] matches StateUpdate::Save(st) && conflict_sync_state_ok(st, p, id, sm, wm)
            }
        },
        TransitionAction::Hold => only_warning(
            plan,
            p + " "@ + mode_word(current) + " -> link may discard worktree content"@,
        ),
    }
}

/// The inputs on which the plan of `action` can be made: the side that is
/// copied from exists and can be copied.
pub open spec fn action_possible(action: TransitionAction, obs: TransitionObservation) -> bool {
    match action {
        TransitionAction::CopyFromSource | TransitionAction::UnlinkThenCopy | TransitionAction::ReplaceFromSource
        | TransitionAction::StartSyncFromSource | TransitionAction::UnlinkThenSync => overlay_possible(obs.source),
        TransitionAction::ImportThenLink | TransitionAction::StartSyncFromWorktree => overlay_possible(obs.worktree),
        _ => true,
    }
}

fn removal_plan(path: &ManagedPath, worktree_id: &WorktreeId) -> (plan: OperationPlan)
    ensures
        plan.summary@.len() == 0,
        plan.fs_ops@.len() == 0,
        plan.warnings@.len() == 0,
        records_removal(plan, path.view(), worktree_id.view()),
{
    let mut plan = OperationPlan::empty();
    plan.state_updates.push(StateUpdate::Remove { path: path.clone(), worktree_id: worktree_id.clone() });
    plan
}

/// Backs up `dest_path` and links it to `target`, after the plan `before`.
fn append_replace_with_link(
    before: OperationPlan,
    target: String,
    dest_path: String,
    path: &ManagedPath,
    worktree_id: &WorktreeId,
    backup_root: &str,
) -> (plan: OperationPlan)
    requires
        before.state_updates@.len() == 0,
        before.warnings@.len() == 0,
        all_details_ok(before.fs_ops@, backup_root@),
    ensures
        links_after(
            plan,
            views(before.summary@),
            shapes(before.fs_ops@),
            target@,
            dest_path@,
            path.view(),
            worktree_id.view(),
            backup_root@,
        ),
{
    let mut plan = before;
    let ghost s0 = plan.summary@;
    let ghost o0 = plan.fs_ops@;
    plan.summary.push(cat4("replace with link ", dest_path.as_str(), " -> ", target.as_str()));
    let backup = backup_path_op(dest_path.as_str(), backup_root);
    plan.fs_ops.push(backup);
    plan.state_updates.push(StateUpdate::Save(link_state(path, worktree_id, target.as_str())));
    let link = FsOp::CopySymlink { target, dest: dest_path, warning: None };
    plan.fs_ops.push(link);
    proof {
        assert(views(plan.summary@) =~= views(s0) + seq!["replace with link "@ + dest_path@ + " -> "@ + target@]);
        assert(shapes(plan.fs_ops@) =~= shapes(o0) + seq![OpShape::Backup(dest_path@), OpShape::CopySymlink(target@, dest_path@)]);
        assert forall|j: int| 0 <= j < plan.fs_ops@.len() - 1 implies details_ok(#[trigger] plan.fs_ops@[j], backup_root@) by {
            if j < o0.len() {
                assert(plan.fs_ops@[j] == o0[j]);
            }
        }
    }
    plan
}

fn copy_plan(line: String, ops: Vec<FsOp>) -> (plan: OperationPlan)
    ensures
        views(plan.summary@) == seq![line@],
        plan.fs_ops@ == ops@,
        plan.state_updates@.len() == 0,
        plan.warnings@.len() == 0,
{
    let mut plan = OperationPlan::empty();
    plan.summary.push(line);
    plan.fs_ops = ops;
    proof {
        assert(views(plan.summary@) =~= seq![line@]);
    }
    plan
}

/// The operations that remove the link at `dest_root` and copy the source
/// in its place.
fn unlink_and_copy(source_root: &str, dest_root: &str, source: &PathSnapshot, Ghost(bk): Ghost<Seq<char>>) -> (r: Result<Vec<FsOp>, WkError>)
    ensures
        r is Ok <==> overlay_possible(*source),
        r matches Ok(ops) ==> shapes(ops@) == seq![OpShape::RemoveFile(dest_root@)] + overlay_shapes(
            source_root@,
            dest_root@,
            *source,
        ) && all_details_ok(ops@, bk),
{
    let mut copies = match plan_overlay_copy(source_root, dest_root, source) {
        Ok(c) => c,
        Err(err) => {
            return Err(err);
        },
    };
    let mut ops: Vec<FsOp> = Vec::new();
    ops.push(FsOp::RemoveFile { path: dest_root.to_owned() });
    let ghost c = copies@;
    ops.append(&mut copies);
    proof {
        assert(all_details_ok(c, bk));
        assert(shapes(ops@) =~= seq![OpShape::RemoveFile(dest_root@)] + shapes(c));
        assert forall|j: int| 0 <= j < ops@.len() implies details_ok(#[trigger] ops@[j], bk) by {
            if j > 0 {
                assert(ops@[j] == c[j - 1]);
            }
        }
    }
    Ok(ops)
}

fn conflict_sync_state(path: &ManagedPath, worktree_id: &WorktreeId, sm: &Manifest, wm: &Manifest) -> (st: PathState)
    ensures
        conflict_sync_state_ok(st, path.view(), worktree_id.view(), *sm, *wm),
{
    let mut entries: Vec<String> = Vec::new();
    entries.push(String::new());
    proof {
        assert(views(entries@) =~= seq![Seq::<char>::empty()]);
    }
    PathState {
        path: path.clone(),
        worktree_id: worktree_id.clone(),
        status: PairStatus::Conflict,
        provenance: MaterializationProvenance {
            destination_kind: DestinationKind::SyncCopy,
            created_or_adopted_by_wk: true,
            expected_symlink_target: None,
        },
        source_manifest: Some(sm.duplicate()),
        worktree_manifest: Some(wm.duplicate()),
        conflict: Some(
            ConflictRecord {
                entries,
                message: String::from_str("mode transition requires sync conflict resolution"),
            },
        ),
    }
}

/// Plans `action` for `path` in `worktree`; `target` is the link target
/// where the action links.
pub fn plan_action(
    action: TransitionAction,
    ctx: &RepoContext,
    path: &ManagedPath,
    worktree: &WorktreeInfo,
    obs: &TransitionObservation,
    target: &str,
    current: Mode,
) -> (r: Result<OperationPlan, WkError>)
    ensures
        r is Ok <==> action_possible(action, *obs),
        r matches Ok(plan) ==> action_plan_ok(plan, action, *ctx, path.view(), *worktree, *obs, target@, current),
{
    let src = join_path(ctx.main_worktree.as_str(), path.as_str());
    let dst = join_path(worktree.path.as_str(), path.as_str());
    let backup_root = join_path(ctx.control_dir.as_str(), "backups");
    proof {
        reveal_strlit("backups");
    }
    let id = &worktree.id;
    match action {
        TransitionAction::Nothing => Ok(OperationPlan::empty()),
        TransitionAction::ForgetState => Ok(removal_plan(path, id)),
        TransitionAction::Link => Ok(plan_link_to(target.to_owned(), dst, path, id, &obs.destination, &obs.stored)),
        TransitionAction::ReplaceWithLink => {
            let before = OperationPlan::empty();
            proof {
                assert(views(before.summary@) =~= Seq::<Seq<char>>::empty());
                assert(shapes(before.fs_ops@) =~= Seq::<OpShape>::empty());
            }
            Ok(append_replace_with_link(before, target.to_owned(), dst, path, id, backup_root.as_str()))
        },
        TransitionAction::ImportThenLink => {
            let ops = match plan_overlay_copy_with_backups(
                dst.as_str(),
                src.as_str(),
                &obs.worktree,
                &obs.source.manifest,
                backup_root.as_str(),
            ) {
                Ok(ops) => ops,
                Err(err) => {
                    return Err(err);
                },
            };
            let before = copy_plan(cat4("overlay copy ", dst.as_str(), " -> ", src.as_str()), ops);
            Ok(append_replace_with_link(before, target.to_owned(), dst, path, id, backup_root.as_str()))
        },
        TransitionAction::CopyFromSource => plan_overlay(src.as_str(), dst.as_str(), &obs.source),
        TransitionAction::UnlinkThenCopy => {
            let ops = match unlink_and_copy(src.as_str(), dst.as_str(), &obs.source, Ghost(backup_root@)) {
                Ok(ops) => ops,
                Err(err) => {
                    return Err(err);
                },
            };
            let mut plan = copy_plan(cat4("overlay copy ", src.as_str(), " -> ", dst.as_str()), ops);
            plan.state_updates.push(StateUpdate::Remove { path: path.clone(), worktree_id: id.clone() });
            Ok(plan)
        },
        TransitionAction::ReplaceFromSource | TransitionAction::StartSyncFromSource => {
            let ops = match plan_overlay_copy_with_backups(
                src.as_str(),
                dst.as_str(),
                &obs.source,
                &obs.worktree.manifest,
                backup_root.as_str(),
            ) {
                Ok(ops) => ops,
                Err(err) => {
                    return Err(err);
                },
            };
            let mut plan = copy_plan(cat4("overlay copy ", src.as_str(), " -> ", dst.as_str()), ops);
            if action == TransitionAction::StartSyncFromSource {
                plan.state_updates.push(
                    StateUpdate::Save(clean_sync_state(path, id, &obs.source.manifest, &obs.source.manifest)),
                );
            }
            Ok(plan)
        },
        TransitionAction::UnlinkThenSync => {
            let ops = match unlink_and_copy(src.as_str(), dst.as_str(), &obs.source, Ghost(backup_root@)) {
                Ok(ops) => ops,
                Err(err) => {
                    return Err(err);
                },
            };
            let mut plan = copy_plan(cat4("overlay copy ", src.as_str(), " -> ", dst.as_str()), ops);
            plan.state_updates.push(
                StateUpdate::Save(clean_sync_state(path, id, &obs.source.manifest, &obs.source.manifest)),
            );
            Ok(plan)
        },
        TransitionAction::StartSyncFromWorktree => {
            let ops = match plan_overlay_copy_with_backups(
                dst.as_str(),
                src.as_str(),
                &obs.worktree,
                &obs.source.manifest,
                backup_root.as_str(),
            ) {
                Ok(ops) => ops,
                Err(err) => {
                    return Err(err);
                },
            };
            let mut plan = copy_plan(cat4("overlay copy ", dst.as_str(), " -> ", src.as_str()), ops);
            plan.state_updates.push(
                StateUpdate::Save(clean_sync_state(path, id, &obs.worktree.manifest, &obs.worktree.manifest)),
            );
            Ok(plan)
        },
        TransitionAction::StartSyncCompare => {
            let mut plan = OperationPlan::empty();
            if obs.source.manifest.has_same_content_identity(&obs.worktree.manifest) {
                plan.state_updates.push(
                    StateUpdate::Save(clean_sync_state(path, id, &obs.source.manifest, &obs.worktree.manifest)),
                );
            } else {
                plan.state_updates.push(
                    StateUpdate::Save(conflict_sync_state(path, id, &obs.source.manifest, &obs.worktree.manifest)),
                );
                plan.warnings.push(cat(path.as_str(), " differs; marked sync conflict"));
                proof {
                    assert(views(plan.warnings@) =~= seq![path.view() + " differs; marked sync conflict"@]);
                }
            }
            Ok(plan)
        },
        TransitionAction::Hold => Ok(
            warning_plan(
                cat4(path.as_str(), " ", mode_word_text(current), " -> link may discard worktree content"),
            ),
        ),
    }
}


/// The link target a transition works with: computed only when either mode
/// is `link`.
pub open spec fn transition_link_target(ctx: RepoContext, p: Seq<char>, w: WorktreeInfo, current: Mode, target: Mode) -> Option<
    Seq<char>,
> {
    if link_needed(current, target) {
        link_target(source_location(ctx, p), dest_location(w, p))
    } else {
        None
    }
}

/// What the transition does in worktree `w`.
pub open spec fn worktree_action(
    ctx: RepoContext,
    p: Seq<char>,
    w: WorktreeInfo,
    current: Mode,
    target: Mode,
    choice: TransitionChoice,
    obs: TransitionObservation,
) -> TransitionAction {
    transition_action(
        current,
        target,
        choice,
        dest_state(obs.destination, transition_link_target(ctx, p, w, current, target)),
        worktree_unchanged(obs),
    )
}

pub open spec fn transition_line(p: Seq<char>, current: Mode, target: Mode) -> Seq<char> {
    p + ": "@ + mode_label(current) + " -> "@ + mode_label(target)
}

pub open spec fn target_or_empty(t: Option<Seq<char>>) -> Seq<char> {
    match t {
        Some(x) => x,
        None => Seq::empty(),
    }
}

/// `part` names the transition and then holds the plan of the worktree's
/// action.
pub open spec fn worktree_transition_ok(
    part: OperationPlan,
    ctx: RepoContext,
    p: Seq<char>,
    w: WorktreeInfo,
    current: Mode,
    target: Mode,
    choice: TransitionChoice,
    obs: TransitionObservation,
) -> bool {
    exists|rest: OperationPlan|
        {
            &&& #[trigger] action_plan_ok(
                rest,
                worktree_action(ctx, p, w, current, target, choice, obs),
                ctx,
                p,
                w,
                obs,
                target_or_empty(transition_link_target(ctx, p, w, current, target)),
                current,
            )
            &&& views(part.summary@) == seq![transition_line(p, current, target)] + views(rest.summary@)
            &&& part.fs_ops@ == rest.fs_ops@
            &&& part.state_updates@ == rest.state_updates@
            &&& part.warnings@ == rest.warnings@
        }
}

fn worktree_unchanged_exec(obs: &TransitionObservation) -> (b: bool)
    ensures
        b == worktree_unchanged(*obs),
{
    match &obs.stored {
        Some(st) => st.status != PairStatus::Conflict && match &st.worktree_manifest {
            Some(wm) => wm.has_same_content_identity(&obs.worktree.manifest),
            None => false,
        },
        None => false,
    }
}

/// Plans the transition of `path` from `current` to `target` in one
/// destination worktree: a line naming the transition, then the plan of the
/// action the transition table picks.
pub fn plan_worktree_transition(
    ctx: &RepoContext,
    path: &ManagedPath,
    worktree: &WorktreeInfo,
    current: Mode,
    target: Mode,
    choice: TransitionChoice,
    obs: &TransitionObservation,
) -> (r: Result<OperationPlan, WkError>)
    ensures
        link_needed(current, target) && transition_link_target(*ctx, path.view(), *worktree, current, target) is None
            ==> r is Err,
        (link_needed(current, target) ==> transition_link_target(*ctx, path.view(), *worktree, current, target) is Some)
            && action_possible(worktree_action(*ctx, path.view(), *worktree, current, target, choice, *obs), *obs)
            ==> r is Ok,
        r is Ok ==> action_possible(worktree_action(*ctx, path.view(), *worktree, current, target, choice, *obs), *obs),
        r matches Ok(part) ==> worktree_transition_ok(part, *ctx, path.view(), *worktree, current, target, choice, *obs),
{
    let ghost t_spec = transition_link_target(*ctx, path.view(), *worktree, current, target);
    let mut link_target_text = String::new();
    let mut have_target = false;
    if current == Mode::Link || target == Mode::Link {
        let src = join_path(ctx.main_worktree.as_str(), path.as_str());
        let dst = join_path(worktree.path.as_str(), path.as_str());
        match relative_symlink_target(src.as_str(), dst.as_str()) {
            Ok(t) => {
                link_target_text = t;
                have_target = true;
            },
            Err(err) => {
                return Err(err);
            },
        }
    }
    proof {
        assert(have_target ==> t_spec == Some(link_target_text@));
        assert(!have_target ==> t_spec is None);
        assert(!have_target ==> link_target_text@ =~= Seq::<char>::empty());
    }
    let dest = match &obs.destination {
        DestinationObservation::Missing => DestState::Missing,
        DestinationObservation::Symlink(a) => {
            if have_target && crate::text::str_eq(a.as_str(), link_target_text.as_str()) {
                DestState::CorrectLink
            } else {
                DestState::Present
            }
        },
        DestinationObservation::Other => DestState::Present,
    };
    let unchanged = worktree_unchanged_exec(obs);
    let action = decide_transition(current, target, choice, dest, unchanged);
    proof {
        assert(dest == dest_state(obs.destination, t_spec));
        assert(action == worktree_action(*ctx, path.view(), *worktree, current, target, choice, *obs));
        assert(link_target_text@ == target_or_empty(t_spec));
    }
    let rest = match plan_action(action, ctx, path, worktree, obs, link_target_text.as_str(), current) {
        Ok(rest) => rest,
        Err(err) => {
            return Err(err);
        },
    };
    let ghost rest_v = rest;
    let mut part = OperationPlan::empty();
    let line = cat(
        cat4(path.as_str(), ": ", mode_label_text(current), " -> ").as_str(),
        mode_label_text(target),
    );
    part.summary.push(line);
    part.extend(rest);
    proof {
        assert(views(part.summary@) =~= seq![transition_line(path.view(), current, target)] + views(rest_v.summary@));
        assert(part.fs_ops@ =~= rest_v.fs_ops@);
        assert(part.state_updates@ =~= rest_v.state_updates@);
        assert(part.warnings@ =~= rest_v.warnings@);
        assert(action_plan_ok(
            rest_v,
            worktree_action(*ctx, path.view(), *worktree, current, target, choice, *obs),
            *ctx,
            path.view(),
            *worktree,
            *obs,
            target_or_empty(transition_link_target(*ctx, path.view(), *worktree, current, target)),
            current,
        ));
    }
    let ghost part_v = part;
    let result: Result<OperationPlan, WkError> = Ok(part);
    proof {
        assert(result->Ok_0 == part_v);
        assert(worktree_transition_ok(part_v, *ctx, path.view(), *worktree, current, target, choice, *obs));
    }
    result
}


/// The trailing summary line of a dry run.
pub open spec fn dry_run_lines(dry_run: bool) -> Seq<Seq<char>> {
    if dry_run {
        seq!["dry run: no filesystem writes"@]
    } else {
        Seq::empty()
    }
}

/// Plans changing the mode of `path` to `target`. A path already in that
/// mode gets one summary line and nothing else. Otherwise every non-source
/// worktree, in order, gets the plan of `plan_worktree_transition`;
/// `observations` holds one observation per non-source worktree, in that
/// order. A dry run ends the summary with a notice.
pub fn plan_mode_change(
    ctx: &RepoContext,
    config: &Config,
    path: &ManagedPath,
    target: Mode,
    options: ModeOptions,
    observations: &Vec<TransitionObservation>,
) -> (r: Result<OperationPlan, WkError>)
    ensures
        ({
            let current = crate::config::mode_in(config.paths@, path.view());
            current == target ==> (r matches Ok(plan) && views(plan.summary@) == seq![
                path.view() + " already in "@ + mode_label(target),
            ] && plan.fs_ops@.len() == 0 && plan.state_updates@.len() == 0 && plan.warnings@.len() == 0)
        }),
        ({
            let current = crate::config::mode_in(config.paths@, path.view());
            current != target && observations@.len() != non_source_positions(ctx.worktrees@).len() ==> r is Err
        }),
        ({
            let current = crate::config::mode_in(config.paths@, path.view());
            let ws = non_source_positions(ctx.worktrees@);
            &&& current != target
            &&& observations@.len() == ws.len()
            &&& forall|i: int| 0 <= i < ws.len() ==> {
                &&& (link_needed(current, target)
                    ==> transition_link_target(*ctx, path.view(), ctx.worktrees@[ws[i]], current, target) is Some)
                &&& action_possible(
                    worktree_action(*ctx, path.view(), ctx.worktrees@[ws[i]], current, target, options.choice, #[trigger] observations@[i]),
                    observations@[i],
                )
            }
        }) ==> r is Ok,
        r matches Ok(plan) ==> {
            let current = crate::config::mode_in(config.paths@, path.view());
            let ws = non_source_positions(ctx.worktrees@);
            current != target ==> exists|parts: Seq<OperationPlan>|
                {
                    &&& parts.len() == ws.len()
                    &&& views(plan.summary@) == views(concat_summary(parts)) + dry_run_lines(options.dry_run)
                    &&& plan.fs_ops@ == concat_ops(parts)
                    &&& plan.state_updates@ == concat_updates(parts)
                    &&& plan.warnings@ == concat_warnings(parts)
                    &&& forall|i: int| 0 <= i < parts.len() ==> #[trigger] worktree_transition_ok(
                        parts[i],
                        *ctx,
                        path.view(),
                        ctx.worktrees@[ws[i]],
                        current,
                        target,
                        options.choice,
                        observations@[i],
                    )
                }
        },
{
    let current = config.current_mode(path);
    if current == target {
        let mut plan = OperationPlan::empty();
        plan.summary.push(cat3(path.as_str(), " already in ", mode_label_text(target)));
        proof {
            assert(views(plan.summary@) =~= seq![path.view() + " already in "@ + mode_label(target)]);
        }
        return Ok(plan);
    }
    let worktrees = ctx.non_source_worktrees();
    let ghost ws = non_source_positions(ctx.worktrees@);
    if observations.len() != worktrees.len() {
        return Err(WkError::message(String::from_str("mode observations do not match the destination worktrees")));
    }
    let mut plan = OperationPlan::empty();
    let ghost mut parts: Seq<OperationPlan> = Seq::empty();
    proof {
        assert(plan.fs_ops@ =~= concat_ops(Seq::empty()));
        assert(plan.state_updates@ =~= concat_updates(Seq::empty()));
        assert(plan.warnings@ =~= concat_warnings(Seq::empty()));
        assert(plan.summary@ =~= concat_summary(Seq::empty()));
    }
    let mut k: usize = 0;
    while k < worktrees.len()
        invariant
            worktrees@.len() == ws.len(),
            forall|i: int| 0 <= i < worktrees@.len() ==> *worktrees@[i] == ctx.worktrees@[ws[i]],
            ws == non_source_positions(ctx.worktrees@),
            observations@.len() == ws.len(),
            current == crate::config::mode_in(config.paths@, path.view()),
            current != target,
            k <= worktrees@.len(),
            parts.len() == k,
            plan.summary@ == concat_summary(parts),
            plan.fs_ops@ == concat_ops(parts),
            plan.state_updates@ == concat_updates(parts),
            plan.warnings@ == concat_warnings(parts),
            forall|i: int| 0 <= i < k ==> #[trigger] worktree_transition_ok(
                parts[i],
                *ctx,
                path.view(),
                ctx.worktrees@[ws[i]],
                current,
                target,
                options.choice,
                observations@[i],
            ),
        decreases worktrees@.len() - k,
    {
        let w = worktrees[k];
        let part = match plan_worktree_transition(ctx, path, w, current, target, options.choice, &observations[k]) {
            Ok(part) => part,
            Err(err) => {
                return Err(err);
            },
        };
        let ghost parts0 = parts;
        proof {
            parts = parts.push(part);
            lemma_concat_push(parts0, part);
            assert forall|i: int| 0 <= i < k + 1 implies #[trigger] worktree_transition_ok(
                parts[i],
                *ctx,
                path.view(),
                ctx.worktrees@[ws[i]],
                current,
                target,
                options.choice,
                observations@[i],
            ) by {
                if i < k {
                    assert(parts[i] == parts0[i]);
                }
            }
        }
        plan.extend(part);
        k = k + 1;
    }
    let ghost before = plan.summary@;
    if options.dry_run {
        plan.summary.push(String::from_str("dry run: no filesystem writes"));
    }
    proof {
        assert(views(plan.summary@) =~= views(before) + dry_run_lines(options.dry_run));
    }
    let ghost plan_v = plan;
    let result: Result<OperationPlan, WkError> = Ok(plan);
    proof {
        assert(result->Ok_0 == plan_v);
    }
    result
}

} // verus!
