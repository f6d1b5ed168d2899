//! Operation plans and the planning of `apply`: what each configured path
//! needs in each destination worktree, decided from what occupies the
//! destination, the stored state and the source snapshot.
use vstd::prelude::*;

use crate::config::{Config, PathConfig};
use crate::domain::{ManagedPath, Mode};
use crate::error::WkError;
use crate::fs_plan::{all_details_ok, overlay_possible, overlay_shapes, plan_overlay_copy, shapes, FsOp};
use crate::git_repo::{RepoContext, WorktreeId, WorktreeInfo};
use crate::manifest::{same_records, Manifest, PathSnapshot};
use crate::pathops::{join_path, joined, parent_of, path_parent};
use crate::state::{DestinationKind, MaterializationProvenance, PairStatus, PathState};
use crate::text::{cat, cat4, opt_view, views};

verus! {

/// A change to persisted state that a plan makes once its operations ran.
#[derive(Debug)]
pub enum StateUpdate {
    Save(PathState),
    Remove { path: ManagedPath, worktree_id: WorktreeId },
}

/// Everything a command intends to do: lines to print, filesystem
/// operations, state changes and warnings.
#[derive(Debug)]
pub struct OperationPlan {
    pub summary: Vec<String>,
    pub fs_ops: Vec<FsOp>,
    pub state_updates: Vec<StateUpdate>,
    pub warnings: Vec<String>,
}

/// The plan does nothing at all.
pub open spec fn is_empty_plan(plan: OperationPlan) -> bool {
    &&& plan.summary@.len() == 0
    &&& plan.fs_ops@.len() == 0
    &&& plan.state_updates@.len() == 0
    &&& plan.warnings@.len() == 0
}

impl OperationPlan {
    pub fn empty() -> (p: Self)
        ensures
            is_empty_plan(p),
    {
        OperationPlan {
            summary: Vec::new(),
            fs_ops: Vec::new(),
            state_updates: Vec::new(),
            warnings: Vec::new(),
        }
    }

    /// Appends another plan: every part of `other` follows the same part of
    /// this plan.
    pub fn extend(&mut self, other: Self)
        ensures
            final(self).summary@ == old(self).summary@ + other.summary@,
            final(self).fs_ops@ == old(self).fs_ops@ + other.fs_ops@,
            final(self).state_updates@ == old(self).state_updates@ + other.state_updates@,
            final(self).warnings@ == old(self).warnings@ + other.warnings@,
    {
        let mut other = other;
        self.summary.append(&mut other.summary);
        self.fs_ops.append(&mut other.fs_ops);
        self.state_updates.append(&mut other.state_updates);
        self.warnings.append(&mut other.warnings);
    }
}

pub open spec fn concat_ops(parts: Seq<OperationPlan>) -> Seq<FsOp>
    decreases parts.len(),
{
    if parts.len() == 0 {
        Seq::empty()
    } else {
        concat_ops(parts.drop_last()) + parts.last().fs_ops@
    }
}

pub open spec fn concat_updates(parts: Seq<OperationPlan>) -> Seq<StateUpdate>
    decreases parts.len(),
{
    if parts.len() == 0 {
        Seq::empty()
    } else {
        concat_updates(parts.drop_last()) + parts.last().state_updates@
    }
}

pub open spec fn concat_warnings(parts: Seq<OperationPlan>) -> Seq<String>
    decreases parts.len(),
{
    if parts.len() == 0 {
        Seq::empty()
    } else {
        concat_warnings(parts.drop_last()) + parts.last().warnings@
    }
}

pub open spec fn concat_summary(parts: Seq<OperationPlan>) -> Seq<String>
    decreases parts.len(),
{
    if parts.len() == 0 {
        Seq::empty()
    } else {
        concat_summary(parts.drop_last()) + parts.last().summary@
    }
}

/// `plan` opens with `head` as summary and then holds the parts in order.
pub open spec fn concatenates(plan: OperationPlan, head: Seq<String>, parts: Seq<OperationPlan>) -> bool {
    &&& plan.summary@ == head + concat_summary(parts)
    &&& plan.fs_ops@ == concat_ops(parts)
    &&& plan.state_updates@ == concat_updates(parts)
    &&& plan.warnings@ == concat_warnings(parts)
}

pub proof fn lemma_concat_push(parts: Seq<OperationPlan>, part: OperationPlan)
    ensures
        concat_ops(parts.push(part)) == concat_ops(parts) + part.fs_ops@,
        concat_updates(parts.push(part)) == concat_updates(parts) + part.state_updates@,
        concat_warnings(parts.push(part)) == concat_warnings(parts) + part.warnings@,
        concat_summary(parts.push(part)) == concat_summary(parts) + part.summary@,
{
    assert(parts.push(part).drop_last() =~= parts);
}


/// Which destination worktrees `apply` materializes into.
#[derive(Debug)]
pub enum ApplyTarget {
    All,
    Worktree(WorktreeId),
}

/// What occupies a destination: nothing, a symlink with its target, or
/// anything else.
#[derive(Debug)]
pub enum DestinationObservation {
    Missing,
    Symlink(String),
    Other,
}

/// The path leading from directory `base` to `path`, as
/// `pathdiff::diff_paths` builds it.
pub uninterp spec fn relative_path(path: Seq<char>, base: Seq<char>) -> Option<Seq<char>>;

/// Calls `pathdiff::diff_paths` and reads its result back as text: `None`
/// where it finds no relative path, an error with the lossy text where the
/// result is not UTF-8. The crate builds its result from `path` itself or
/// from components of `path` and `..`; with both arguments UTF-8 text the
/// result is UTF-8, so the error arm is never taken.
#[verifier::external_body]
fn diff_paths_text(path: &str, base: &str) -> (r: Option<Result<String, String>>)
    ensures
        r is None <==> relative_path(path@, base@) is None,
        !(r matches Some(Err(_))),
        r matches Some(Ok(s)) ==> relative_path(path@, base@) == Some(s@),
{
    match pathdiff::diff_paths(path, base) {
        Some(p) => match p.into_os_string().into_string() {
            Ok(s) => Some(Ok(s)),
            Err(o) => Some(Err(o.to_string_lossy().into_owned())),
        },
        None => None,
    }
}

/// The target of a link at `dest` to `source`: the relative path from the
/// destination's parent to the source.
pub open spec fn link_target(source: Seq<char>, dest: Seq<char>) -> Option<Seq<char>> {
    match parent_of(dest) {
        Some(parent) => relative_path(source, parent),
        None => None,
    }
}

pub fn relative_symlink_target(source: &str, dest: &str) -> (r: Result<String, WkError>)
    ensures
        r is Ok <==> link_target(source@, dest@) is Some,
        r matches Ok(t) ==> link_target(source@, dest@) == Some(t@),
{
    let parent = match path_parent(dest) {
        Some(p) => p,
        None => {
            return Err(WkError::message(cat("destination has no parent: ", dest)));
        },
    };
    match diff_paths_text(source, parent.as_str()) {
        Some(Ok(t)) => Ok(t),
        Some(Err(lossy)) => Err(WkError::non_utf8_path(lossy)),
        None => Err(WkError::message(cat4("cannot make relative link from ", dest, " to ", source))),
    }
}

/// Where a managed path lives in the source worktree.
pub open spec fn source_location(ctx: RepoContext, p: Seq<char>) -> Seq<char> {
    joined(ctx.main_worktree@, p)
}

/// Where a managed path lives in worktree `w`.
pub open spec fn dest_location(w: WorktreeInfo, p: Seq<char>) -> Seq<char> {
    joined(w.path@, p)
}

/// The stored state says `wk` created the symlink itself.
pub open spec fn repairable(stored: Option<PathState>) -> bool {
    stored matches Some(st) && st.provenance.destination_kind == DestinationKind::Symlink
        && st.provenance.created_or_adopted_by_wk
}

/// The state recorded for a link that `wk` made to target `t`.
pub open spec fn link_state_ok(st: PathState, p: Seq<char>, id: Seq<char>, t: Seq<char>) -> bool {
    &&& st.path.view() == p
    &&& st.worktree_id.view() == id
    &&& st.status == PairStatus::Clean
    &&& st.provenance.destination_kind == DestinationKind::Symlink
    &&& st.provenance.created_or_adopted_by_wk
    &&& opt_view(st.provenance.expected_symlink_target) == Some(t)
    &&& st.source_manifest is None
    &&& st.worktree_manifest is None
    &&& st.conflict is None
}

/// `plan` writes the link `dst -> t`, announced with `verb`, and records it.
pub open spec fn link_made(
    plan: OperationPlan,
    verb: Seq<char>,
    t: Seq<char>,
    dst: Seq<char>,
    p: Seq<char>,
    id: Seq<char>,
) -> bool {
    &&& views(plan.summary@) == seq![verb + dst + " -> "@ + t]
    &&& plan.fs_ops@.len() == 1
    &&& plan.fs_ops@[0] matches FsOp::CopySymlink { target, dest, warning } && target@ == t && dest@ == dst
        && warning is None
    &&& plan.state_updates@.len() == 1
    &&& plan.state_updates@[0] matches StateUpdate::Save(st) && link_state_ok(st, p, id, t)
    &&& plan.warnings@.len() == 0
}

/// `plan` does nothing but warn with `w`.
pub open spec fn only_warning(plan: OperationPlan, w: Seq<char>) -> bool {
    &&& plan.summary@.len() == 0
    &&& plan.fs_ops@.len() == 0
    &&& plan.state_updates@.len() == 0
    &&& views(plan.warnings@) == seq![w]
}

/// The link plan for a destination: a missing destination is linked; the
/// right symlink is left alone; a wrong symlink is repaired only when `wk`
/// made it, and otherwise left with a warning, as is anything else.
pub open spec fn link_plan_ok(
    plan: OperationPlan,
    t: Seq<char>,
    dst: Seq<char>,
    p: Seq<char>,
    id: Seq<char>,
    dest: DestinationObservation,
    stored: Option<PathState>,
) -> bool {
    match dest {
        DestinationObservation::Missing => link_made(plan, "link "@, t, dst, p, id),
        DestinationObservation::Symlink(actual) => if actual@ == t {
            is_empty_plan(plan)
        } else if repairable(stored) {
            link_made(plan, "repair link "@, t, dst, p, id)
        } else {
            only_warning(plan, "foreign symlink left untouched: "@ + dst)
        },
        DestinationObservation::Other => only_warning(
            plan,
            "existing non-managed destination left untouched: "@ + dst,
        ),
    }
}

pub fn link_state(path: &ManagedPath, worktree_id: &WorktreeId, target: &str) -> (st: PathState)
    ensures
        link_state_ok(st, path.view(), worktree_id.view(), target@),
{
    PathState {
        path: path.clone(),
        worktree_id: worktree_id.clone(),
        status: PairStatus::Clean,
        provenance: MaterializationProvenance {
            destination_kind: DestinationKind::Symlink,
            created_or_adopted_by_wk: true,
            expected_symlink_target: Some(target.to_owned()),
        },
        source_manifest: None,
        worktree_manifest: None,
        conflict: None,
    }
}

pub fn make_link(verb: &str, target: String, dest: String, path: &ManagedPath, worktree_id: &WorktreeId) -> (plan:
    OperationPlan)
    ensures
        link_made(plan, verb@, target@, dest@, path.view(), worktree_id.view()),
{
    let mut plan = OperationPlan::empty();
    plan.summary.push(cat4(verb, dest.as_str(), " -> ", target.as_str()));
    plan.state_updates.push(StateUpdate::Save(link_state(path, worktree_id, target.as_str())));
    plan.fs_ops.push(FsOp::CopySymlink { target, dest, warning: None });
    proof {
        assert(views(plan.summary@) =~= seq![verb@ + dest@ + " -> "@ + target@]);
    }
    plan
}

pub fn warning_plan(w: String) -> (plan: OperationPlan)
    ensures
        only_warning(plan, w@),
{
    let mut plan = OperationPlan::empty();
    plan.warnings.push(w);
    proof {
        assert(views(plan.warnings@) =~= seq![w@]);
    }
    plan
}

/// Plans the `link` materialization of `path` in `worktree`: the destination
/// becomes a relative symlink to the source copy.
pub fn plan_link(
    ctx: &RepoContext,
    path: &ManagedPath,
    worktree: &WorktreeInfo,
    dest: &DestinationObservation,
    stored: &Option<PathState>,
) -> (r: Result<OperationPlan, WkError>)
    ensures
        r is Ok <==> link_target(source_location(*ctx, path.view()), dest_location(*worktree, path.view())) is Some,
        r matches Ok(plan) ==> link_target(source_location(*ctx, path.view()), dest_location(*worktree, path.view()))
            matches Some(t) && link_plan_ok(
            plan,
            t,
            dest_location(*worktree, path.view()),
            path.view(),
            worktree.id.view(),
            *dest,
            *stored,
        ),
{
    let source = join_path(ctx.main_worktree.as_str(), path.as_str());
    let dest_path = join_path(worktree.path.as_str(), path.as_str());
    let target = match relative_symlink_target(source.as_str(), dest_path.as_str()) {
        Ok(t) => t,
        Err(err) => {
            return Err(err);
        },
    };
    Ok(plan_link_to(target, dest_path, path, &worktree.id, dest, stored))
}

/// The link plan once the link target is known.
pub fn plan_link_to(
    target: String,
    dest_path: String,
    path: &ManagedPath,
    worktree_id: &WorktreeId,
    dest: &DestinationObservation,
    stored: &Option<PathState>,
) -> (plan: OperationPlan)
    ensures
        link_plan_ok(plan, target@, dest_path@, path.view(), worktree_id.view(), *dest, *stored),
{
    match dest {
        DestinationObservation::Missing => make_link("link ", target, dest_path, path, worktree_id),
        DestinationObservation::Symlink(actual) => {
            if crate::text::str_eq(actual.as_str(), target.as_str()) {
                OperationPlan::empty()
            } else if can_repair_symlink(stored) {
                make_link("repair link ", target, dest_path, path, worktree_id)
            } else {
                warning_plan(cat("foreign symlink left untouched: ", dest_path.as_str()))
            }
        },
        DestinationObservation::Other => warning_plan(
            cat("existing non-managed destination left untouched: ", dest_path.as_str()),
        ),
    }
}

pub fn can_repair_symlink(stored: &Option<PathState>) -> (b: bool)
    ensures
        b == repairable(*stored),
{
    match stored {
        Some(st) => st.provenance.destination_kind == DestinationKind::Symlink && st.provenance.created_or_adopted_by_wk,
        None => false,
    }
}

/// `plan` announces and performs the overlay copy of `snap` from `src` onto
/// `dst`, and nothing else.
pub open spec fn overlay_plan_ok(plan: OperationPlan, src: Seq<char>, dst: Seq<char>, snap: PathSnapshot) -> bool {
    &&& views(plan.summary@) == seq!["overlay copy "@ + src + " -> "@ + dst]
    &&& shapes(plan.fs_ops@) == overlay_shapes(src, dst, snap)
    &&& all_details_ok(plan.fs_ops@, Seq::empty())
    &&& plan.state_updates@.len() == 0
    &&& plan.warnings@.len() == 0
}

/// Plans the overlay copy of the snapshot of `source_root` onto `dest_root`.
pub fn plan_overlay(source_root: &str, dest_root: &str, source: &PathSnapshot) -> (r: Result<OperationPlan, WkError>)
    ensures
        r is Ok <==> overlay_possible(*source),
        r matches Ok(plan) ==> overlay_plan_ok(plan, source_root@, dest_root@, *source),
{
    let fs_ops = match plan_overlay_copy(source_root, dest_root, source) {
        Ok(ops) => ops,
        Err(err) => {
            return Err(err);
        },
    };
    let mut summary: Vec<String> = Vec::new();
    summary.push(cat4("overlay copy ", source_root, " -> ", dest_root));
    proof {
        assert(views(summary@) =~= seq!["overlay copy "@ + source_root@ + " -> "@ + dest_root@]);
    }
    Ok(OperationPlan { summary, fs_ops, state_updates: Vec::new(), warnings: Vec::new() })
}

/// The `copy` materialization: the source is copied only where the
/// destination is missing.
pub fn plan_copy_if_missing(
    ctx: &RepoContext,
    path: &ManagedPath,
    worktree: &WorktreeInfo,
    dest_exists: bool,
    source: &PathSnapshot,
) -> (r: Result<OperationPlan, WkError>)
    ensures
        dest_exists ==> (r matches Ok(plan) && is_empty_plan(plan)),
        !dest_exists ==> (r is Ok <==> overlay_possible(*source)),
        !dest_exists ==> (r matches Ok(plan) ==> overlay_plan_ok(
            plan,
            source_location(*ctx, path.view()),
            dest_location(*worktree, path.view()),
            *source,
        )),
{
    if dest_exists {
        return Ok(OperationPlan::empty());
    }
    let src = join_path(ctx.main_worktree.as_str(), path.as_str());
    let dst = join_path(worktree.path.as_str(), path.as_str());
    plan_overlay(src.as_str(), dst.as_str(), source)
}

/// The sync state of a pair with manifests `sm` and `wm` on record.
pub open spec fn sync_state_ok(
    st: PathState,
    p: Seq<char>,
    id: Seq<char>,
    status: PairStatus,
    sm: Manifest,
    wm: Manifest,
) -> bool {
    &&& st.path.view() == p
    &&& st.worktree_id.view() == id
    &&& st.status == status
    &&& st.provenance.destination_kind == DestinationKind::SyncCopy
    &&& st.provenance.created_or_adopted_by_wk
    &&& st.provenance.expected_symlink_target is None
    &&& st.source_manifest matches Some(m) && same_records(sm, m)
    &&& st.worktree_manifest matches Some(m) && same_records(wm, m)
}

/// A clean sync state: no conflict.
pub open spec fn clean_sync_state_ok(st: PathState, p: Seq<char>, id: Seq<char>, sm: Manifest, wm: Manifest) -> bool {
    &&& sync_state_ok(st, p, id, PairStatus::Clean, sm, wm)
    &&& st.conflict is None
}

pub fn clean_sync_state(path: &ManagedPath, worktree_id: &WorktreeId, sm: &Manifest, wm: &Manifest) -> (st: PathState)
    ensures
        clean_sync_state_ok(st, path.view(), worktree_id.view(), *sm, *wm),
{
    PathState {
        path: path.clone(),
        worktree_id: worktree_id.clone(),
        status: PairStatus::Clean,
        provenance: MaterializationProvenance {
            destination_kind: DestinationKind::SyncCopy,
            created_or_adopted_by_wk: true,
            expected_symlink_target: None,
        },
        source_manifest: Some(sm.duplicate()),
        worktree_manifest: Some(wm.duplicate()),
        conflict: None,
    }
}

/// The overlay copy of the source followed by one clean state save that
/// records the source manifest on both sides.
pub open spec fn sync_copy_ok(plan: OperationPlan, src: Seq<char>, dst: Seq<char>, snap: PathSnapshot, p: Seq<char>, id: Seq<char>) -> bool {
    &&& views(plan.summary@) == seq!["overlay copy "@ + src + " -> "@ + dst]
    &&& shapes(plan.fs_ops@) == overlay_shapes(src, dst, snap)
    &&& all_details_ok(plan.fs_ops@, Seq::empty())
    &&& plan.warnings@.len() == 0
    &&& plan.state_updates@.len() == 1
    &&& plan.state_updates@[0] matches StateUpdate::Save(st) && clean_sync_state_ok(
        st,
        p,
        id,
        snap.manifest,
        snap.manifest,
    )
}

/// The `sync` materialization: like `copy`, and a pair copied this way
/// starts clean with the source manifest on both sides.
pub fn plan_sync_copy_if_missing(
    ctx: &RepoContext,
    path: &ManagedPath,
    worktree: &WorktreeInfo,
    dest_exists: bool,
    source: &PathSnapshot,
) -> (r: Result<OperationPlan, WkError>)
    ensures
        dest_exists ==> (r matches Ok(plan) && is_empty_plan(plan)),
        !dest_exists ==> (r is Ok <==> overlay_possible(*source)),
        !dest_exists ==> (r matches Ok(plan) ==> sync_copy_ok(
            plan,
            source_location(*ctx, path.view()),
            dest_location(*worktree, path.view()),
            *source,
            path.view(),
            worktree.id.view(),
        )),
{
    let mut plan = match plan_copy_if_missing(ctx, path, worktree, dest_exists, source) {
        Ok(plan) => plan,
        Err(err) => {
            return Err(err);
        },
    };
    if !dest_exists {
        let st = clean_sync_state(path, &worktree.id, &source.manifest, &source.manifest);
        plan.state_updates.push(StateUpdate::Save(st));
    }
    Ok(plan)
}

/// What `apply` is handed for one pair of configured path and worktree.
#[derive(Debug)]
pub struct ApplyObservation {
    pub destination: DestinationObservation,
    pub stored: Option<PathState>,
    pub source: PathSnapshot,
}

/// The inputs on which the apply plan of one pair fails.
pub open spec fn apply_blocked(ctx: RepoContext, pc: PathConfig, w: WorktreeInfo, obs: ApplyObservation) -> bool {
    let p = pc.path.view();
    match pc.mode {
        Mode::Ignore => false,
        Mode::Link => link_target(source_location(ctx, p), dest_location(w, p)) is None,
        Mode::Copy | Mode::Sync => obs.destination is Missing && !overlay_possible(obs.source),
    }
}

/// The apply plan of one pair, by the path's mode.
pub open spec fn path_apply_ok(plan: OperationPlan, ctx: RepoContext, pc: PathConfig, w: WorktreeInfo, obs: ApplyObservation) -> bool {
    let p = pc.path.view();
    let src = source_location(ctx, p);
    let dst = dest_location(w, p);
    match pc.mode {
        Mode::Ignore => is_empty_plan(plan),
        Mode::Link => link_target(src, dst) matches Some(t) && link_plan_ok(
            plan,
            t,
            dst,
            p,
            w.id.view(),
            obs.destination,
            obs.stored,
        ),
        Mode::Copy => if obs.destination is Missing {
            overlay_plan_ok(plan, src, dst, obs.source)
        } else {
            is_empty_plan(plan)
        },
        Mode::Sync => if obs.destination is Missing {
            sync_copy_ok(plan, src, dst, obs.source, p, w.id.view())
        } else {
            is_empty_plan(plan)
        },
    }
}

/// Plans `apply` of one configured path in one worktree.
pub fn plan_path_apply(
    ctx: &RepoContext,
    path_config: &PathConfig,
    worktree: &WorktreeInfo,
    obs: &ApplyObservation,
) -> (r: Result<OperationPlan, WkError>)
    ensures
        r is Err <==> apply_blocked(*ctx, *path_config, *worktree, *obs),
        r matches Ok(plan) ==> path_apply_ok(plan, *ctx, *path_config, *worktree, *obs),
{
    let dest_exists = match obs.destination {
        DestinationObservation::Missing => false,
        _ => true,
    };
    match path_config.mode {
        Mode::Ignore => Ok(OperationPlan::empty()),
        Mode::Link => plan_link(ctx, &path_config.path, worktree, &obs.destination, &obs.stored),
        Mode::Copy => plan_copy_if_missing(ctx, &path_config.path, worktree, dest_exists, &obs.source),
        Mode::Sync => plan_sync_copy_if_missing(ctx, &path_config.path, worktree, dest_exists, &obs.source),
    }
}

pub open spec fn targets(target: ApplyTarget, id: Seq<char>) -> bool {
    match target {
        ApplyTarget::All => true,
        ApplyTarget::Worktree(t) => t.view() == id,
    }
}

pub open spec fn apply_worktree_pairs(p: int, ws: Seq<WorktreeInfo>, target: ApplyTarget, upto: int) -> Seq<(int, int)>
    decreases upto,
{
    if upto <= 0 {
        Seq::empty()
    } else {
        let w = upto - 1;
        apply_worktree_pairs(p, ws, target, w) + if !ws[w].is_source && targets(target, ws[w].id.view()) {
            seq![(p, w)]
        } else {
            Seq::empty()
        }
    }
}

pub open spec fn apply_pairs_from(n: int, ws: Seq<WorktreeInfo>, target: ApplyTarget) -> Seq<(int, int)>
    decreases n,
{
    if n <= 0 {
        Seq::empty()
    } else {
        apply_pairs_from(n - 1, ws, target) + apply_worktree_pairs(n - 1, ws, target, ws.len() as int)
    }
}

/// The pairs `apply` covers, in order: every configured path against every
/// targeted non-source worktree.
pub open spec fn apply_pairs(config: Config, ctx: RepoContext, target: ApplyTarget) -> Seq<(int, int)> {
    apply_pairs_from(config.paths@.len() as int, ctx.worktrees@, target)
}

proof fn lemma_apply_worktree_pairs_bounds(p: int, ws: Seq<WorktreeInfo>, target: ApplyTarget, upto: int)
    requires
        upto <= ws.len(),
    ensures
        forall|i: int| 0 <= i < apply_worktree_pairs(p, ws, target, upto).len() ==> {
            let q = #[trigger] apply_worktree_pairs(p, ws, target, upto)[i];
            &&& q.0 == p
            &&& 0 <= q.1 < upto
            &&& !ws[q.1].is_source
            &&& targets(target, ws[q.1].id.view())
        },
    decreases upto,
{
    if upto > 0 {
        lemma_apply_worktree_pairs_bounds(p, ws, target, upto - 1);
        let prev = apply_worktree_pairs(p, ws, target, upto - 1);
        let all = apply_worktree_pairs(p, ws, target, upto);
        assert forall|i: int| 0 <= i < all.len() implies {
            let q = #[trigger] all[i];
            &&& q.0 == p
            &&& 0 <= q.1 < upto
            &&& !ws[q.1].is_source
            &&& targets(target, ws[q.1].id.view())
        } by {
            if i < prev.len() {
                assert(all[i] == prev[i]);
            }
        }
    }
}

proof fn lemma_apply_pairs_from_bounds(n: int, ws: Seq<WorktreeInfo>, target: ApplyTarget)
    ensures
        forall|i: int| 0 <= i < apply_pairs_from(n, ws, target).len() ==> {
            let q = #[trigger] apply_pairs_from(n, ws, target)[i];
            &&& 0 <= q.0 < n
            &&& 0 <= q.1 < ws.len()
            &&& !ws[q.1].is_source
            &&& targets(target, ws[q.1].id.view())
        },
    decreases n,
{
    if n > 0 {
        lemma_apply_pairs_from_bounds(n - 1, ws, target);
        lemma_apply_worktree_pairs_bounds(n - 1, ws, target, ws.len() as int);
        let prev = apply_pairs_from(n - 1, ws, target);
        let all = apply_pairs_from(n, ws, target);
        let tail = apply_worktree_pairs(n - 1, ws, target, ws.len() as int);
        assert forall|i: int| 0 <= i < all.len() implies {
            let q = #[trigger] all[i];
            &&& 0 <= q.0 < n
            &&& 0 <= q.1 < ws.len()
            &&& !ws[q.1].is_source
            &&& targets(target, ws[q.1].id.view())
        } by {
            if i < prev.len() {
                assert(all[i] == prev[i]);
            } else {
                assert(all[i] == tail[i - prev.len()]);
            }
        }
    }
}

/// Every pair `apply` covers is a configured path and a targeted non-source
/// worktree.
pub proof fn lemma_apply_pairs_bounds(config: Config, ctx: RepoContext, target: ApplyTarget)
    ensures
        forall|i: int| 0 <= i < apply_pairs(config, ctx, target).len() ==> {
            let q = #[trigger] apply_pairs(config, ctx, target)[i];
            &&& 0 <= q.0 < config.paths@.len()
            &&& 0 <= q.1 < ctx.worktrees@.len()
            &&& !ctx.worktrees@[q.1].is_source
            &&& targets(target, ctx.worktrees@[q.1].id.view())
        },
{
    lemma_apply_pairs_from_bounds(config.paths@.len() as int, ctx.worktrees@, target);
}

pub fn targets_worktree(target: &ApplyTarget, id: &WorktreeId) -> (b: bool)
    ensures
        b == targets(*target, id.view()),
{
    match target {
        ApplyTarget::All => true,
        ApplyTarget::Worktree(t) => t.same_as(id),
    }
}

/// Lists the pairs `apply` covers, as positions in the configuration's path
/// list and in the context's worktree list.
pub fn select_apply_pairs(ctx: &RepoContext, config: &Config, target: &ApplyTarget) -> (pairs: Vec<(usize, usize)>)
    ensures
        pairs@.len() == apply_pairs(*config, *ctx, *target).len(),
        forall|i: int| 0 <= i < pairs@.len() ==> (#[trigger] pairs@[i]).0 as int == apply_pairs(
            *config,
            *ctx,
            *target,
        )[i].0 && pairs@[i].1 as int == apply_pairs(*config, *ctx, *target)[i].1,
{
    let mut pairs: Vec<(usize, usize)> = Vec::new();
    let mut p: usize = 0;
    while p < config.paths.len()
        invariant
            p <= config.paths@.len(),
            pairs@.len() == apply_pairs_from(p as int, ctx.worktrees@, *target).len(),
            forall|i: int| 0 <= i < pairs@.len() ==> (#[trigger] pairs@[i]).0 as int == apply_pairs_from(
                p as int,
                ctx.worktrees@,
                *target,
            )[i].0 && pairs@[i].1 as int == apply_pairs_from(p as int, ctx.worktrees@, *target)[i].1,
        decreases config.paths@.len() - p,
    {
        let ghost prefix = apply_pairs_from(p as int, ctx.worktrees@, *target);
        let mut w: usize = 0;
        while w < ctx.worktrees.len()
            invariant
                w <= ctx.worktrees@.len(),
                p < config.paths@.len(),
                pairs@.len() == prefix.len() + apply_worktree_pairs(p as int, ctx.worktrees@, *target, w as int).len(),
                forall|i: int| 0 <= i < pairs@.len() ==> (#[trigger] pairs@[i]).0 as int == (prefix
                    + apply_worktree_pairs(p as int, ctx.worktrees@, *target, w as int))[i].0 && pairs@[i].1 as int
                    == (prefix + apply_worktree_pairs(p as int, ctx.worktrees@, *target, w as int))[i].1,
            decreases ctx.worktrees@.len() - w,
        {
            let wt = &ctx.worktrees[w];
            if !wt.is_source && targets_worktree(target, &wt.id) {
                pairs.push((p, w));
            }
            proof {
                let a = prefix + apply_worktree_pairs(p as int, ctx.worktrees@, *target, w as int);
                let b = prefix + apply_worktree_pairs(p as int, ctx.worktrees@, *target, w as int + 1);
                if !wt.is_source && targets(*target, wt.id.view()) {
                    assert(b =~= a.push((p as int, w as int)));
                } else {
                    assert(b =~= a);
                }
            }
            w = w + 1;
        }
        proof {
            assert(apply_pairs_from(p as int + 1, ctx.worktrees@, *target) =~= prefix + apply_worktree_pairs(
                p as int,
                ctx.worktrees@,
                *target,
                ctx.worktrees@.len() as int,
            ));
        }
        p = p + 1;
    }
    pairs
}

/// Plans `apply`: every configured path against every targeted non-source
/// worktree, in configuration and worktree order. `observations` holds one
/// observation per pair, in that order.
pub fn plan_apply(
    ctx: &RepoContext,
    config: &Config,
    target: &ApplyTarget,
    observations: &Vec<ApplyObservation>,
) -> (r: Result<OperationPlan, WkError>)
    ensures
        r is Ok <==> ({
            let pairs = apply_pairs(*config, *ctx, *target);
            &&& observations@.len() == pairs.len()
            &&& forall|i: int| 0 <= i < pairs.len() ==> !apply_blocked(
                *ctx,
                config.paths@[pairs[i].0],
                ctx.worktrees@[pairs[i].1],
                #[trigger] observations@[i],
            )
        }),
        r matches Ok(plan) ==> {
            let pairs = apply_pairs(*config, *ctx, *target);
            exists|parts: Seq<OperationPlan>| {
                &&& parts.len() == pairs.len()
                &&& #[trigger] concatenates(plan, Seq::empty(), parts)
                &&& forall|i: int| 0 <= i < parts.len() ==> #[trigger] path_apply_ok(
                    parts[i],
                    *ctx,
                    config.paths@[pairs[i].0],
                    ctx.worktrees@[pairs[i].1],
                    observations@[i],
                )
            }
        },
{
    let pairs = select_apply_pairs(ctx, config, target);
    let ghost spairs = apply_pairs(*config, *ctx, *target);
    if observations.len() != pairs.len() {
        return Err(WkError::message(String::from_str("apply observations do not match the selected pairs")));
    }
    let mut plan = OperationPlan::empty();
    let ghost mut parts: Seq<OperationPlan> = Seq::empty();
    proof {
        lemma_apply_pairs_bounds(*config, *ctx, *target);
        assert(plan.fs_ops@ =~= concat_ops(Seq::empty()));
        assert(plan.state_updates@ =~= concat_updates(Seq::empty()));
        assert(plan.warnings@ =~= concat_warnings(Seq::empty()));
        assert(plan.summary@ =~= Seq::<String>::empty() + concat_summary(Seq::empty()));
    }
    let mut k: usize = 0;
    while k < pairs.len()
        invariant
            pairs@.len() == spairs.len(),
            forall|i: int| 0 <= i < pairs@.len() ==> (#[trigger] pairs@[i]).0 as int == spairs[i].0
                && pairs@[i].1 as int == spairs[i].1,
            spairs == apply_pairs(*config, *ctx, *target),
            forall|i: int| 0 <= i < spairs.len() ==> {
                let q = #[trigger] spairs[i];
                &&& 0 <= q.0 < config.paths@.len()
                &&& 0 <= q.1 < ctx.worktrees@.len()
            },
            observations@.len() == spairs.len(),
            k <= pairs@.len(),
            parts.len() == k,
            concatenates(plan, Seq::empty(), parts),
            forall|i: int| 0 <= i < k ==> #[trigger] path_apply_ok(
                parts[i],
                *ctx,
                config.paths@[spairs[i].0],
                ctx.worktrees@[spairs[i].1],
                observations@[i],
            ),
            forall|i: int| 0 <= i < k ==> !apply_blocked(
                *ctx,
                config.paths@[spairs[i].0],
                ctx.worktrees@[spairs[i].1],
                #[trigger] observations@[i],
            ),
        decreases pairs@.len() - k,
    {
        let (pi, wi) = pairs[k];
        proof {
            assert(pairs@[k as int].0 as int == spairs[k as int].0);
        }
        let part = match plan_path_apply(ctx, &config.paths[pi], &ctx.worktrees[wi], &observations[k]) {
            Ok(part) => part,
            Err(err) => {
                return Err(err);
            },
        };
        let ghost parts0 = parts;
        proof {
            parts = parts.push(part);
            lemma_concat_push(parts0, part);
            assert forall|i: int| 0 <= i < k + 1 implies #[trigger] path_apply_ok(
                parts[i],
                *ctx,
                config.paths@[spairs[i].0],
                ctx.worktrees@[spairs[i].1],
                observations@[i],
            ) by {
                if i < k {
                    assert(parts[i] == parts0[i]);
                }
            }
        }
        plan.extend(part);
        k = k + 1;
    }
    let ghost plan_v = plan;
    let result: Result<OperationPlan, WkError> = Ok(plan);
    proof {
        assert(result->Ok_0 == plan_v);
        assert(concatenates(result->Ok_0, Seq::empty(), parts));
    }
    result
}

} // verus!
