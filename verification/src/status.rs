//! `wk status`: the status of every managed path in every destination
//! worktree, and the exit code that sums them up.
use vstd::prelude::*;

use crate::config::Config;
use crate::domain::{ManagedPath, Mode};
use crate::drift::{classify_manifest_drift, classify_spec, EntryDrift};
use crate::git_repo::{RepoContext, WorktreeId};
use crate::git_repo::WorktreeInfo;
use crate::manifest::{same_content, Manifest};
use crate::materialize::{
    apply_pairs, dest_location, lemma_apply_pairs_bounds, link_target, relative_symlink_target, select_apply_pairs,
    source_location, ApplyTarget, DestinationObservation,
};
use crate::pathops::join_path;
use crate::mode_plan::{mode_label, mode_label_text};
use crate::state::{PairStatus, PathState};
use crate::sync_plan::{opt_has, opt_lookup};
use crate::text::cat4;

verus! {

#[derive(Clone, Copy, Debug, PartialEq, Eq, Structural)]
pub enum RowStatus {
    Clean,
    Drift,
    Conflict,
    Uninitialized,
}

/// An ignored path is clean when its destination exists.
pub fn non_sync_status(exists: bool) -> (s: RowStatus)
    ensures
        s == (if exists {
            RowStatus::Clean
        } else {
            RowStatus::Uninitialized
        }),
{
    if exists {
        RowStatus::Clean
    } else {
        RowStatus::Uninitialized
    }
}

/// The status of a copy: uninitialized without a destination, clean when the
/// destination holds the source's content, drifted otherwise.
pub open spec fn copy_status_of(destination: DestinationObservation, cs: Manifest, cw: Manifest) -> RowStatus {
    if destination is Missing {
        RowStatus::Uninitialized
    } else if same_content(cw, cs) {
        RowStatus::Clean
    } else {
        RowStatus::Drift
    }
}

pub fn copy_status(destination: &DestinationObservation, current_source: &Manifest, current_worktree: &Manifest) -> (s:
    RowStatus)
    ensures
        s == copy_status_of(*destination, *current_source, *current_worktree),
{
    match destination {
        DestinationObservation::Missing => RowStatus::Uninitialized,
        _ => if current_worktree.has_same_content_identity(current_source) {
            RowStatus::Clean
        } else {
            RowStatus::Drift
        },
    }
}

/// The status of a link: uninitialized without a destination, clean when the
/// destination is a symlink to the expected relative target, drifted
/// otherwise (another target, a non-link, or no target to expect).
pub open spec fn link_status_of(expected: Option<Seq<char>>, destination: DestinationObservation) -> RowStatus {
    match destination {
        DestinationObservation::Missing => RowStatus::Uninitialized,
        DestinationObservation::Symlink(actual) => if expected == Some(actual@) {
            RowStatus::Clean
        } else {
            RowStatus::Drift
        },
        DestinationObservation::Other => RowStatus::Drift,
    }
}

pub fn link_status(expected: Option<&str>, destination: &DestinationObservation) -> (s: RowStatus)
    ensures
        s == link_status_of(
            match expected {
                Some(t) => Some(t@),
                None => None,
            },
            *destination,
        ),
{
    match destination {
        DestinationObservation::Missing => RowStatus::Uninitialized,
        DestinationObservation::Symlink(actual) => match expected {
            Some(t) => if crate::text::str_eq(actual.as_str(), t) {
                RowStatus::Clean
            } else {
                RowStatus::Drift
            },
            None => RowStatus::Drift,
        },
        DestinationObservation::Other => RowStatus::Drift,
    }
}

pub open spec fn status_word(s: RowStatus) -> Seq<char> {
    match s {
        RowStatus::Clean => "clean"@,
        RowStatus::Drift => "drift"@,
        RowStatus::Conflict => "conflict"@,
        RowStatus::Uninitialized => "uninitialized"@,
    }
}

pub fn status_label(status: RowStatus) -> (s: &'static str)
    ensures
        s@ == status_word(status),
{
    match status {
        RowStatus::Clean => "clean",
        RowStatus::Drift => "drift",
        RowStatus::Conflict => "conflict",
        RowStatus::Uninitialized => "uninitialized",
    }
}

/// A path is known to a stored state or to either current side.
pub open spec fn known(st: PathState, cs: Manifest, cw: Manifest, k: Seq<char>) -> bool {
    opt_has(st.source_manifest, k) || opt_has(st.worktree_manifest, k) || cs.has(k) || cw.has(k)
}

/// The drift of path `k` from the stored clean manifests (a missing one
/// counting as empty) to the current sides.
pub open spec fn state_drift(st: PathState, cs: Manifest, cw: Manifest, k: Seq<char>) -> EntryDrift {
    classify_spec(opt_lookup(st.source_manifest, k), opt_lookup(st.worktree_manifest, k), cs.lookup(k), cw.lookup(k))
}

/// Every path is unchanged or converged to identical content on both sides.
pub open spec fn settled(st: PathState, cs: Manifest, cw: Manifest) -> bool {
    forall|k: Seq<char>| known(st, cs, cw, k) ==> #[trigger] state_drift(st, cs, cw, k)
        == EntryDrift::Unchanged || state_drift(st, cs, cw, k) == EntryDrift::BothChangedIdentically
}

/// The status of a sync pair: uninitialized without state; in conflict when
/// some path changed differently on both sides; clean when every path is
/// unchanged or converged (this clears a recorded conflict); otherwise in
/// conflict when the state records one, and drifted when it does not.
pub open spec fn sync_status_of(stored: Option<PathState>, cs: Manifest, cw: Manifest) -> RowStatus {
    match stored {
        None => RowStatus::Uninitialized,
        Some(st) => if exists|k: Seq<char>| known(st, cs, cw, k) && #[trigger] state_drift(st, cs, cw, k)
            == EntryDrift::BothChangedDifferently {
            RowStatus::Conflict
        } else if settled(st, cs, cw) {
            RowStatus::Clean
        } else if st.status == PairStatus::Conflict {
            RowStatus::Conflict
        } else {
            RowStatus::Drift
        },
    }
}

pub fn sync_status(stored: &Option<PathState>, current_source: &Manifest, current_worktree: &Manifest) -> (s:
    RowStatus)
    ensures
        s == sync_status_of(*stored, *current_source, *current_worktree),
{
    let st = match stored {
        None => {
            return RowStatus::Uninitialized;
        },
        Some(st) => st,
    };
    let empty_source = Manifest::new();
    let empty_worktree = Manifest::new();
    let base_source: &Manifest = match &st.source_manifest {
        Some(m) => m,
        None => &empty_source,
    };
    let base_worktree: &Manifest = match &st.worktree_manifest {
        Some(m) => m,
        None => &empty_worktree,
    };
    let report = classify_manifest_drift(base_source, base_worktree, current_source, current_worktree);
    proof {
        assert forall|k: Seq<char>| #![trigger state_drift(*st, *current_source, *current_worktree, k)]
            base_source.lookup(k) == opt_lookup(st.source_manifest, k) && base_worktree.lookup(k) == opt_lookup(
                st.worktree_manifest,
                k,
            ) && (base_source.has(k) == opt_has(st.source_manifest, k)) && (base_worktree.has(k) == opt_has(
                st.worktree_manifest,
                k,
            )) by {}
        assert(forall|k: Seq<char>| #![trigger state_drift(*st, *current_source, *current_worktree, k)]
            crate::drift::drift_of(*base_source, *base_worktree, *current_source, *current_worktree, k) == state_drift(
                *st,
                *current_source,
                *current_worktree,
                k,
            ));
    }
    if report.has_conflict() {
        proof {
            let k = choose|k: Seq<char>| crate::drift::in_any(
                *base_source,
                *base_worktree,
                *current_source,
                *current_worktree,
                k,
            ) && #[trigger] crate::drift::drift_of(*base_source, *base_worktree, *current_source, *current_worktree, k)
                == EntryDrift::BothChangedDifferently;
            assert(state_drift(*st, *current_source, *current_worktree, k) == EntryDrift::BothChangedDifferently);
        }
        return RowStatus::Conflict;
    }
    proof {
        if exists|k: Seq<char>| known(*st, *current_source, *current_worktree, k) && #[trigger] state_drift(
            *st,
            *current_source,
            *current_worktree,
            k,
        ) == EntryDrift::BothChangedDifferently {
            let k = choose|k: Seq<char>| known(*st, *current_source, *current_worktree, k) && #[trigger] state_drift(
                *st,
                *current_source,
                *current_worktree,
                k,
            ) == EntryDrift::BothChangedDifferently;
            assert(crate::drift::drift_of(*base_source, *base_worktree, *current_source, *current_worktree, k)
                == EntryDrift::BothChangedDifferently);
        }
    }
    if report.is_clean_after_refresh() {
        proof {
            assert forall|k: Seq<char>| known(*st, *current_source, *current_worktree, k) implies #[trigger] state_drift(
                *st,
                *current_source,
                *current_worktree,
                k,
            ) == EntryDrift::Unchanged || state_drift(*st, *current_source, *current_worktree, k)
                == EntryDrift::BothChangedIdentically by {
                assert(crate::drift::in_any(*base_source, *base_worktree, *current_source, *current_worktree, k));
            }
        }
        return RowStatus::Clean;
    }
    proof {
        let k = choose|k: Seq<char>| !(crate::drift::in_any(*base_source, *base_worktree, *current_source, *current_worktree, k)
            ==> #[trigger] crate::drift::drift_of(*base_source, *base_worktree, *current_source, *current_worktree, k)
            == EntryDrift::Unchanged || crate::drift::drift_of(*base_source, *base_worktree, *current_source, *current_worktree, k)
            == EntryDrift::BothChangedIdentically);
        assert(known(*st, *current_source, *current_worktree, k));
        assert(!(state_drift(*st, *current_source, *current_worktree, k) == EntryDrift::Unchanged
            || state_drift(*st, *current_source, *current_worktree, k) == EntryDrift::BothChangedIdentically));
    }
    if st.status == PairStatus::Conflict {
        RowStatus::Conflict
    } else {
        RowStatus::Drift
    }
}

/// One line of `wk status`.
#[derive(Debug)]
pub struct StatusRow {
    pub path: String,
    pub worktree_id: String,
    pub mode: Mode,
    pub status: RowStatus,
}

/// What `status` is handed for one pair of configured path and worktree:
/// what occupies the destination, the stored state, and the current
/// manifests of both sides (empty where a side is missing).
#[derive(Debug)]
pub struct StatusObservation {
    pub destination: DestinationObservation,
    pub stored: Option<PathState>,
    pub source: Manifest,
    pub worktree: Manifest,
}

/// The status of one pair by the path's mode: a sync path by its drift, a
/// copy by comparing the destination's content with the source's, a link by
/// its target, an ignored path by whether its destination exists.
pub open spec fn row_status_of(ctx: RepoContext, p: Seq<char>, w: WorktreeInfo, mode: Mode, obs: StatusObservation) -> RowStatus {
    match mode {
        Mode::Sync => sync_status_of(obs.stored, obs.source, obs.worktree),
        Mode::Copy => copy_status_of(obs.destination, obs.source, obs.worktree),
        Mode::Link => link_status_of(link_target(source_location(ctx, p), dest_location(w, p)), obs.destination),
        Mode::Ignore => if obs.destination is Missing {
            RowStatus::Uninitialized
        } else {
            RowStatus::Clean
        },
    }
}

pub fn status_row(
    ctx: &RepoContext,
    path: &ManagedPath,
    mode: Mode,
    worktree: &WorktreeInfo,
    obs: &StatusObservation,
) -> (row: StatusRow)
    ensures
        row.path@ == path.view(),
        row.worktree_id@ == worktree.id.view(),
        row.mode == mode,
        row.status == row_status_of(*ctx, path.view(), *worktree, mode, *obs),
{
    let status = match mode {
        Mode::Sync => sync_status(&obs.stored, &obs.source, &obs.worktree),
        Mode::Copy => copy_status(&obs.destination, &obs.source, &obs.worktree),
        Mode::Link => {
            let source = join_path(ctx.main_worktree.as_str(), path.as_str());
            let dest = join_path(worktree.path.as_str(), path.as_str());
            match relative_symlink_target(source.as_str(), dest.as_str()) {
                Ok(t) => link_status(Some(t.as_str()), &obs.destination),
                Err(_) => link_status(None, &obs.destination),
            }
        },
        Mode::Ignore => {
            let exists = match obs.destination {
                DestinationObservation::Missing => false,
                _ => true,
            };
            non_sync_status(exists)
        },
    };
    StatusRow { path: path.as_str().to_owned(), worktree_id: worktree.id.as_str().to_owned(), mode, status }
}

/// The state that `status` stores for a settled sync pair: clean, without a
/// conflict, with the current manifests as the new base.
pub open spec fn refreshed_state(st: PathState, cs: Manifest, cw: Manifest) -> PathState {
    PathState {
        status: PairStatus::Clean,
        conflict: None,
        source_manifest: Some(cs),
        worktree_manifest: Some(cw),
        ..st
    }
}

/// The stored state says less than a clean state with the current content.
pub open spec fn needs_refresh(st: PathState, cs: Manifest, cw: Manifest) -> bool {
    ||| st.status != PairStatus::Clean
    ||| !(st.source_manifest matches Some(m) && same_content(m, cs))
    ||| !(st.worktree_manifest matches Some(m) && same_content(m, cw))
}

/// The state `status` saves for one pair, if any: a sync pair that reads
/// clean gets its state refreshed to the current manifests (clearing a
/// recorded conflict) when the stored state does not already say so.
pub fn status_refresh(mode: Mode, obs: StatusObservation) -> (r: Option<PathState>)
    ensures
        r is Some <==> (mode == Mode::Sync && sync_status_of(obs.stored, obs.source, obs.worktree)
            == RowStatus::Clean && (obs.stored matches Some(st) && needs_refresh(st, obs.source, obs.worktree))),
        r matches Some(s) ==> (obs.stored matches Some(st) && s == refreshed_state(st, obs.source, obs.worktree)),
{
    if mode != Mode::Sync {
        return None;
    }
    let status = sync_status(&obs.stored, &obs.source, &obs.worktree);
    if status != RowStatus::Clean {
        return None;
    }
    let StatusObservation { destination: _, stored, source, worktree } = obs;
    match stored {
        None => None,
        Some(st) => {
            let source_same = match &st.source_manifest {
                Some(m) => m.has_same_content_identity(&source),
                None => false,
            };
            let worktree_same = match &st.worktree_manifest {
                Some(m) => m.has_same_content_identity(&worktree),
                None => false,
            };
            if st.status == PairStatus::Clean && source_same && worktree_same {
                None
            } else {
                Some(
                    PathState {
                        status: PairStatus::Clean,
                        conflict: None,
                        source_manifest: Some(source),
                        worktree_manifest: Some(worktree),
                        ..st
                    },
                )
            }
        },
    }
}

/// The rows of `wk status`: every configured path against every non-source
/// worktree, in configuration and worktree order. `observations` holds one
/// observation per pair, in that order; `None` when it holds another number.
pub fn status_rows(ctx: &RepoContext, config: &Config, observations: &Vec<StatusObservation>) -> (r: Option<Vec<StatusRow>>)
    ensures
        r is Some <==> observations@.len() == apply_pairs(*config, *ctx, ApplyTarget::All).len(),
        r matches Some(rows) ==> {
            let pairs = apply_pairs(*config, *ctx, ApplyTarget::All);
            &&& rows@.len() == pairs.len()
            &&& forall|i: int| 0 <= i < rows@.len() ==> {
                let pc = config.paths@[pairs[i].0];
                let row = #[trigger] rows@[i];
                &&& row.path@ == pc.path.view()
                &&& row.worktree_id@ == ctx.worktrees@[pairs[i].1].id.view()
                &&& row.mode == pc.mode
                &&& row.status == row_status_of(*ctx, pc.path.view(), ctx.worktrees@[pairs[i].1], pc.mode, observations@[i])
            }
        },
{
    let all = ApplyTarget::All;
    let pairs = select_apply_pairs(ctx, config, &all);
    let ghost spairs = apply_pairs(*config, *ctx, ApplyTarget::All);
    if observations.len() != pairs.len() {
        return None;
    }
    proof {
        lemma_apply_pairs_bounds(*config, *ctx, ApplyTarget::All);
    }
    let mut rows: Vec<StatusRow> = Vec::new();
    let mut k: usize = 0;
    while k < pairs.len()
        invariant
            pairs@.len() == spairs.len(),
            forall|i: int| 0 <= i < pairs@.len() ==> (#[trigger] pairs@[i]).0 as int == spairs[i].0
                && pairs@[i].1 as int == spairs[i].1,
            spairs == apply_pairs(*config, *ctx, ApplyTarget::All),
            forall|i: int| 0 <= i < spairs.len() ==> {
                let q = #[trigger] spairs[i];
                &&& 0 <= q.0 < config.paths@.len()
                &&& 0 <= q.1 < ctx.worktrees@.len()
            },
            observations@.len() == spairs.len(),
            k <= pairs@.len(),
            rows@.len() == k,
            forall|i: int| 0 <= i < k ==> {
                let pc = config.paths@[spairs[i].0];
                let row = #[trigger] rows@[i];
                &&& row.path@ == pc.path.view()
                &&& row.worktree_id@ == ctx.worktrees@[spairs[i].1].id.view()
                &&& row.mode == pc.mode
                &&& row.status == row_status_of(*ctx, pc.path.view(), ctx.worktrees@[spairs[i].1], pc.mode, observations@[i])
            },
        decreases pairs@.len() - k,
    {
        let (pi, wi) = pairs[k];
        proof {
            assert(pairs@[k as int].0 as int == spairs[k as int].0);
        }
        let pc = &config.paths[pi];
        let row = status_row(ctx, &pc.path, pc.mode, &ctx.worktrees[wi], &observations[k]);
        rows.push(row);
        k = k + 1;
    }
    Some(rows)
}

/// The text line of a row: path, worktree, mode and status, tab-separated.
pub fn status_line(row: &StatusRow) -> (s: String)
    ensures
        s@ == row.path@ + "\t"@ + row.worktree_id@ + "\t"@ + mode_label(row.mode) + "\t"@ + status_word(row.status),
{
    let head = cat4(row.path.as_str(), "\t", row.worktree_id.as_str(), "\t");
    cat4(head.as_str(), mode_label_text(row.mode), "\t", status_label(row.status))
}

pub open spec fn any_conflict_row(statuses: Seq<RowStatus>) -> bool {
    exists|i: int| 0 <= i < statuses.len() && statuses[i] == RowStatus::Conflict
}

pub open spec fn all_clean(statuses: Seq<RowStatus>) -> bool {
    forall|i: int| 0 <= i < statuses.len() ==> statuses[i] == RowStatus::Clean
}

/// The exit code of `wk status`: 2 when any row is in conflict, otherwise 1
/// when any row is not clean, otherwise 0.
pub fn exit_code(statuses: &Vec<RowStatus>) -> (code: u8)
    ensures
        code == (if any_conflict_row(statuses@) {
            2u8
        } else if !all_clean(statuses@) {
            1u8
        } else {
            0u8
        }),
{
    let mut conflict = false;
    let mut unclean = false;
    let mut i: usize = 0;
    while i < statuses.len()
        invariant
            i <= statuses@.len(),
            conflict <==> exists|j: int| 0 <= j < i && statuses@[j] == RowStatus::Conflict,
            unclean <==> exists|j: int| 0 <= j < i && statuses@[j] != RowStatus::Clean,
        decreases statuses@.len() - i,
    {
        if statuses[i] == RowStatus::Conflict {
            conflict = true;
        }
        if statuses[i] != RowStatus::Clean {
            unclean = true;
        }
        i = i + 1;
    }
    if conflict {
        2
    } else if unclean {
        1
    } else {
        0
    }
}

} // verus!
