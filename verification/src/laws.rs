//! Properties that span the library's functions, each proved over the spec
//! functions that their contracts use.
use vstd::prelude::*;

use crate::cli::Command;
use crate::commands::{ignores_control_dir, is_line, mutates};
use crate::domain::{
    first_segment_rejection, has_glob_meta_spec, segment_rejection, split_on_slash, valid_managed_path, ConflictPolicy, Mode,
};
use crate::drift::{classify_spec, DriftReport, EntryDrift};
use crate::fs_plan::{entry_location, entry_shape, overlay_shapes, record_shapes, shape, shapes, FsOp, OpShape};
use crate::manifest::{same_identity, same_opt_identity, EntryKind, ManifestEntry, PathSnapshot};
use crate::mode_plan::{
    transition_action, transition_line, worktree_transition_ok, DestState, TransitionAction, TransitionChoice,
    TransitionObservation,
};
use crate::config::{Config, PathConfig};
use crate::git_repo::{RepoContext, WorktreeInfo};
use crate::pathops::joined;
use crate::materialize::{
    apply_pairs, concat_ops, concat_summary, concatenates, dest_location, is_empty_plan, lemma_apply_pairs_bounds,
    link_plan_ok, path_apply_ok, targets, ApplyObservation, ApplyTarget, DestinationObservation, OperationPlan,
};
use crate::text::views;
use crate::state::{encoded, lemma_encoded_injective, PairStatus, PathState};
use crate::status::{settled, sync_status_of, RowStatus};
use crate::sync_plan::{
    acc_step, entry_action, key_depth, propagate, shape_path, should_backup, EntryAction, SyncAcc,
};
use crate::manifest::Manifest;

verus! {

/// An entry whose two sides both still match their last clean state has not
/// drifted.
pub proof fn law_untouched_entry_is_unchanged(
    base_source: Option<ManifestEntry>,
    base_worktree: Option<ManifestEntry>,
    current_source: Option<ManifestEntry>,
    current_worktree: Option<ManifestEntry>,
)
    requires
        same_opt_identity(current_source, base_source),
        same_opt_identity(current_worktree, base_worktree),
    ensures
        classify_spec(base_source, base_worktree, current_source, current_worktree) == EntryDrift::Unchanged,
{
}

/// When both sides changed to the same content, the entry has converged,
/// whatever the sizes and mtimes say.
pub proof fn law_identical_change_converges(
    base_source: Option<ManifestEntry>,
    base_worktree: Option<ManifestEntry>,
    current_source: Option<ManifestEntry>,
    current_worktree: Option<ManifestEntry>,
)
    requires
        !same_opt_identity(current_source, base_source),
        !same_opt_identity(current_worktree, base_worktree),
        same_opt_identity(current_source, current_worktree),
    ensures
        classify_spec(base_source, base_worktree, current_source, current_worktree)
            == EntryDrift::BothChangedIdentically,
{
}

/// The drift variant seen from the other side.
pub open spec fn mirrored(d: EntryDrift) -> EntryDrift {
    match d {
        EntryDrift::SourceAdded => EntryDrift::WorktreeAdded,
        EntryDrift::WorktreeAdded => EntryDrift::SourceAdded,
        EntryDrift::SourceModified => EntryDrift::WorktreeModified,
        EntryDrift::WorktreeModified => EntryDrift::SourceModified,
        EntryDrift::SourceDeleted => EntryDrift::WorktreeDeleted,
        EntryDrift::WorktreeDeleted => EntryDrift::SourceDeleted,
        other => other,
    }
}

/// Drift classification treats both sides alike: swapping the source and
/// the worktree swaps every one-sided variant and keeps the others.
pub proof fn law_drift_is_symmetric(
    base_source: Option<ManifestEntry>,
    base_worktree: Option<ManifestEntry>,
    current_source: Option<ManifestEntry>,
    current_worktree: Option<ManifestEntry>,
)
    ensures
        classify_spec(base_worktree, base_source, current_worktree, current_source) == mirrored(
            classify_spec(base_source, base_worktree, current_source, current_worktree),
        ),
{
}

/// A report with an entry in conflict is never clean after a refresh.
pub proof fn law_conflict_is_not_clean(report: DriftReport)
    requires
        report.conflicted(),
    ensures
        !report.clean_after_refresh(),
{
    let i = choose|i: int| 0 <= i < report.len_spec() && #[trigger] report.drift_at(i)
        == EntryDrift::BothChangedDifferently;
    assert(report.drift_at(i) == EntryDrift::BothChangedDifferently);
}

/// Content identity ignores size and mtime, and is an equivalence.
pub proof fn law_content_identity(a: ManifestEntry, b: ManifestEntry, c: ManifestEntry, size: u64, mtime: i128)
    ensures
        same_identity(a, ManifestEntry { size, mtime, ..a }),
        same_identity(a, a),
        same_identity(a, b) ==> same_identity(b, a),
        same_identity(a, b) && same_identity(b, c) ==> same_identity(a, c),
{
}

/// Under the `ask` policy an entry changed differently on both sides gets no
/// operation at all: it is only recorded as a conflict and warned about.
pub proof fn law_ask_leaves_conflicts_untouched(
    acc: SyncAcc,
    k: Seq<char>,
    current_source: Manifest,
    current_worktree: Manifest,
    source_root: Seq<char>,
    worktree_root: Seq<char>,
)
    ensures
        ({
            let next = acc_step(
                acc,
                k,
                EntryDrift::BothChangedDifferently,
                ConflictPolicy::Ask,
                current_source,
                current_worktree,
                source_root,
                worktree_root,
            );
            &&& next.copies == acc.copies
            &&& next.removals == acc.removals
            &&& next.conflicts == acc.conflicts.push(k)
        }),
{
}

/// The `source` and `worktree` policies resolve every conflict toward their
/// side.
pub proof fn law_side_policies_resolve(cs: Option<ManifestEntry>, cw: Option<ManifestEntry>)
    ensures
        entry_action(EntryDrift::BothChangedDifferently, ConflictPolicy::Source, cs, cw) == EntryAction::ToWorktree,
        entry_action(EntryDrift::BothChangedDifferently, ConflictPolicy::Worktree, cs, cw) == EntryAction::ToSource,
{
}

/// A pair whose state records a conflict stays in conflict until both sides
/// settle (every path unchanged or converged to identical content); then it
/// reads clean.
pub proof fn law_recorded_conflict_persists(st: PathState, cs: Manifest, cw: Manifest)
    requires
        st.status == PairStatus::Conflict,
    ensures
        sync_status_of(Some(st), cs, cw) == (if settled(st, cs, cw) {
            RowStatus::Clean
        } else {
            RowStatus::Conflict
        }),
{
}

/// An overlay copy only creates directories and copies entries: it never
/// removes or backs up anything at the destination.
pub proof fn law_overlay_never_removes(src: Seq<char>, dst: Seq<char>, snap: PathSnapshot)
    ensures
        forall|i: int| 0 <= i < overlay_shapes(src, dst, snap).len() ==> {
            let op = #[trigger] overlay_shapes(src, dst, snap)[i];
            op is CreateDir || op is CopyFile || op is CopySymlink
        },
{
    let recs = snap.manifest.records();
    assert forall|i: int| 0 <= i < record_shapes(recs, src, dst).len() implies {
        let op = #[trigger] record_shapes(recs, src, dst)[i];
        op is CreateDir || op is CopyFile || op is CopySymlink
    } by {
        assert(record_shapes(recs, src, dst)[i] == entry_shape(
            recs[i].1,
            crate::pathops::joined(src, recs[i].0@),
            crate::pathops::joined(dst, recs[i].0@),
        ));
    }
    match snap.root {
        Some(crate::manifest::EntryKind::Directory) => {
            let all = overlay_shapes(src, dst, snap);
            assert forall|i: int| 0 <= i < all.len() implies {
                let op = #[trigger] all[i];
                op is CreateDir || op is CopyFile || op is CopySymlink
            } by {
                if i > 0 {
                    assert(all[i] == record_shapes(recs, src, dst)[i - 1]);
                }
            }
        },
        _ => {},
    }
}

/// Choosing `skip` leaves a worktree as it is, whatever the transition.
pub proof fn law_skip_does_nothing(current: Mode, target: Mode, dest: DestState, unchanged: bool)
    ensures
        transition_action(current, target, TransitionChoice::Skip, dest, unchanged) == TransitionAction::Nothing,
{
}

/// By default a transition never overwrites an existing destination: it
/// copies nothing over it and imports nothing from it, and replaces it with a
/// link only when it is a sync copy unchanged since the last sync.
pub proof fn law_default_keeps_existing_content(current: Mode, target: Mode, unchanged: bool)
    ensures
        ({
            let a = transition_action(current, target, TransitionChoice::Default, DestState::Present, unchanged);
            &&& a != TransitionAction::ReplaceFromSource
            &&& a != TransitionAction::StartSyncFromSource
            &&& a != TransitionAction::StartSyncFromWorktree
            &&& a != TransitionAction::ImportThenLink
            &&& (a == TransitionAction::ReplaceWithLink ==> current == Mode::Sync && unchanged)
        }),
{
}

/// Leaving `sync` for `copy`, or any mode for `ignore`, keeps every file and
/// only forgets the pair's state (unless the worktree is skipped).
pub proof fn law_leaving_keeps_files(current: Mode, choice: TransitionChoice, dest: DestState, unchanged: bool)
    requires
        choice != TransitionChoice::Skip,
    ensures
        transition_action(Mode::Sync, Mode::Copy, choice, dest, unchanged) == TransitionAction::ForgetState,
        transition_action(current, Mode::Ignore, choice, dest, unchanged) == TransitionAction::ForgetState,
{
}

/// `status` never takes the mutation lock, and a dry run takes it only for
/// the commands that always write configuration or state.
pub proof fn law_read_only_commands(command: Command, dry_run: bool)
    ensures
        command is Status ==> !mutates(command, dry_run),
        mutates(command, true) ==> command is Init || command is Add || command is Prune,
{
}


/// Every worktree's part of a mode change opens with the line naming the
/// transition.
pub proof fn law_transition_is_announced(
    part: OperationPlan,
    ctx: RepoContext,
    p: Seq<char>,
    w: WorktreeInfo,
    current: Mode,
    target: Mode,
    choice: TransitionChoice,
    obs: TransitionObservation,
)
    requires
        worktree_transition_ok(part, ctx, p, w, current, target, choice, obs),
    ensures
        part.summary@.len() >= 1,
        part.summary@[0]@ == transition_line(p, current, target),
{
    let rest = choose|rest: OperationPlan|
        {
            &&& #[trigger] crate::mode_plan::action_plan_ok(
                rest,
                crate::mode_plan::worktree_action(ctx, p, w, current, target, choice, obs),
                ctx,
                p,
                w,
                obs,
                crate::mode_plan::target_or_empty(crate::mode_plan::transition_link_target(ctx, p, w, current, target)),
                current,
            )
            &&& views(part.summary@) == seq![transition_line(p, current, target)] + views(rest.summary@)
            &&& part.fs_ops@ == rest.fs_ops@
            &&& part.state_updates@ == rest.state_updates@
            &&& part.warnings@ == rest.warnings@
        };
    assert(views(part.summary@).len() == part.summary@.len());
    assert(views(part.summary@)[0] == part.summary@[0]@);
}

/// A plan made of parts that each open with a summary line has at least one
/// summary line per part: a mode change reports every destination worktree.
pub proof fn law_one_line_per_part(parts: Seq<OperationPlan>)
    requires
        forall|i: int| 0 <= i < parts.len() ==> (#[trigger] parts[i]).summary@.len() >= 1,
    ensures
        concat_summary(parts).len() >= parts.len(),
    decreases parts.len(),
{
    if parts.len() > 0 {
        let init = parts.drop_last();
        assert forall|i: int| 0 <= i < init.len() implies (#[trigger] init[i]).summary@.len() >= 1 by {
            assert(init[i] == parts[i]);
        }
        law_one_line_per_part(init);
        assert(parts.last().summary@.len() >= 1);
    }
}
/// State is kept per managed path: two different paths never share a state
/// file name.
pub proof fn law_state_file_names_distinct(a: Seq<char>, b: Seq<char>)
    requires
        a != b,
    ensures
        encoded(a) + ".json"@ != encoded(b) + ".json"@,
{
    reveal_strlit(".json");
    if encoded(a) + ".json"@ == encoded(b) + ".json"@ {
        let x = encoded(a) + ".json"@;
        assert(encoded(a) =~= x.subrange(0, x.len() - 5));
        assert(encoded(b) =~= x.subrange(0, x.len() - 5));
        lemma_encoded_injective(a, b);
    }
}

/// A segment a managed path may hold: not empty, not `.` or `..`, not
/// `.git` or `.wk`.
pub open spec fn acceptable_segment(g: Seq<char>) -> bool {
    g.len() > 0 && g != "."@ && g != ".."@ && g != ".git"@ && g != ".wk"@
}

proof fn lemma_no_segment_rejection(segs: Seq<Seq<char>>)
    ensures
        first_segment_rejection(segs) is None <==> forall|i: int| 0 <= i < segs.len() ==> acceptable_segment(
            #[trigger] segs[i],
        ),
    decreases segs.len(),
{
    if segs.len() > 0 {
        let init = segs.drop_last();
        lemma_no_segment_rejection(init);
        assert forall|i: int| 0 <= i < init.len() implies init[i] == segs[i] by {}
        if first_segment_rejection(segs) is None {
            assert forall|i: int| 0 <= i < segs.len() implies acceptable_segment(#[trigger] segs[i]) by {
                if i < init.len() {
                    assert(acceptable_segment(init[i]));
                }
            }
        }
        if forall|i: int| 0 <= i < segs.len() ==> acceptable_segment(#[trigger] segs[i]) {
            assert forall|i: int| 0 <= i < init.len() implies acceptable_segment(#[trigger] init[i]) by {
                assert(acceptable_segment(segs[i]));
            }
            assert(acceptable_segment(segs[segs.len() - 1]));
            assert(segment_rejection(segs.last()) is None);
        }
    }
}

/// A managed path is accepted exactly when it is not empty, holds no glob
/// character, and every `/`-separated segment is acceptable (so it neither
/// starts nor ends with `/`, and has no `//`, `.`, `..`, `.git` or `.wk`).
pub proof fn law_managed_path_rules(s: Seq<char>)
    ensures
        valid_managed_path(s) <==> s.len() > 0 && !has_glob_meta_spec(s) && forall|i: int|
            0 <= i < split_on_slash(s).len() ==> acceptable_segment(#[trigger] split_on_slash(s)[i]),
{
    lemma_no_segment_rejection(split_on_slash(s));
}

/// Ignoring the control directory is idempotent: the text that
/// `with_control_dir_ignore` gives already ignores `.wk/`, so a second call
/// leaves it unchanged.
pub proof fn law_control_dir_ignore_idempotent(existing: Seq<char>)
    ensures
        ignores_control_dir(
            existing + (if existing.len() > 0 && existing.last() != '\n' {
                "\n"@
            } else {
                Seq::empty()
            }) + ".wk/\n"@,
        ),
{
    reveal_strlit("\n");
    reveal_strlit(".wk/\n");
    reveal_strlit(".wk/");
    let sep: Seq<char> = if existing.len() > 0 && existing.last() != '\n' {
        "\n"@
    } else {
        Seq::empty()
    };
    let next = existing + sep + ".wk/\n"@;
    let a = (existing.len() + sep.len()) as int;
    let b = a + 4;
    assert(next.len() == a + 5);
    assert(next[b] == '\n');
    if a > 0 {
        if sep.len() == 1 {
            assert(next[a - 1] == '\n');
        } else {
            assert(next[a - 1] == existing.last());
        }
    }
    assert(next.subrange(a, b) =~= ".wk/"@);
    assert forall|k: int| a <= k < b implies next[k] != '\n' by {
        assert(next[k] == ".wk/"@[k - a]);
    }
    crate::pathops::lemma_printable_untrimmed(".wk/"@);
    assert(is_line(next, a, b));
}

/// Where part `i` of a concatenated plan starts in its summary.
pub open spec fn part_start(parts: Seq<OperationPlan>, i: int) -> int {
    concat_summary(parts.take(i)).len() as int
}

/// The summary of the concatenated parts holds `line` where part `i` starts.
pub open spec fn announced_at(parts: Seq<OperationPlan>, i: int, line: Seq<char>) -> bool {
    part_start(parts, i) < concat_summary(parts).len() && concat_summary(parts)[part_start(parts, i)]@ == line
}

/// When every part opens with `line`, the concatenated summary holds `line`
/// at the start of every part.
pub proof fn law_every_part_announced(parts: Seq<OperationPlan>, line: Seq<char>)
    requires
        forall|i: int| 0 <= i < parts.len() ==> (#[trigger] parts[i]).summary@.len() >= 1 && parts[i].summary@[0]@ == line,
    ensures
        forall|i: int| 0 <= i < parts.len() ==> #[trigger] announced_at(parts, i, line),
    decreases parts.len(),
{
    if parts.len() > 0 {
        let init = parts.drop_last();
        assert forall|i: int| 0 <= i < init.len() implies (#[trigger] init[i]).summary@.len() >= 1
            && init[i].summary@[0]@ == line by {
            assert(init[i] == parts[i]);
        }
        law_every_part_announced(init, line);
        assert forall|i: int| 0 <= i < parts.len() implies #[trigger] announced_at(parts, i, line) by {
            let whole = concat_summary(parts);
            let head = concat_summary(init);
            assert(parts.drop_last() == init);
            assert(whole == head + parts.last().summary@);
            if i < init.len() {
                assert(parts.take(i) =~= init.take(i));
                assert(part_start(parts, i) == part_start(init, i));
                let k = part_start(init, i);
                assert(announced_at(init, i, line));
                assert(head[k]@ == line);
                assert(whole[k] == head[k]);
            } else {
                assert(parts.take(i) =~= init);
                assert(part_start(parts, i) == head.len());
                assert(parts[parts.len() - 1].summary@.len() >= 1);
                assert(parts.last().summary@[0]@ == line);
                assert(whole[head.len() as int] == parts.last().summary@[0]);
            }
        }
    }
}

/// A mode change announces itself in every destination worktree: each
/// worktree's part of the plan opens with the line naming the transition.
pub proof fn law_mode_change_announced(
    parts: Seq<OperationPlan>,
    ctx: RepoContext,
    p: Seq<char>,
    ws: Seq<WorktreeInfo>,
    current: Mode,
    target: Mode,
    choice: TransitionChoice,
    obs: Seq<TransitionObservation>,
)
    requires
        parts.len() == ws.len(),
        parts.len() == obs.len(),
        forall|i: int| 0 <= i < parts.len() ==> #[trigger] worktree_transition_ok(
            parts[i],
            ctx,
            p,
            ws[i],
            current,
            target,
            choice,
            obs[i],
        ),
    ensures
        forall|i: int| 0 <= i < parts.len() ==> #[trigger] announced_at(parts, i, transition_line(p, current, target)),
{
    assert forall|i: int| 0 <= i < parts.len() implies (#[trigger] parts[i]).summary@.len() >= 1
        && parts[i].summary@[0]@ == transition_line(p, current, target) by {
        assert(worktree_transition_ok(parts[i], ctx, p, ws[i], current, target, choice, obs[i]));
        law_transition_is_announced(parts[i], ctx, p, ws[i], current, target, choice, obs[i]);
    }
    law_every_part_announced(parts, transition_line(p, current, target));
}

/// Sync never deletes without a backup: when one side of an entry is gone,
/// the other side's entry is moved to the backups; when an entry is copied
/// over one that is not a directory on both sides, the old entry is backed up
/// first; and no plain removal is ever planned.
pub proof fn law_sync_never_deletes_without_backup(
    acc: SyncAcc,
    from: Option<ManifestEntry>,
    to: Option<ManifestEntry>,
    from_root: Seq<char>,
    to_root: Seq<char>,
    k: Seq<char>,
)
    ensures
        ({
            let after = propagate(acc, from, to, from_root, to_root, k);
            let dst = entry_location(to_root, k);
            &&& from is None && to is Some ==> after.copies == acc.copies && after.removals == acc.removals.push(
                (key_depth(dst), OpShape::Backup(dst)),
            )
            &&& from is None && to is None ==> after == acc
            &&& (from matches Some(e) && to matches Some(d) && should_backup(e, d)) ==> after.copies == acc.copies
                + seq![OpShape::Backup(dst), entry_shape(from->0, entry_location(from_root, k), dst)]
            &&& after.copies.len() >= acc.copies.len()
            &&& after.removals.len() >= acc.removals.len()
            &&& forall|i: int| acc.copies.len() <= i < after.copies.len() ==> !(#[trigger] after.copies[i] is RemoveFile)
                && !(after.copies[i] is RemoveEmptyDir)
            &&& forall|i: int| acc.removals.len() <= i < after.removals.len() ==> (#[trigger] after.removals[i]).1
                is Backup
        }),
{
    let after = propagate(acc, from, to, from_root, to_root, k);
    let dst = entry_location(to_root, k);
    match from {
        Some(e) => {
            assert(after.removals == acc.removals);
            assert forall|i: int| acc.copies.len() <= i < after.copies.len() implies !(#[trigger] after.copies[i] is RemoveFile)
                && !(after.copies[i] is RemoveEmptyDir) by {
                let extra: Seq<OpShape> = if to is Some && should_backup(e, to->0) {
                    seq![OpShape::Backup(dst)]
                } else {
                    Seq::empty()
                };
                assert(after.copies == acc.copies + extra + seq![entry_shape(e, entry_location(from_root, k), dst)]);
                if i < acc.copies.len() + extra.len() {
                    assert(after.copies[i] == extra[i - acc.copies.len()]);
                } else {
                    assert(after.copies[i] == entry_shape(e, entry_location(from_root, k), dst));
                }
            }
            if to is Some && should_backup(e, to->0) {
                assert(after.copies =~= acc.copies + seq![OpShape::Backup(dst), entry_shape(e, entry_location(from_root, k), dst)]);
            }
        },
        None => {
            if to is Some {
                assert(after.removals =~= acc.removals.push((key_depth(dst), OpShape::Backup(dst))));
            } else {
                assert(after.removals =~= acc.removals);
                assert(after == acc);
            }
        },
    }
}

/// A correct link is left alone: the plan that makes a link writes the very
/// target that a later plan expects, and once the destination is that link a
/// second plan does nothing.
pub proof fn law_link_plan_settles(
    first: OperationPlan,
    second: OperationPlan,
    t: Seq<char>,
    dst: Seq<char>,
    p: Seq<char>,
    id: Seq<char>,
    dest: DestinationObservation,
    stored: Option<PathState>,
    actual: String,
    later_stored: Option<PathState>,
)
    requires
        link_plan_ok(first, t, dst, p, id, dest, stored),
        actual@ == t,
        link_plan_ok(second, t, dst, p, id, DestinationObservation::Symlink(actual), later_stored),
    ensures
        forall|i: int| 0 <= i < first.fs_ops@.len() ==> (#[trigger] first.fs_ops@[i] matches FsOp::CopySymlink {
            target,
            dest,
            ..
        } && target@ == t && dest@ == dst),
        is_empty_plan(second),
{
}

/// An operation works on the destination `dst` itself or on a path joined
/// below it.
pub open spec fn at_destination(s: OpShape, dst: Seq<char>) -> bool {
    shape_path(s) == dst || exists|k: Seq<char>| shape_path(s) == #[trigger] joined(dst, k)
}

proof fn lemma_entry_shape_path(e: ManifestEntry, src: Seq<char>, dst: Seq<char>)
    ensures
        shape_path(entry_shape(e, src, dst)) == dst,
{
}

proof fn lemma_part_at_destination(part: OperationPlan, ctx: RepoContext, pc: PathConfig, w: WorktreeInfo, obs: ApplyObservation)
    requires
        path_apply_ok(part, ctx, pc, w, obs),
    ensures
        forall|j: int| 0 <= j < part.fs_ops@.len() ==> at_destination(
            shape(#[trigger] part.fs_ops@[j]),
            dest_location(w, pc.path.view()),
        ),
{
    let p = pc.path.view();
    let src = crate::materialize::source_location(ctx, p);
    let dst = dest_location(w, p);
    assert forall|j: int| 0 <= j < part.fs_ops@.len() implies at_destination(shape(#[trigger] part.fs_ops@[j]), dst) by {
        assert(shapes(part.fs_ops@)[j] == shape(part.fs_ops@[j]));
        if (pc.mode == Mode::Copy || pc.mode == Mode::Sync) && obs.destination is Missing {
            let snap = obs.source;
            assert(shapes(part.fs_ops@) == overlay_shapes(src, dst, snap));
            match snap.root {
                Some(EntryKind::Directory) => {
                    if j > 0 {
                        let recs = snap.manifest.records();
                        let r = recs[j - 1];
                        assert(overlay_shapes(src, dst, snap)[j] == record_shapes(recs, src, dst)[j - 1]);
                        lemma_entry_shape_path(r.1, joined(src, r.0@), joined(dst, r.0@));
                        assert(shape_path(shape(part.fs_ops@[j])) == joined(dst, r.0@));
                    }
                },
                Some(_) => {
                    lemma_entry_shape_path(snap.manifest.lookup(Seq::empty())->0, src, dst);
                },
                None => {},
            }
        }
    }
}

proof fn lemma_concat_ops_from_part(parts: Seq<OperationPlan>, j: int)
    requires
        0 <= j < concat_ops(parts).len(),
    ensures
        exists|i: int, jj: int|
            0 <= i < parts.len() && 0 <= jj < parts[i].fs_ops@.len() && concat_ops(parts)[j] == #[trigger] parts[i].fs_ops@[jj],
    decreases parts.len(),
{
    let init = parts.drop_last();
    assert(concat_ops(parts) == concat_ops(init) + parts.last().fs_ops@);
    if j < concat_ops(init).len() {
        lemma_concat_ops_from_part(init, j);
        let (i, jj) = choose|i: int, jj: int|
            0 <= i < init.len() && 0 <= jj < init[i].fs_ops@.len() && concat_ops(init)[j] == #[trigger] init[i].fs_ops@[jj];
        assert(init[i] == parts[i]);
        assert(concat_ops(parts)[j] == parts[i].fs_ops@[jj]);
    } else {
        let jj = j - concat_ops(init).len();
        assert(concat_ops(parts)[j] == parts[parts.len() - 1].fs_ops@[jj]);
    }
}

/// The operation works at the destination of some configured path in some
/// targeted non-source worktree.
pub open spec fn in_some_destination(s: OpShape, ctx: RepoContext, config: Config, target: ApplyTarget) -> bool {
    exists|w: int, q: int|
        0 <= w < ctx.worktrees@.len() && !ctx.worktrees@[w].is_source && targets(target, ctx.worktrees@[w].id.view())
            && 0 <= q < config.paths@.len() && #[trigger] at_destination(
            s,
            dest_location(ctx.worktrees@[w], config.paths@[q].path.view()),
        )
}

/// An apply plan stays inside the destination worktrees: every operation
/// works at the destination of the managed path in some targeted non-source
/// worktree, never in the source worktree.
pub proof fn law_apply_stays_in_destinations(
    plan: OperationPlan,
    parts: Seq<OperationPlan>,
    ctx: RepoContext,
    config: Config,
    target: ApplyTarget,
    observations: Seq<ApplyObservation>,
)
    requires
        parts.len() == apply_pairs(config, ctx, target).len(),
        observations.len() == parts.len(),
        concatenates(plan, Seq::empty(), parts),
        forall|i: int| 0 <= i < parts.len() ==> #[trigger] path_apply_ok(
            parts[i],
            ctx,
            config.paths@[apply_pairs(config, ctx, target)[i].0],
            ctx.worktrees@[apply_pairs(config, ctx, target)[i].1],
            observations[i],
        ),
    ensures
        forall|j: int| 0 <= j < plan.fs_ops@.len() ==> #[trigger] in_some_destination(shape(plan.fs_ops@[j]), ctx, config, target),
{
    let pairs = apply_pairs(config, ctx, target);
    lemma_apply_pairs_bounds(config, ctx, target);
    assert forall|j: int| 0 <= j < plan.fs_ops@.len() implies #[trigger] in_some_destination(shape(plan.fs_ops@[j]), ctx, config, target) by {
        lemma_concat_ops_from_part(parts, j);
        let (i, jj) = choose|i: int, jj: int|
            0 <= i < parts.len() && 0 <= jj < parts[i].fs_ops@.len() && concat_ops(parts)[j] == #[trigger] parts[i].fs_ops@[jj];
        let q = pairs[i];
        assert(path_apply_ok(parts[i], ctx, config.paths@[q.0], ctx.worktrees@[q.1], observations[i]));
        lemma_part_at_destination(parts[i], ctx, config.paths@[q.0], ctx.worktrees@[q.1], observations[i]);
        assert(at_destination(shape(parts[i].fs_ops@[jj]), dest_location(ctx.worktrees@[q.1], config.paths@[q.0].path.view())));
        assert(plan.fs_ops@[j] == parts[i].fs_ops@[jj]);
        assert(at_destination(shape(plan.fs_ops@[j]), dest_location(ctx.worktrees@[q.1], config.paths@[q.0].path.view())));
    }
}

/// A change made on one side only is carried to the other side, whatever
/// the conflict policy: when only the worktree changed an entry that it still
/// has, the sync copies the worktree entry onto the source (backing up the
/// source entry it replaces) and plans nothing at the worktree; when only the
/// source changed, it copies the source entry onto the worktree.
pub proof fn law_one_sided_change_is_carried_over(
    acc: SyncAcc,
    k: Seq<char>,
    policy: ConflictPolicy,
    base_source: Option<ManifestEntry>,
    base_worktree: Option<ManifestEntry>,
    current_source: Manifest,
    current_worktree: Manifest,
    source_root: Seq<char>,
    worktree_root: Seq<char>,
)
    ensures
        ({
            let cs = current_source.lookup(k);
            let cw = current_worktree.lookup(k);
            let d = classify_spec(base_source, base_worktree, cs, cw);
            let after = acc_step(acc, k, d, policy, current_source, current_worktree, source_root, worktree_root);
            let src = entry_location(source_root, k);
            let wt = entry_location(worktree_root, k);
            same_opt_identity(cs, base_source) && !same_opt_identity(cw, base_worktree) && cw is Some ==> {
                &&& after.copies == acc.copies + (if cs is Some && should_backup(cw->0, cs->0) {
                    seq![OpShape::Backup(src)]
                } else {
                    Seq::<OpShape>::empty()
                }) + seq![entry_shape(cw->0, wt, src)]
                &&& after.removals == acc.removals
                &&& after.conflicts == acc.conflicts
            }
        }),
        ({
            let cs = current_source.lookup(k);
            let cw = current_worktree.lookup(k);
            let d = classify_spec(base_source, base_worktree, cs, cw);
            let after = acc_step(acc, k, d, policy, current_source, current_worktree, source_root, worktree_root);
            let src = entry_location(source_root, k);
            let wt = entry_location(worktree_root, k);
            same_opt_identity(cw, base_worktree) && !same_opt_identity(cs, base_source) && cs is Some ==> {
                &&& after.copies == acc.copies + (if cw is Some && should_backup(cs->0, cw->0) {
                    seq![OpShape::Backup(wt)]
                } else {
                    Seq::<OpShape>::empty()
                }) + seq![entry_shape(cs->0, src, wt)]
                &&& after.removals == acc.removals
                &&& after.conflicts == acc.conflicts
            }
        }),
        ({
            let cs = current_source.lookup(k);
            let cw = current_worktree.lookup(k);
            let d = classify_spec(base_source, base_worktree, cs, cw);
            let after = acc_step(acc, k, d, policy, current_source, current_worktree, source_root, worktree_root);
            let src = entry_location(source_root, k);
            let wt = entry_location(worktree_root, k);
            &&& same_opt_identity(cs, base_source) && !same_opt_identity(cw, base_worktree) && cw is None && cs is Some
                ==> after.copies == acc.copies && after.conflicts == acc.conflicts && after.removals == acc.removals.push(
                (key_depth(src), OpShape::Backup(src)),
            )
            &&& same_opt_identity(cw, base_worktree) && !same_opt_identity(cs, base_source) && cs is None && cw is Some
                ==> after.copies == acc.copies && after.conflicts == acc.conflicts && after.removals == acc.removals.push(
                (key_depth(wt), OpShape::Backup(wt)),
            )
        }),
{
}

/// Changing a path that is not synced to `copy` (unless the worktree is
/// skipped) fills a missing destination with the overlay copy of the
/// source: the worktree's part names the transition and then copies every
/// source entry into the destination.
pub proof fn law_copy_mode_fills_missing_destination(
    part: OperationPlan,
    ctx: RepoContext,
    p: Seq<char>,
    w: WorktreeInfo,
    current: Mode,
    choice: TransitionChoice,
    obs: TransitionObservation,
)
    requires
        current != Mode::Sync,
        choice != TransitionChoice::Skip,
        obs.destination is Missing,
        worktree_transition_ok(part, ctx, p, w, current, Mode::Copy, choice, obs),
    ensures
        shapes(part.fs_ops@) == overlay_shapes(
            crate::materialize::source_location(ctx, p),
            dest_location(w, p),
            obs.source,
        ),
        views(part.summary@) == seq![
            transition_line(p, current, Mode::Copy),
            "overlay copy "@ + crate::materialize::source_location(ctx, p) + " -> "@ + dest_location(w, p),
        ],
        obs.source.root is Some ==> part.fs_ops@.len() >= 1,
{
    let src = crate::materialize::source_location(ctx, p);
    let dst = dest_location(w, p);
    let rest = choose|rest: OperationPlan|
        {
            &&& #[trigger] crate::mode_plan::action_plan_ok(
                rest,
                crate::mode_plan::worktree_action(ctx, p, w, current, Mode::Copy, choice, obs),
                ctx,
                p,
                w,
                obs,
                crate::mode_plan::target_or_empty(crate::mode_plan::transition_link_target(ctx, p, w, current, Mode::Copy)),
                current,
            )
            &&& views(part.summary@) == seq![transition_line(p, current, Mode::Copy)] + views(rest.summary@)
            &&& part.fs_ops@ == rest.fs_ops@
            &&& part.state_updates@ == rest.state_updates@
            &&& part.warnings@ == rest.warnings@
        };
    assert(crate::mode_plan::worktree_action(ctx, p, w, current, Mode::Copy, choice, obs)
        == crate::mode_plan::TransitionAction::CopyFromSource);
    assert(crate::materialize::overlay_plan_ok(rest, src, dst, obs.source));
    assert(views(part.summary@) =~= seq![transition_line(p, current, Mode::Copy), "overlay copy "@ + src + " -> "@ + dst]);
    if obs.source.root is Some {
        assert(shapes(part.fs_ops@).len() >= 1);
    }
}

/// `apply` fills a missing destination of a copied or synced path with the
/// overlay copy of the source, and links a missing destination of a linked
/// path: an existing source never leaves the destination empty.
pub proof fn law_apply_fills_missing_destination(
    part: OperationPlan,
    ctx: RepoContext,
    pc: PathConfig,
    w: WorktreeInfo,
    obs: ApplyObservation,
)
    requires
        obs.destination is Missing,
        path_apply_ok(part, ctx, pc, w, obs),
    ensures
        (pc.mode == Mode::Copy || pc.mode == Mode::Sync) ==> shapes(part.fs_ops@) == overlay_shapes(
            crate::materialize::source_location(ctx, pc.path.view()),
            dest_location(w, pc.path.view()),
            obs.source,
        ),
        (pc.mode == Mode::Copy || pc.mode == Mode::Sync) && obs.source.root is Some ==> part.fs_ops@.len() >= 1,
        pc.mode == Mode::Link ==> part.fs_ops@.len() == 1 && (part.fs_ops@[0] matches FsOp::CopySymlink { dest, .. }
            && dest@ == dest_location(w, pc.path.view())),
{
    if (pc.mode == Mode::Copy || pc.mode == Mode::Sync) && obs.source.root is Some {
        assert(shapes(part.fs_ops@).len() >= 1);
    }
}

/// A link row is clean exactly when the destination is a symlink to the
/// target that `apply` would create, and a copy row exactly when the
/// destination holds the source's content; a wrong link or a differing copy
/// is drift.
pub proof fn law_link_and_copy_rows_check_their_destination(
    ctx: RepoContext,
    p: Seq<char>,
    w: WorktreeInfo,
    obs: crate::status::StatusObservation,
)
    ensures
        (obs.destination matches DestinationObservation::Symlink(actual)) ==> (crate::status::row_status_of(
            ctx,
            p,
            w,
            Mode::Link,
            obs,
        ) == RowStatus::Clean <==> crate::materialize::link_target(
            crate::materialize::source_location(ctx, p),
            dest_location(w, p),
        ) == Some(obs.destination->Symlink_0@)),
        obs.destination is Other ==> crate::status::row_status_of(ctx, p, w, Mode::Link, obs) == RowStatus::Drift,
        !(obs.destination is Missing) ==> (crate::status::row_status_of(ctx, p, w, Mode::Copy, obs) == if crate::manifest::same_content(
            obs.worktree,
            obs.source,
        ) {
            RowStatus::Clean
        } else {
            RowStatus::Drift
        }),
{
}

/// A path that is not synced reads clean only when its destination exists:
/// a missing destination is uninitialized, so `status` never exits 0 for it.
pub proof fn law_missing_destination_is_not_clean(
    ctx: RepoContext,
    p: Seq<char>,
    w: WorktreeInfo,
    mode: Mode,
    obs: crate::status::StatusObservation,
)
    requires
        mode != Mode::Sync,
        obs.destination is Missing,
    ensures
        crate::status::row_status_of(ctx, p, w, mode, obs) == RowStatus::Uninitialized,
        !crate::status::all_clean(seq![crate::status::row_status_of(ctx, p, w, mode, obs)]),
{
    assert(seq![crate::status::row_status_of(ctx, p, w, mode, obs)][0] != RowStatus::Clean);
}

/// Without `--force`, discovery offers only candidates that exist and that
/// git ignores: every offered name is the name of such a candidate.
pub proof fn law_unforced_discovery_offers_only_ignored(
    names: Seq<Seq<char>>,
    obs: Seq<crate::discovery::CandidateObservation>,
    from: int,
)
    requires
        obs.len() == names.len(),
        0 <= from,
    ensures
        forall|x: Seq<char>| #[trigger] crate::discovery::offered(names, obs, false, from).contains(x) ==> exists|j: int|
            from <= j < names.len() && names[j] == x && obs[j].exists && obs[j].ignored,
    decreases names.len() - from,
{
    if from < names.len() {
        law_unforced_discovery_offers_only_ignored(names, obs, from + 1);
        let rest = crate::discovery::offered(names, obs, false, from + 1);
        let head: Seq<Seq<char>> = if obs[from].exists && obs[from].ignored {
            seq![names[from]]
        } else {
            Seq::empty()
        };
        assert(crate::discovery::offered(names, obs, false, from) == head + rest);
        assert forall|x: Seq<char>| #[trigger] crate::discovery::offered(names, obs, false, from).contains(x) implies exists|j: int|
            from <= j < names.len() && names[j] == x && obs[j].exists && obs[j].ignored by {
            let all = crate::discovery::offered(names, obs, false, from);
            let i = choose|i: int| 0 <= i < all.len() && all[i] == x;
            if i < head.len() {
                assert(x == names[from]);
            } else {
                assert(rest[i - head.len()] == x);
                assert(rest.contains(x));
            }
        }
    }
}

/// A missing destination is materialized by a change to `link` or `sync`
/// (unless the worktree is skipped): to `link`, the part creates the link to
/// the expected target; to `sync`, it copies the source into the destination
/// and records the pair clean with the source manifest on both sides.
pub proof fn law_mode_change_materializes_missing_destination(
    part: OperationPlan,
    ctx: RepoContext,
    p: Seq<char>,
    w: WorktreeInfo,
    current: Mode,
    target: Mode,
    choice: TransitionChoice,
    obs: TransitionObservation,
)
    requires
        choice != TransitionChoice::Skip,
        obs.destination is Missing,
        worktree_transition_ok(part, ctx, p, w, current, target, choice, obs),
    ensures
        target == Mode::Link ==> part.fs_ops@.len() == 1 && (part.fs_ops@[0] matches FsOp::CopySymlink { target: t, dest, .. }
            && dest@ == dest_location(w, p) && t@ == crate::mode_plan::target_or_empty(crate::materialize::link_target(
            crate::materialize::source_location(ctx, p),
            dest_location(w, p),
        ))),
        target == Mode::Sync ==> (exists|pre: Seq<OpShape>| shapes(part.fs_ops@) == pre + overlay_shapes(
            crate::materialize::source_location(ctx, p),
            dest_location(w, p),
            obs.source,
        )) && part.state_updates@.len() == 1 && (part.state_updates@[0] matches crate::materialize::StateUpdate::Save(st)
            && st.status == PairStatus::Clean && st.conflict is None && (st.source_manifest matches Some(m)
            && crate::manifest::same_records(obs.source.manifest, m)) && (st.worktree_manifest matches Some(m)
            && crate::manifest::same_records(obs.source.manifest, m))),
{
    let src = crate::materialize::source_location(ctx, p);
    let dst = dest_location(w, p);
    let t = crate::mode_plan::target_or_empty(crate::mode_plan::transition_link_target(ctx, p, w, current, target));
    let rest = choose|rest: OperationPlan|
        {
            &&& #[trigger] crate::mode_plan::action_plan_ok(
                rest,
                crate::mode_plan::worktree_action(ctx, p, w, current, target, choice, obs),
                ctx,
                p,
                w,
                obs,
                t,
                current,
            )
            &&& views(part.summary@) == seq![transition_line(p, current, target)] + views(rest.summary@)
            &&& part.fs_ops@ == rest.fs_ops@
            &&& part.state_updates@ == rest.state_updates@
            &&& part.warnings@ == rest.warnings@
        };
    if target == Mode::Link {
        assert(crate::mode_plan::worktree_action(ctx, p, w, current, target, choice, obs)
            == crate::mode_plan::TransitionAction::Link);
        assert(rest.fs_ops@[0] == part.fs_ops@[0]);
    }
    if target == Mode::Sync {
        assert(crate::mode_plan::worktree_action(ctx, p, w, current, target, choice, obs)
            == crate::mode_plan::TransitionAction::StartSyncFromSource);
        let wm = obs.worktree.manifest;
        let pre = crate::fs_plan::overlay_backups(obs.source, wm, dst);
        assert(shapes(part.fs_ops@) == pre + overlay_shapes(src, dst, obs.source));
        assert(part.state_updates@[0] == rest.state_updates@[0]);
    }
}

} // verus!
