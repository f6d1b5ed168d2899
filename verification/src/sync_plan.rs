//! Bidirectional sync planning through the source worktree as the hub.
use vstd::prelude::*;

use crate::domain::{ConflictPolicy, ManagedPath, SyncPolicy};
use crate::drift::{classify_manifest_drift, classify_spec, drift_of, in_any, DriftReport, EntryDrift};
use crate::error::WkError;
use crate::fs_plan::{
    all_details_ok, all_copyable, backup_path_op, copy_entry_op, copyable, details_ok, entry_location, entry_shape,
    join_entry, shape, shapes, FsOp, OpShape,
};
use crate::config::{Config, PathConfig};
use crate::domain::Mode;
use crate::git_repo::{RepoContext, WorktreeId, WorktreeInfo};
use crate::keyed::{distinct_keys, sorted_keys};
use crate::manifest::{same_opt_entry, EntryKind, Manifest, ManifestEntry, PathSnapshot};
use crate::pathops::{join_path, joined};
use crate::materialize::{concat_ops, concat_summary, concat_updates, concat_warnings, concatenates, lemma_concat_push, OperationPlan, StateUpdate};
use crate::state::{ConflictRecord, DestinationKind, MaterializationProvenance, PairStatus, PathState};
use crate::text::{cat, path_less, path_less_exec};

verus! {

#[derive(Clone, Copy, Debug, PartialEq, Eq, Structural)]
pub struct SyncOptions {
    pub policy: SyncPolicy,
    pub conflict_policy: ConflictPolicy,
    pub dry_run: bool,
}

/// What a sync entry needs.
#[derive(Clone, Copy, Debug, PartialEq, Eq, Structural)]
pub enum EntryAction {
    Keep,
    ToWorktree,
    ToSource,
    DeleteInWorktree,
    DeleteInSource,
    Conflict,
}

/// Under the `newer` policy the side with the later mtime wins (the source on
/// a tie); when a side lacks the entry nothing can be compared.
pub open spec fn newer_action(cs: Option<ManifestEntry>, cw: Option<ManifestEntry>) -> EntryAction {
    match (cs, cw) {
        (Some(s), Some(w)) => if s.mtime >= w.mtime {
            EntryAction::ToWorktree
        } else {
            EntryAction::ToSource
        },
        _ => EntryAction::Conflict,
    }
}

/// One-sided changes propagate to the other side; changes on both sides go
/// by the conflict policy, `ask` leaving the entry in conflict.
pub open spec fn entry_action(
    d: EntryDrift,
    policy: ConflictPolicy,
    cs: Option<ManifestEntry>,
    cw: Option<ManifestEntry>,
) -> EntryAction {
    match d {
        EntryDrift::Unchanged | EntryDrift::BothChangedIdentically => EntryAction::Keep,
        EntryDrift::SourceAdded | EntryDrift::SourceModified => EntryAction::ToWorktree,
        EntryDrift::WorktreeAdded | EntryDrift::WorktreeModified => EntryAction::ToSource,
        EntryDrift::SourceDeleted => EntryAction::DeleteInWorktree,
        EntryDrift::WorktreeDeleted => EntryAction::DeleteInSource,
        EntryDrift::BothChangedDifferently => match policy {
            ConflictPolicy::Ask => EntryAction::Conflict,
            ConflictPolicy::Source => EntryAction::ToWorktree,
            ConflictPolicy::Worktree => EntryAction::ToSource,
            ConflictPolicy::Newer => newer_action(cs, cw),
        },
    }
}

fn decide_entry(
    d: EntryDrift,
    policy: ConflictPolicy,
    cs: Option<&ManifestEntry>,
    cw: Option<&ManifestEntry>,
) -> (a: EntryAction)
    ensures
        a == entry_action(d, policy, crate::drift::deref_opt(cs), crate::drift::deref_opt(cw)),
{
    match d {
        EntryDrift::Unchanged | EntryDrift::BothChangedIdentically => EntryAction::Keep,
        EntryDrift::SourceAdded | EntryDrift::SourceModified => EntryAction::ToWorktree,
        EntryDrift::WorktreeAdded | EntryDrift::WorktreeModified => EntryAction::ToSource,
        EntryDrift::SourceDeleted => EntryAction::DeleteInWorktree,
        EntryDrift::WorktreeDeleted => EntryAction::DeleteInSource,
        EntryDrift::BothChangedDifferently => match policy {
            ConflictPolicy::Ask => EntryAction::Conflict,
            ConflictPolicy::Source => EntryAction::ToWorktree,
            ConflictPolicy::Worktree => EntryAction::ToSource,
            ConflictPolicy::Newer => match (cs, cw) {
                (Some(s), Some(w)) => if s.mtime >= w.mtime {
                    EntryAction::ToWorktree
                } else {
                    EntryAction::ToSource
                },
                _ => EntryAction::Conflict,
            },
        },
    }
}

/// The number of `/` characters in `s`.
pub open spec fn slash_count(s: Seq<char>) -> nat
    decreases s.len(),
{
    if s.len() == 0 {
        0
    } else {
        slash_count(s.drop_last()) + if s.last() == '/' {
            1nat
        } else {
            0nat
        }
    }
}

/// How deep an entry path lies below the managed path: its number of
/// segments (capped at the largest `usize`), zero for the managed path itself.
pub open spec fn key_depth(k: Seq<char>) -> nat {
    if k.len() == 0 {
        0
    } else if slash_count(k) + 1 > usize::MAX {
        usize::MAX as nat
    } else {
        slash_count(k) + 1
    }
}

fn key_depth_exec(k: &str) -> (d: usize)
    ensures
        d == key_depth(k@),
{
    let n = k.unicode_len();
    if n == 0 {
        return 0;
    }
    let mut count: usize = 0;
    let mut i: usize = 0;
    while i < n
        invariant
            n == k@.len(),
            i <= n,
            count == slash_count(k@.take(i as int)),
            count <= i,
        decreases n - i,
    {
        proof {
            assert(k@.take(i as int + 1).drop_last() =~= k@.take(i as int));
        }
        if k.get_char(i) == '/' {
            count = count + 1;
        }
        i = i + 1;
    }
    assert(k@.take(n as int) =~= k@);
    if count == usize::MAX {
        count
    } else {
        count + 1
    }
}

/// Whether an existing destination entry is moved to a backup before
/// being replaced: always, except a directory over a directory.
pub open spec fn should_backup(src: ManifestEntry, dest: ManifestEntry) -> bool {
    !(src.kind == EntryKind::Directory && dest.kind == EntryKind::Directory)
}

/// What the per-entry pass has accumulated: copies in entry order, removals
/// with the depth of their entry, conflicting entries and warnings.
pub struct SyncAcc {
    pub copies: Seq<OpShape>,
    pub removals: Seq<(nat, OpShape)>,
    pub conflicts: Seq<Seq<char>>,
    pub warnings: Seq<Seq<char>>,
}

pub open spec fn empty_acc() -> SyncAcc {
    SyncAcc { copies: Seq::empty(), removals: Seq::empty(), conflicts: Seq::empty(), warnings: Seq::empty() }
}

/// Makes the `to` side of entry `k` equal to the `from` side: a present entry
/// is copied (after backing up a replaced destination entry), an absent one
/// is removed from the destination by moving it to the backups.
pub open spec fn propagate(
    acc: SyncAcc,
    from: Option<ManifestEntry>,
    to: Option<ManifestEntry>,
    from_root: Seq<char>,
    to_root: Seq<char>,
    k: Seq<char>,
) -> SyncAcc {
    match from {
        Some(e) => SyncAcc {
            copies: acc.copies + (if to is Some && should_backup(e, to->0) {
                seq![OpShape::Backup(entry_location(to_root, k))]
            } else {
                Seq::empty()
            }) + seq![entry_shape(e, entry_location(from_root, k), entry_location(to_root, k))],
            ..acc
        },
        None => SyncAcc {
            removals: acc.removals + (if to is Some {
                seq![(key_depth(entry_location(to_root, k)), OpShape::Backup(entry_location(to_root, k)))]
            } else {
                Seq::empty()
            }),
            ..acc
        },
    }
}

pub open spec fn conflict_warning(k: Seq<char>) -> Seq<char> {
    "conflict requires resolution: "@ + k
}

pub open spec fn newer_warning(k: Seq<char>) -> Seq<char> {
    "newer conflict policy uses unsafe mtime comparison for "@ + k
}

/// The effect of one drift entry on the accumulated plan.
pub open spec fn acc_step(
    acc: SyncAcc,
    k: Seq<char>,
    d: EntryDrift,
    policy: ConflictPolicy,
    current_source: Manifest,
    current_worktree: Manifest,
    source_root: Seq<char>,
    worktree_root: Seq<char>,
) -> SyncAcc {
    let cs = current_source.lookup(k);
    let cw = current_worktree.lookup(k);
    let acc1 = if d == EntryDrift::BothChangedDifferently && policy == ConflictPolicy::Newer {
        SyncAcc { warnings: acc.warnings.push(newer_warning(k)), ..acc }
    } else {
        acc
    };
    match entry_action(d, policy, cs, cw) {
        EntryAction::Keep => acc1,
        EntryAction::ToWorktree => propagate(acc1, cs, cw, source_root, worktree_root, k),
        EntryAction::ToSource => propagate(acc1, cw, cs, worktree_root, source_root, k),
        EntryAction::DeleteInWorktree => propagate(acc1, None, cw, source_root, worktree_root, k),
        EntryAction::DeleteInSource => propagate(acc1, None, cs, worktree_root, source_root, k),
        EntryAction::Conflict => SyncAcc {
            conflicts: acc1.conflicts.push(k),
            warnings: acc1.warnings.push(conflict_warning(k)),
            ..acc1
        },
    }
}

/// The per-entry pass over the drift entries in report order.
pub open spec fn acc_fold(
    recs: Seq<(String, EntryDrift)>,
    policy: ConflictPolicy,
    current_source: Manifest,
    current_worktree: Manifest,
    source_root: Seq<char>,
    worktree_root: Seq<char>,
) -> SyncAcc
    decreases recs.len(),
{
    if recs.len() == 0 {
        empty_acc()
    } else {
        acc_step(
            acc_fold(recs.drop_last(), policy, current_source, current_worktree, source_root, worktree_root),
            recs.last().0@,
            recs.last().1,
            policy,
            current_source,
            current_worktree,
            source_root,
            worktree_root,
        )
    }
}

/// The entries of `rs` at depth `d`, in order.
pub open spec fn at_depth(rs: Seq<(nat, OpShape)>, d: nat) -> Seq<OpShape>
    decreases rs.len(),
{
    if rs.len() == 0 {
        Seq::empty()
    } else {
        at_depth(rs.drop_last(), d) + if rs.last().0 == d {
            seq![rs.last().1]
        } else {
            Seq::<OpShape>::empty()
        }
    }
}

/// Removals from depth `d` up to the surface: the deepest first, so that a
/// directory's entries go before the directory; equal depths keep their order.
pub open spec fn deepest_first(rs: Seq<(nat, OpShape)>, d: int) -> Seq<OpShape>
    decreases d + 1,
{
    if d < 0 {
        Seq::empty()
    } else {
        sort_desc(at_depth(rs, d as nat)) + deepest_first(rs, d - 1)
    }
}

/// The path an operation works on (its destination, for copies).
pub open spec fn shape_path(s: OpShape) -> Seq<char> {
    match s {
        OpShape::CreateDir(p) => p,
        OpShape::CopyFile(_, d) => d,
        OpShape::CopySymlink(_, d) => d,
        OpShape::RemoveFile(p) => p,
        OpShape::RemoveEmptyDir(p) => p,
        OpShape::Backup(p) => p,
        OpShape::WriteFile(p, _) => p,
        OpShape::SetPermissions(p, _) => p,
    }
}

/// Places `x` in a list ordered by descending path: before the first
/// operation whose path comes before its own, after those that are equal.
pub open spec fn insert_desc(sorted: Seq<OpShape>, x: OpShape) -> Seq<OpShape>
    decreases sorted.len(),
{
    if sorted.len() == 0 {
        seq![x]
    } else if path_less(shape_path(sorted[0]), shape_path(x)) {
        seq![x] + sorted
    } else {
        seq![sorted[0]] + insert_desc(sorted.drop_first(), x)
    }
}

/// The operations in descending path order, equal paths in their order.
pub open spec fn sort_desc(s: Seq<OpShape>) -> Seq<OpShape>
    decreases s.len(),
{
    if s.len() == 0 {
        Seq::empty()
    } else {
        insert_desc(sort_desc(s.drop_last()), s.last())
    }
}

proof fn lemma_insert_desc_at(s: Seq<OpShape>, x: OpShape, p: int)
    requires
        0 <= p <= s.len(),
        forall|i: int| 0 <= i < p ==> !path_less(shape_path(#[trigger] s[i]), shape_path(x)),
        p < s.len() ==> path_less(shape_path(s[p]), shape_path(x)),
    ensures
        insert_desc(s, x) == s.insert(p, x),
    decreases s.len(),
{
    if s.len() == 0 {
        assert(s.insert(p, x) =~= seq![x]);
    } else if p == 0 {
        assert(s.insert(0, x) =~= seq![x] + s);
    } else {
        assert(!path_less(shape_path(s[0]), shape_path(x)));
        let t = s.drop_first();
        assert forall|i: int| 0 <= i < p - 1 implies !path_less(shape_path(#[trigger] t[i]), shape_path(x)) by {
            assert(t[i] == s[i + 1]);
        }
        if p - 1 < t.len() {
            assert(t[p - 1] == s[p]);
        }
        lemma_insert_desc_at(t, x, p - 1);
        assert(s.insert(p, x) =~= seq![s[0]] + t.insert(p - 1, x));
    }
}

pub open spec fn max_depth(rs: Seq<(nat, OpShape)>) -> nat
    decreases rs.len(),
{
    if rs.len() == 0 {
        0
    } else {
        let m = max_depth(rs.drop_last());
        if rs.last().0 > m {
            rs.last().0
        } else {
            m
        }
    }
}

pub open spec fn ordered_removals(rs: Seq<(nat, OpShape)>) -> Seq<OpShape> {
    deepest_first(rs, max_depth(rs) as int)
}

pub open spec fn removal_shapes(rs: Seq<(usize, FsOp)>) -> Seq<(nat, OpShape)> {
    rs.map_values(|r: (usize, FsOp)| (r.0 as nat, shape(r.1)))
}


pub open spec fn opt_ref(o: Option<&ManifestEntry>) -> Option<ManifestEntry> {
    crate::drift::deref_opt(o)
}

/// The worktree's entry `k` once the plan ran.
pub open spec fn expected_worktree_entry(
    d: EntryDrift,
    policy: ConflictPolicy,
    cs: Option<ManifestEntry>,
    cw: Option<ManifestEntry>,
) -> Option<ManifestEntry> {
    match entry_action(d, policy, cs, cw) {
        EntryAction::ToWorktree => cs,
        EntryAction::DeleteInWorktree => None,
        _ => cw,
    }
}

/// The source's entry `k` once the plan ran.
pub open spec fn expected_source_entry(
    d: EntryDrift,
    policy: ConflictPolicy,
    cs: Option<ManifestEntry>,
    cw: Option<ManifestEntry>,
) -> Option<ManifestEntry> {
    match entry_action(d, policy, cs, cw) {
        EntryAction::ToSource => cw,
        EntryAction::DeleteInSource => None,
        _ => cs,
    }
}

/// The buffers of the per-entry pass match the accumulated plan.
pub open spec fn buffers_match(
    copies: Seq<FsOp>,
    removals: Seq<(usize, FsOp)>,
    conflicts: Seq<String>,
    warnings: Seq<String>,
    acc: SyncAcc,
    backup_root: Seq<char>,
) -> bool {
    &&& shapes(copies) == acc.copies
    &&& removal_shapes(removals) == acc.removals
    &&& conflicts.map_values(|c: String| c@) == acc.conflicts
    &&& warnings.map_values(|w: String| w@) == acc.warnings
    &&& all_details_ok(copies, backup_root)
    &&& forall|i: int| 0 <= i < removals.len() ==> details_ok(#[trigger] removals[i].1, backup_root)
}

/// Carries out `propagate` on the buffers.
fn propagate_exec(
    copies: &mut Vec<FsOp>,
    removals: &mut Vec<(usize, FsOp)>,
    expected_to: &mut Manifest,
    from: Option<&ManifestEntry>,
    to: Option<&ManifestEntry>,
    from_root: &str,
    to_root: &str,
    k: &str,
    backup_root: &str,
) -> (r: Result<(), WkError>)
    requires
        all_details_ok(old(copies)@, backup_root@),
        forall|i: int| 0 <= i < old(removals)@.len() ==> details_ok(#[trigger] old(removals)@[i].1, backup_root@),
    ensures
        r is Ok <==> (from is Some ==> copyable(*from->0)),
        r is Ok ==> {
            let acc0 = SyncAcc {
                copies: shapes(old(copies)@),
                removals: removal_shapes(old(removals)@),
                conflicts: Seq::empty(),
                warnings: Seq::empty(),
            };
            let acc1 = propagate(acc0, opt_ref(from), opt_ref(to), from_root@, to_root@, k@);
            &&& shapes(final(copies)@) == acc1.copies
            &&& removal_shapes(final(removals)@) == acc1.removals
            &&& all_details_ok(final(copies)@, backup_root@)
            &&& forall|i: int| 0 <= i < final(removals)@.len() ==> details_ok(#[trigger] final(removals)@[i].1, backup_root@)
            &&& forall|q: Seq<char>| #![trigger final(expected_to).lookup(q)]
                q != k@ ==> final(expected_to).lookup(q) == old(expected_to).lookup(q)
            &&& same_opt_entry(final(expected_to).lookup(k@), opt_ref(from))
        },
{
    match from {
        Some(e) => {
            let src = join_entry(from_root, k);
            let dst = join_entry(to_root, k);
            let ghost before = copies@;
            match to {
                Some(t) => {
                    if !(e.kind == EntryKind::Directory && t.kind == EntryKind::Directory) {
                        let b = backup_path_op(dst.as_str(), backup_root);
                        copies.push(b);
                    }
                },
                None => {},
            }
            let ghost mid = copies@;
            let op = match copy_entry_op(e, src.as_str(), dst.as_str()) {
                Ok(op) => op,
                Err(err) => {
                    return Err(err);
                },
            };
            copies.push(op);
            expected_to.insert(k.to_owned(), e.duplicate());
            proof {
                let extra = if opt_ref(to) is Some && should_backup(*e, opt_ref(to)->0) {
                    seq![OpShape::Backup(entry_location(to_root@, k@))]
                } else {
                    Seq::<OpShape>::empty()
                };
                assert(shapes(mid) =~= shapes(before) + extra);
                assert(shapes(copies@) =~= shapes(before) + extra + seq![entry_shape(*e, src@, dst@)]);
                assert forall|i: int| 0 <= i < copies@.len() implies details_ok(#[trigger] copies@[i], backup_root@) by {
                    if i < before.len() {
                        assert(copies@[i] == before[i]);
                    }
                }
            }
            Ok(())
        },
        None => {
            match to {
                Some(_) => {
                    let dst = join_entry(to_root, k);
                    let depth = key_depth_exec(dst.as_str());
                    let b = backup_path_op(dst.as_str(), backup_root);
                    let ghost before = removals@;
                    removals.push((depth, b));
                    proof {
                        assert(removal_shapes(removals@) =~= removal_shapes(before).push((depth as nat, shape(b))));
                        assert forall|i: int| 0 <= i < removals@.len() implies details_ok(#[trigger] removals@[i].1, backup_root@) by {
                            if i < before.len() {
                                assert(removals@[i] == before[i]);
                            }
                        }
                    }
                },
                None => {
                    proof {
                        assert(removal_shapes(removals@) =~= removal_shapes(removals@) + Seq::<(nat, OpShape)>::empty());
                    }
                },
            }
            expected_to.remove(k);
            proof {
                assert(shapes(copies@) =~= shapes(copies@));
            }
            Ok(())
        },
    }
}


/// What the per-entry pass produced.
pub struct EntryPassOutput {
    pub copies: Vec<FsOp>,
    pub removals: Vec<(usize, FsOp)>,
    pub conflicts: Vec<String>,
    pub warnings: Vec<String>,
    pub expected_source: Manifest,
    pub expected_worktree: Manifest,
}

/// The source side once the plan ran, for every path.
pub open spec fn expected_source_ok(
    m: Manifest,
    report: DriftReport,
    policy: ConflictPolicy,
    cs: Manifest,
    cw: Manifest,
) -> bool {
    forall|q: Seq<char>| #![trigger m.lookup(q)] same_opt_entry(
        m.lookup(q),
        if report.has(q) {
            expected_source_entry(report.lookup(q)->0, policy, cs.lookup(q), cw.lookup(q))
        } else {
            cs.lookup(q)
        },
    )
}

/// The worktree side once the plan ran, for every path.
pub open spec fn expected_worktree_ok(
    m: Manifest,
    report: DriftReport,
    policy: ConflictPolicy,
    cs: Manifest,
    cw: Manifest,
) -> bool {
    forall|q: Seq<char>| #![trigger m.lookup(q)] same_opt_entry(
        m.lookup(q),
        if report.has(q) {
            expected_worktree_entry(report.lookup(q)->0, policy, cs.lookup(q), cw.lookup(q))
        } else {
            cw.lookup(q)
        },
    )
}

/// Entries whose copies are all possible: every symlink records its target.
pub open spec fn pass_possible(cs: Manifest, cw: Manifest) -> bool {
    all_copyable(cs) && all_copyable(cw)
}

proof fn lemma_lookup_copyable(m: Manifest, q: Seq<char>)
    requires
        all_copyable(m),
        m.lookup(q) is Some,
    ensures
        copyable(m.lookup(q)->0),
{
    let i = choose|i: int| 0 <= i < m.records().len() && #[trigger] m.records()[i].0@ == q;
    assert(copyable(m.records()[i].1));
}

/// Plans every drift entry in report order.
fn plan_entries(
    report: &DriftReport,
    policy: ConflictPolicy,
    current_source: &Manifest,
    current_worktree: &Manifest,
    source_root: &str,
    worktree_root: &str,
    backup_root: &str,
) -> (r: Result<EntryPassOutput, WkError>)
    ensures
        pass_possible(*current_source, *current_worktree) ==> r is Ok,
        r matches Ok(out) ==> {
            &&& buffers_match(
                out.copies@,
                out.removals@,
                out.conflicts@,
                out.warnings@,
                acc_fold(report.records(), policy, *current_source, *current_worktree, source_root@, worktree_root@),
                backup_root@,
            )
            &&& expected_source_ok(out.expected_source, *report, policy, *current_source, *current_worktree)
            &&& expected_worktree_ok(out.expected_worktree, *report, policy, *current_source, *current_worktree)
        },
{
    let mut copies: Vec<FsOp> = Vec::new();
    let mut removals: Vec<(usize, FsOp)> = Vec::new();
    let mut conflicts: Vec<String> = Vec::new();
    let mut warnings: Vec<String> = Vec::new();
    let mut expected_source = current_source.duplicate();
    let mut expected_worktree = current_worktree.duplicate();
    let n = report.len();
    let mut i: usize = 0;
    let ghost cs_m = *current_source;
    let ghost cw_m = *current_worktree;
    proof {
        assert(report.records().take(0) =~= Seq::<(String, EntryDrift)>::empty());
        assert(conflicts@.map_values(|c: String| c@) =~= Seq::<Seq<char>>::empty());
        assert(warnings@.map_values(|w: String| w@) =~= Seq::<Seq<char>>::empty());
        assert(shapes(copies@) =~= Seq::<OpShape>::empty());
        assert(removal_shapes(removals@) =~= Seq::<(nat, OpShape)>::empty());
        assert forall|q: Seq<char>| #![trigger expected_source.lookup(q)] same_opt_entry(
            expected_source.lookup(q),
            cs_m.lookup(q),
        ) by {
            assert(same_opt_entry(cs_m.lookup(q), expected_source.lookup(q)));
        }
        assert forall|q: Seq<char>| #![trigger expected_worktree.lookup(q)] same_opt_entry(
            expected_worktree.lookup(q),
            cw_m.lookup(q),
        ) by {
            assert(same_opt_entry(cw_m.lookup(q), expected_worktree.lookup(q)));
        }
    }
    while i < n
        invariant
            n == report.len_spec(),
            i <= n,
            buffers_match(
                copies@,
                removals@,
                conflicts@,
                warnings@,
                acc_fold(report.records().take(i as int), policy, cs_m, cw_m, source_root@, worktree_root@),
                backup_root@,
            ),
            forall|q: Seq<char>| #![trigger expected_source.lookup(q)] same_opt_entry(
                expected_source.lookup(q),
                if exists|j: int| 0 <= j < i && report.records()[j].0@ == q {
                    expected_source_entry(report.lookup(q)->0, policy, cs_m.lookup(q), cw_m.lookup(q))
                } else {
                    cs_m.lookup(q)
                },
            ),
            forall|q: Seq<char>| #![trigger expected_worktree.lookup(q)] same_opt_entry(
                expected_worktree.lookup(q),
                if exists|j: int| 0 <= j < i && report.records()[j].0@ == q {
                    expected_worktree_entry(report.lookup(q)->0, policy, cs_m.lookup(q), cw_m.lookup(q))
                } else {
                    cw_m.lookup(q)
                },
            ),
            cs_m == *current_source,
            cw_m == *current_worktree,
            distinct_keys(report.records()),
        decreases n - i,
    {
        let k = report.path_at(i);
        let d = report.drift_at_index(i);
        let cs = current_source.get(k);
        let cw = current_worktree.get(k);
        let ghost acc = acc_fold(report.records().take(i as int), policy, cs_m, cw_m, source_root@, worktree_root@);
        let ghost old_es = expected_source;
        let ghost old_ew = expected_worktree;
        proof {
            assert(report.records().take(i as int + 1).drop_last() =~= report.records().take(i as int));
            assert(report.records().take(i as int + 1).last() == report.records()[i as int]);
        }
        let ghost warnings0 = warnings@;
        if d == EntryDrift::BothChangedDifferently && policy == ConflictPolicy::Newer {
            warnings.push(cat("newer conflict policy uses unsafe mtime comparison for ", k));
            proof {
                assert(warnings@.map_values(|w: String| w@) =~= warnings0.map_values(|w: String| w@).push(newer_warning(k@)));
            }
        }
        let ghost acc1 = if d == EntryDrift::BothChangedDifferently && policy == ConflictPolicy::Newer {
            SyncAcc { warnings: acc.warnings.push(newer_warning(k@)), ..acc }
        } else {
            acc
        };
        let action = decide_entry(d, policy, cs, cw);
        let ghost copies0 = copies@;
        let ghost removals0 = removals@;
        let step = match action {
            EntryAction::Keep => Ok(()),
            EntryAction::ToWorktree => propagate_exec(
                &mut copies,
                &mut removals,
                &mut expected_worktree,
                cs,
                cw,
                source_root,
                worktree_root,
                k,
                backup_root,
            ),
            EntryAction::ToSource => propagate_exec(
                &mut copies,
                &mut removals,
                &mut expected_source,
                cw,
                cs,
                worktree_root,
                source_root,
                k,
                backup_root,
            ),
            EntryAction::DeleteInWorktree => propagate_exec(
                &mut copies,
                &mut removals,
                &mut expected_worktree,
                None,
                cw,
                source_root,
                worktree_root,
                k,
                backup_root,
            ),
            EntryAction::DeleteInSource => propagate_exec(
                &mut copies,
                &mut removals,
                &mut expected_source,
                None,
                cs,
                worktree_root,
                source_root,
                k,
                backup_root,
            ),
            EntryAction::Conflict => {
                let ghost c0 = conflicts@;
                let ghost w0 = warnings@;
                conflicts.push(k.to_owned());
                warnings.push(cat("conflict requires resolution: ", k));
                proof {
                    assert(conflicts@.map_values(|c: String| c@) =~= c0.map_values(|c: String| c@).push(k@));
                    assert(warnings@.map_values(|w: String| w@) =~= w0.map_values(|w: String| w@).push(conflict_warning(k@)));
                }
                Ok(())
            },
        };
        match step {
            Ok(()) => {},
            Err(err) => {
                proof {
                    if action == EntryAction::ToWorktree {
                        lemma_lookup_copyable_if(cs_m, k@);
                    } else if action == EntryAction::ToSource {
                        lemma_lookup_copyable_if(cw_m, k@);
                    }
                }
                return Err(err);
            },
        }
        proof {
            let q0 = k@;
            assert(report.records()[i as int].0@ == q0);
            assert(report.lookup(q0) == Some(d));
            assert forall|q: Seq<char>| #![trigger expected_source.lookup(q)] same_opt_entry(
                expected_source.lookup(q),
                if exists|j: int| 0 <= j < i + 1 && report.records()[j].0@ == q {
                    expected_source_entry(report.lookup(q)->0, policy, cs_m.lookup(q), cw_m.lookup(q))
                } else {
                    cs_m.lookup(q)
                },
            ) by {
                if q != q0 {
                    if exists|j: int| 0 <= j < i + 1 && report.records()[j].0@ == q {
                        let j = choose|j: int| 0 <= j < i + 1 && report.records()[j].0@ == q;
                        assert(j != i);
                        assert(exists|j2: int| 0 <= j2 < i && report.records()[j2].0@ == q);
                    }
                    assert(same_opt_entry(old_es.lookup(q), if exists|j: int| 0 <= j < i && report.records()[j].0@ == q {
                        expected_source_entry(report.lookup(q)->0, policy, cs_m.lookup(q), cw_m.lookup(q))
                    } else {
                        cs_m.lookup(q)
                    }));
                } else {
                    assert(exists|j: int| 0 <= j < i + 1 && report.records()[j].0@ == q);
                    lemma_not_earlier(*report, i as int);
                    assert(same_opt_entry(old_es.lookup(q), cs_m.lookup(q)));
                }
            }
            assert forall|q: Seq<char>| #![trigger expected_worktree.lookup(q)] same_opt_entry(
                expected_worktree.lookup(q),
                if exists|j: int| 0 <= j < i + 1 && report.records()[j].0@ == q {
                    expected_worktree_entry(report.lookup(q)->0, policy, cs_m.lookup(q), cw_m.lookup(q))
                } else {
                    cw_m.lookup(q)
                },
            ) by {
                if q != q0 {
                    if exists|j: int| 0 <= j < i + 1 && report.records()[j].0@ == q {
                        let j = choose|j: int| 0 <= j < i + 1 && report.records()[j].0@ == q;
                        assert(j != i);
                        assert(exists|j2: int| 0 <= j2 < i && report.records()[j2].0@ == q);
                    }
                    assert(same_opt_entry(old_ew.lookup(q), if exists|j: int| 0 <= j < i && report.records()[j].0@ == q {
                        expected_worktree_entry(report.lookup(q)->0, policy, cs_m.lookup(q), cw_m.lookup(q))
                    } else {
                        cw_m.lookup(q)
                    }));
                } else {
                    assert(exists|j: int| 0 <= j < i + 1 && report.records()[j].0@ == q);
                    lemma_not_earlier(*report, i as int);
                    assert(same_opt_entry(old_ew.lookup(q), cw_m.lookup(q)));
                }
            }
        }
        i = i + 1;
    }
    proof {
        assert(report.records().take(n as int) =~= report.records());
        assert forall|q: Seq<char>| #[trigger] report.has(q) <==> exists|j: int| 0 <= j < n && report.records()[j].0@ == q by {
            if report.has(q) {
                let j = choose|j: int| 0 <= j < report.records().len() && #[trigger] report.records()[j].0@ == q;
                assert(0 <= j < n && report.records()[j].0@ == q);
            }
        }
    }
    Ok(EntryPassOutput { copies, removals, conflicts, warnings, expected_source, expected_worktree })
}

proof fn lemma_lookup_copyable_if(m: Manifest, q: Seq<char>)
    ensures
        all_copyable(m) && m.lookup(q) is Some ==> copyable(m.lookup(q)->0),
{
    if all_copyable(m) && m.lookup(q) is Some {
        lemma_lookup_copyable(m, q);
    }
}

/// Report paths are distinct: entry `i`'s path is not among the earlier ones.
proof fn lemma_not_earlier(report: DriftReport, i: int)
    requires
        0 <= i < report.len_spec(),
        distinct_keys(report.records()),
    ensures
        !(exists|j: int| 0 <= j < i && report.records()[j].0@ == report.records()[i].0@),
{
}


fn op_path(op: &FsOp) -> (p: &str)
    ensures
        p@ == shape_path(shape(*op)),
{
    match op {
        FsOp::CreateDir { path } => path.as_str(),
        FsOp::CopyFile { dest, .. } => dest.as_str(),
        FsOp::CopySymlink { dest, .. } => dest.as_str(),
        FsOp::RemoveFile { path } => path.as_str(),
        FsOp::RemoveEmptyDir { path } => path.as_str(),
        FsOp::BackupPath { path, .. } => path.as_str(),
        FsOp::WriteFileAtomic { path, .. } => path.as_str(),
        FsOp::SetPermissions { path, .. } => path.as_str(),
    }
}

/// Orders removals deepest first, equal depths by descending path.
fn order_removals(removals: &Vec<(usize, FsOp)>, Ghost(backup_root): Ghost<Seq<char>>) -> (ops: Vec<FsOp>)
    requires
        forall|i: int| 0 <= i < removals@.len() ==> details_ok(#[trigger] removals@[i].1, backup_root),
    ensures
        shapes(ops@) == ordered_removals(removal_shapes(removals@)),
        all_details_ok(ops@, backup_root),
{
    let ghost rs = removal_shapes(removals@);
    let mut max: usize = 0;
    let mut i: usize = 0;
    while i < removals.len()
        invariant
            i <= removals@.len(),
            rs == removal_shapes(removals@),
            max as nat == max_depth(rs.take(i as int)),
        decreases removals@.len() - i,
    {
        proof {
            assert(rs.take(i as int + 1).drop_last() =~= rs.take(i as int));
        }
        if removals[i].0 > max {
            max = removals[i].0;
        }
        i = i + 1;
    }
    proof {
        assert(rs.take(removals@.len() as int) =~= rs);
    }
    let mut out: Vec<FsOp> = Vec::new();
    let mut d: u128 = 0;
    proof {
        assert(shapes(out@) =~= Seq::<OpShape>::empty());
    }
    while d <= max as u128
        invariant
            d <= max as u128 + 1,
            rs == removal_shapes(removals@),
            max as nat == max_depth(rs),
            forall|i: int| 0 <= i < removals@.len() ==> details_ok(#[trigger] removals@[i].1, backup_root),
            shapes(out@) == deepest_first(rs, d as int - 1),
            all_details_ok(out@, backup_root),
        decreases max as u128 + 1 - d,
    {
        let mut layer: Vec<FsOp> = Vec::new();
        let mut j: usize = 0;
        proof {
            assert(rs.take(0) =~= Seq::<(nat, OpShape)>::empty());
            assert(shapes(layer@) =~= Seq::<OpShape>::empty());
        }
        while j < removals.len()
            invariant
                j <= removals@.len(),
                rs == removal_shapes(removals@),
                forall|i: int| 0 <= i < removals@.len() ==> details_ok(#[trigger] removals@[i].1, backup_root),
                shapes(layer@) == sort_desc(at_depth(rs.take(j as int), d as nat)),
                all_details_ok(layer@, backup_root),
            decreases removals@.len() - j,
        {
            proof {
                assert(rs.take(j as int + 1).drop_last() =~= rs.take(j as int));
                assert(rs.take(j as int + 1).last() == rs[j as int]);
            }
            if removals[j].0 as u128 == d {
                let ghost before = layer@;
                let op = removals[j].1.duplicate();
                let mut p: usize = 0;
                while p < layer.len() && !path_less_exec(op_path(&layer[p]), op_path(&op))
                    invariant
                        p <= layer@.len(),
                        layer@ == before,
                        forall|i: int| 0 <= i < p ==> !path_less(
                            shape_path(#[trigger] shapes(before)[i]),
                            shape_path(shape(op)),
                        ),
                    decreases layer@.len() - p,
                {
                    p = p + 1;
                }
                proof {
                    lemma_insert_desc_at(shapes(before), shape(op), p as int);
                    let l = at_depth(rs.take(j as int), d as nat);
                    assert(at_depth(rs.take(j as int + 1), d as nat) =~= l.push(shape(op)));
                    assert(l.push(shape(op)).drop_last() =~= l);
                }
                layer.insert(p, op);
                proof {
                    assert(shapes(layer@) =~= shapes(before).insert(p as int, shape(op)));
                    assert(details_ok(removals@[j as int].1, backup_root));
                    assert forall|i: int| 0 <= i < layer@.len() implies details_ok(#[trigger] layer@[i], backup_root) by {
                        if i < p {
                            assert(layer@[i] == before[i]);
                        } else if i > p {
                            assert(layer@[i] == before[i - 1]);
                        }
                    }
                }
            } else {
                proof {
                    assert(at_depth(rs.take(j as int + 1), d as nat) =~= at_depth(rs.take(j as int), d as nat));
                }
            }
            j = j + 1;
        }
        proof {
            assert(rs.take(removals@.len() as int) =~= rs);
        }
        let ghost layer_view = layer@;
        let ghost out_view = out@;
        layer.append(&mut out);
        out = layer;
        proof {
            assert(shapes(out@) =~= shapes(layer_view) + shapes(out_view));
            assert(deepest_first(rs, d as int) == sort_desc(at_depth(rs, d as nat)) + deepest_first(rs, d as int - 1));
            assert forall|i: int| 0 <= i < out@.len() implies details_ok(#[trigger] out@[i], backup_root) by {
                if i < layer_view.len() {
                    assert(out@[i] == layer_view[i]);
                } else {
                    assert(out@[i] == out_view[i - layer_view.len()]);
                }
            }
        }
        d = d + 1;
    }
    out
}


pub open spec fn opt_lookup(o: Option<Manifest>, k: Seq<char>) -> Option<ManifestEntry> {
    match o {
        Some(m) => m.lookup(k),
        None => None,
    }
}

pub open spec fn opt_has(o: Option<Manifest>, k: Seq<char>) -> bool {
    match o {
        Some(m) => m.has(k),
        None => false,
    }
}

/// `report` classifies the drift of every path known to the last clean state
/// (a missing manifest counting as empty) or to either current side, each
/// path once, in path order.
pub open spec fn report_classifies(report: DriftReport, prev: PathState, cs: Manifest, cw: Manifest) -> bool {
    &&& sorted_keys(report.records())
    &&& distinct_keys(report.records())
    &&& forall|k: Seq<char>| #[trigger] report.has(k) <==> (opt_has(prev.source_manifest, k) || opt_has(
        prev.worktree_manifest,
        k,
    ) || cs.has(k) || cw.has(k))
    &&& forall|k: Seq<char>| #[trigger] report.has(k) ==> report.lookup(k) == Some(
        classify_spec(
            opt_lookup(prev.source_manifest, k),
            opt_lookup(prev.worktree_manifest, k),
            cs.lookup(k),
            cw.lookup(k),
        ),
    )
}

/// The state saved after a sync: clean with the expected manifests when no
/// entry is left in conflict; otherwise in conflict with the previous clean
/// manifests kept and the conflicting entries recorded.
pub open spec fn next_state_ok(
    st: PathState,
    prev: PathState,
    conflicts: Seq<Seq<char>>,
    report: DriftReport,
    policy: ConflictPolicy,
    cs: Manifest,
    cw: Manifest,
) -> bool {
    &&& st.path == prev.path
    &&& st.worktree_id == prev.worktree_id
    &&& st.provenance == prev.provenance
    &&& if conflicts.len() == 0 {
        &&& st.status == PairStatus::Clean
        &&& st.conflict is None
        &&& st.source_manifest matches Some(m) && expected_source_ok(m, report, policy, cs, cw)
        &&& st.worktree_manifest matches Some(w) && expected_worktree_ok(w, report, policy, cs, cw)
    } else {
        &&& st.status == PairStatus::Conflict
        &&& st.conflict matches Some(c) && c.entries@.map_values(|e: String| e@) == conflicts
            && c.message@ == "per-entry sync conflict"@
        &&& match prev.source_manifest {
            Some(m0) => st.source_manifest == Some(m0),
            None => st.source_manifest matches Some(m) && m.len_spec() == 0,
        }
        &&& match prev.worktree_manifest {
            Some(m0) => st.worktree_manifest == Some(m0),
            None => st.worktree_manifest matches Some(m) && m.len_spec() == 0,
        }
    }
}

/// `plan` is the sync plan of one pair for drift `report`: the per-entry
/// copies in report order, then the removals deepest first, the warnings of
/// the pass, and one state save.
pub open spec fn pair_plan_ok(
    plan: OperationPlan,
    report: DriftReport,
    prev: PathState,
    policy: ConflictPolicy,
    cs: Manifest,
    cw: Manifest,
    source_root: Seq<char>,
    worktree_root: Seq<char>,
    backup_root: Seq<char>,
) -> bool {
    let acc = acc_fold(report.records(), policy, cs, cw, source_root, worktree_root);
    &&& plan.summary@.len() == 0
    &&& shapes(plan.fs_ops@) == acc.copies + ordered_removals(acc.removals)
    &&& all_details_ok(plan.fs_ops@, backup_root)
    &&& plan.warnings@.map_values(|w: String| w@) == acc.warnings
    &&& plan.state_updates@.len() == 1
    &&& plan.state_updates@[0] matches StateUpdate::Save(st) && next_state_ok(
        st,
        prev,
        acc.conflicts,
        report,
        policy,
        cs,
        cw,
    )
}

/// The state of a pair that has none yet: uninitialized, with empty clean
/// manifests on both sides.
pub fn load_or_initialize_state(
    previous: Option<PathState>,
    path: &ManagedPath,
    worktree_id: &WorktreeId,
) -> (st: PathState)
    ensures
        previous matches Some(p) ==> st == p,
        previous is None ==> {
            &&& st.path.view() == path.view()
            &&& st.worktree_id.view() == worktree_id.view()
            &&& st.status == PairStatus::Uninitialized
            &&& st.provenance.destination_kind == DestinationKind::SyncCopy
            &&& st.provenance.created_or_adopted_by_wk
            &&& st.provenance.expected_symlink_target is None
            &&& st.source_manifest matches Some(m) && m.len_spec() == 0
            &&& st.worktree_manifest matches Some(m) && m.len_spec() == 0
            &&& st.conflict is None
        },
{
    match previous {
        Some(existing) => existing,
        None => PathState {
            path: path.clone(),
            worktree_id: worktree_id.clone(),
            status: PairStatus::Uninitialized,
            provenance: MaterializationProvenance {
                destination_kind: DestinationKind::SyncCopy,
                created_or_adopted_by_wk: true,
                expected_symlink_target: None,
            },
            source_manifest: Some(Manifest::new()),
            worktree_manifest: Some(Manifest::new()),
            conflict: None,
        },
    }
}

/// Plans the sync of one managed path in one worktree from the last clean
/// state `previous` and the current manifests of both sides. Each drifted
/// entry is handled on its own: one-sided changes propagate, conflicting
/// entries follow `policy` (`ask` leaves them untouched and records them),
/// replaced or removed entries are moved to the backups first.
pub fn plan_pair_sync(
    previous: PathState,
    current_source: &Manifest,
    current_worktree: &Manifest,
    source_root: &str,
    worktree_root: &str,
    backup_root: &str,
    policy: ConflictPolicy,
) -> (r: Result<OperationPlan, WkError>)
    ensures
        pass_possible(*current_source, *current_worktree) ==> r is Ok,
        r is Ok ==> exists|report: DriftReport|
            report_classifies(report, previous, *current_source, *current_worktree) && #[trigger] pair_plan_ok(
                r->Ok_0,
                report,
                previous,
                policy,
                *current_source,
                *current_worktree,
                source_root@,
                worktree_root@,
                backup_root@,
            ),
{
    let ghost prev0 = previous;
    let empty_source = Manifest::new();
    let empty_worktree = Manifest::new();
    let base_source: &Manifest = match &previous.source_manifest {
        Some(m) => m,
        None => &empty_source,
    };
    let base_worktree: &Manifest = match &previous.worktree_manifest {
        Some(m) => m,
        None => &empty_worktree,
    };
    let report = classify_manifest_drift(base_source, base_worktree, current_source, current_worktree);
    let pass = match plan_entries(
        &report,
        policy,
        current_source,
        current_worktree,
        source_root,
        worktree_root,
        backup_root,
    ) {
        Ok(pass) => pass,
        Err(err) => {
            return Err(err);
        },
    };
    let ghost acc = acc_fold(
        report.records(),
        policy,
        *current_source,
        *current_worktree,
        source_root@,
        worktree_root@,
    );
    let EntryPassOutput { copies, removals, conflicts, warnings, expected_source, expected_worktree } = pass;
    let ordered = order_removals(&removals, Ghost(backup_root@));
    let mut fs_ops = copies;
    let ghost copies_view = fs_ops@;
    let mut tail = ordered;
    let ghost tail_view = tail@;
    fs_ops.append(&mut tail);
    proof {
        assert(shapes(fs_ops@) =~= shapes(copies_view) + shapes(tail_view));
        assert forall|i: int| 0 <= i < fs_ops@.len() implies details_ok(#[trigger] fs_ops@[i], backup_root@) by {
            if i < copies_view.len() {
                assert(fs_ops@[i] == copies_view[i]);
            } else {
                assert(fs_ops@[i] == tail_view[i - copies_view.len()]);
            }
        }
        assert forall|k: Seq<char>| #[trigger] report.has(k) implies report.lookup(k) == Some(
            classify_spec(
                opt_lookup(previous.source_manifest, k),
                opt_lookup(previous.worktree_manifest, k),
                current_source.lookup(k),
                current_worktree.lookup(k),
            ),
        ) by {
            assert(report.lookup(k) == Some(
                drift_of(*base_source, *base_worktree, *current_source, *current_worktree, k),
            ));
        }
        assert forall|k: Seq<char>| #[trigger] report.has(k) <==> (opt_has(previous.source_manifest, k)
            || opt_has(previous.worktree_manifest, k) || current_source.has(k) || current_worktree.has(k)) by {
            assert(report.has(k) <==> in_any(*base_source, *base_worktree, *current_source, *current_worktree, k));
        }
    }
    let next = if conflicts.len() == 0 {
        PathState {
            status: PairStatus::Clean,
            source_manifest: Some(expected_source),
            worktree_manifest: Some(expected_worktree),
            conflict: None,
            ..previous
        }
    } else {
        let source_manifest = match previous.source_manifest {
            Some(m) => m,
            None => Manifest::new(),
        };
        let worktree_manifest = match previous.worktree_manifest {
            Some(m) => m,
            None => Manifest::new(),
        };
        PathState {
            path: previous.path,
            worktree_id: previous.worktree_id,
            status: PairStatus::Conflict,
            provenance: previous.provenance,
            source_manifest: Some(source_manifest),
            worktree_manifest: Some(worktree_manifest),
            conflict: Some(
                ConflictRecord { entries: conflicts, message: String::from_str("per-entry sync conflict") },
            ),
        }
    };
    let mut state_updates: Vec<StateUpdate> = Vec::new();
    state_updates.push(StateUpdate::Save(next));
    let plan = OperationPlan { summary: Vec::new(), fs_ops, state_updates, warnings };
    proof {
        assert(pair_plan_ok(
            plan,
            report,
            prev0,
            policy,
            *current_source,
            *current_worktree,
            source_root@,
            worktree_root@,
            backup_root@,
        ));
    }
    let ghost plan_v = plan;
    let result: Result<OperationPlan, WkError> = Ok(plan);
    proof {
        assert(result->Ok_0 == plan_v);
    }
    result
}


/// Which pairs of managed path and worktree a sync covers.
#[derive(Debug)]
pub enum SyncSelector {
    All,
    Path(ManagedPath),
    Worktree(WorktreeId),
    PathAndWorktree(ManagedPath, WorktreeId),
}

pub open spec fn selects_path(selector: SyncSelector, p: Seq<char>) -> bool {
    match selector {
        SyncSelector::All | SyncSelector::Worktree(_) => true,
        SyncSelector::Path(sel) | SyncSelector::PathAndWorktree(sel, _) => sel.view() == p,
    }
}

pub open spec fn selects_worktree(selector: SyncSelector, w: Seq<char>) -> bool {
    match selector {
        SyncSelector::All | SyncSelector::Path(_) => true,
        SyncSelector::Worktree(sel) | SyncSelector::PathAndWorktree(_, sel) => sel.view() == w,
    }
}

pub fn selector_matches_path(selector: &SyncSelector, path: &ManagedPath) -> (b: bool)
    ensures
        b == selects_path(*selector, path.view()),
{
    match selector {
        SyncSelector::All | SyncSelector::Worktree(_) => true,
        SyncSelector::Path(selected) | SyncSelector::PathAndWorktree(selected, _) => selected.same_as(path),
    }
}

pub fn selector_matches_worktree(selector: &SyncSelector, worktree_id: &WorktreeId) -> (b: bool)
    ensures
        b == selects_worktree(*selector, worktree_id.view()),
{
    match selector {
        SyncSelector::All | SyncSelector::Path(_) => true,
        SyncSelector::Worktree(selected) | SyncSelector::PathAndWorktree(_, selected) => selected.same_as(
            worktree_id,
        ),
    }
}

/// The lines a sync plan opens with: `auto sync` under the automatic policy,
/// and a dry-run notice.
pub open spec fn option_summary(options: SyncOptions) -> Seq<Seq<char>> {
    (if options.policy == SyncPolicy::Auto {
        seq!["auto sync"@]
    } else {
        Seq::empty()
    }) + (if options.dry_run {
        seq!["dry run: no filesystem writes"@]
    } else {
        Seq::empty()
    })
}

fn push_option_summary(plan: &mut OperationPlan, options: SyncOptions)
    ensures
        final(plan).summary@.map_values(|l: String| l@) == old(plan).summary@.map_values(|l: String| l@)
            + option_summary(options),
        final(plan).fs_ops == old(plan).fs_ops,
        final(plan).state_updates == old(plan).state_updates,
        final(plan).warnings == old(plan).warnings,
{
    let ghost s0 = plan.summary@.map_values(|l: String| l@);
    if options.policy == SyncPolicy::Auto {
        plan.summary.push(String::from_str("auto sync"));
    }
    let ghost s1 = plan.summary@.map_values(|l: String| l@);
    proof {
        assert(s1 =~= s0 + (if options.policy == SyncPolicy::Auto {
            seq!["auto sync"@]
        } else {
            Seq::<Seq<char>>::empty()
        }));
    }
    if options.dry_run {
        plan.summary.push(String::from_str("dry run: no filesystem writes"));
    }
    proof {
        assert(plan.summary@.map_values(|l: String| l@) =~= s1 + (if options.dry_run {
            seq!["dry run: no filesystem writes"@]
        } else {
            Seq::<Seq<char>>::empty()
        }));
    }
}

/// The pairs (path entry, worktree position) a sync covers, in order: every
/// sync-mode path entry the selector admits, against every non-source
/// worktree it admits.
pub open spec fn sync_pairs_from(
    paths: Seq<PathConfig>,
    worktrees: Seq<WorktreeInfo>,
    selector: SyncSelector,
    upto: int,
) -> Seq<(int, int)>
    decreases upto,
{
    if upto <= 0 {
        Seq::empty()
    } else {
        let p = upto - 1;
        sync_pairs_from(paths, worktrees, selector, p) + if paths[p].mode == Mode::Sync && selects_path(
            selector,
            paths[p].path.view(),
        ) {
            worktree_pairs(p, worktrees, selector, worktrees.len() as int)
        } else {
            Seq::empty()
        }
    }
}

pub open spec fn worktree_pairs(p: int, worktrees: Seq<WorktreeInfo>, selector: SyncSelector, upto: int) -> Seq<(int, int)>
    decreases upto,
{
    if upto <= 0 {
        Seq::empty()
    } else {
        let w = upto - 1;
        worktree_pairs(p, worktrees, selector, w) + if !worktrees[w].is_source && selects_worktree(
            selector,
            worktrees[w].id.view(),
        ) {
            seq![(p, w)]
        } else {
            Seq::empty()
        }
    }
}

pub open spec fn sync_pairs(config: Config, ctx: RepoContext, selector: SyncSelector) -> Seq<(int, int)> {
    sync_pairs_from(config.paths@, ctx.worktrees@, selector, config.paths@.len() as int)
}

/// Lists the pairs a sync covers, as positions in the configuration's path
/// list and in the context's worktree list.
pub fn select_sync_pairs(ctx: &RepoContext, config: &Config, selector: &SyncSelector) -> (pairs: Vec<(usize, usize)>)
    ensures
        pairs@.len() == sync_pairs(*config, *ctx, *selector).len(),
        forall|i: int| 0 <= i < pairs@.len() ==> (#[trigger] pairs@[i]).0 as int == sync_pairs(
            *config,
            *ctx,
            *selector,
        )[i].0 && pairs@[i].1 as int == sync_pairs(*config, *ctx, *selector)[i].1,
{
    let mut pairs: Vec<(usize, usize)> = Vec::new();
    let mut p: usize = 0;
    while p < config.paths.len()
        invariant
            p <= config.paths@.len(),
            pairs@.len() == sync_pairs_from(config.paths@, ctx.worktrees@, *selector, p as int).len(),
            forall|i: int| 0 <= i < pairs@.len() ==> (#[trigger] pairs@[i]).0 as int == sync_pairs_from(
                config.paths@,
                ctx.worktrees@,
                *selector,
                p as int,
            )[i].0 && pairs@[i].1 as int == sync_pairs_from(config.paths@, ctx.worktrees@, *selector, p as int)[i].1,
        decreases config.paths@.len() - p,
    {
        let pc = &config.paths[p];
        let ghost before = pairs@;
        let ghost prefix = sync_pairs_from(config.paths@, ctx.worktrees@, *selector, p as int);
        if pc.mode == Mode::Sync && selector_matches_path(selector, &pc.path) {
            let mut w: usize = 0;
            while w < ctx.worktrees.len()
                invariant
                    w <= ctx.worktrees@.len(),
                    p < config.paths@.len(),
                    pairs@.len() == prefix.len() + worktree_pairs(p as int, ctx.worktrees@, *selector, w as int).len(),
                    forall|i: int| 0 <= i < pairs@.len() ==> (#[trigger] pairs@[i]).0 as int == (prefix + worktree_pairs(
                        p as int,
                        ctx.worktrees@,
                        *selector,
                        w as int,
                    ))[i].0 && pairs@[i].1 as int == (prefix + worktree_pairs(p as int, ctx.worktrees@, *selector, w as int))[i].1,
                decreases ctx.worktrees@.len() - w,
            {
                let wt = &ctx.worktrees[w];
                if !wt.is_source && selector_matches_worktree(selector, &wt.id) {
                    pairs.push((p, w));
                }
                proof {
                    let a = prefix + worktree_pairs(p as int, ctx.worktrees@, *selector, w as int);
                    let b = prefix + worktree_pairs(p as int, ctx.worktrees@, *selector, w as int + 1);
                    if !wt.is_source && selects_worktree(*selector, wt.id.view()) {
                        assert(b =~= a.push((p as int, w as int)));
                    } else {
                        assert(b =~= a);
                    }
                }
                w = w + 1;
            }
        }
        proof {
            let next = sync_pairs_from(config.paths@, ctx.worktrees@, *selector, p as int + 1);
            if config.paths@[p as int].mode == Mode::Sync && selects_path(*selector, config.paths@[p as int].path.view()) {
                assert(next =~= prefix + worktree_pairs(p as int, ctx.worktrees@, *selector, ctx.worktrees@.len() as int));
            } else {
                assert(next =~= prefix);
            }
        }
        p = p + 1;
    }
    pairs
}


/// What `plan_sync` is handed for one selected pair: the pair's state
/// (loaded, or initialized by `load_or_initialize_state`) and the current
/// manifests of its source and worktree sides (empty where a side is missing).
#[derive(Debug)]
pub struct PairObservation {
    pub previous: PathState,
    pub source: Manifest,
    pub worktree: Manifest,
}

/// Where backups of the repository go: `<control dir>/backups`.
pub open spec fn backup_root_of(ctx: RepoContext) -> Seq<char> {
    joined(ctx.control_dir@, "backups"@)
}

/// The observation belongs to the pair: its state names the pair's path and
/// worktree.
pub open spec fn observation_matches(config: Config, ctx: RepoContext, pair: (int, int), obs: PairObservation) -> bool {
    &&& obs.previous.path.view() == config.paths@[pair.0].path.view()
    &&& obs.previous.worktree_id.view() == ctx.worktrees@[pair.1].id.view()
}

/// `part` is the sync plan of one pair, as `plan_pair_sync` makes it for the
/// pair's roots under the main worktree, the pair's worktree and the backups.
pub open spec fn pair_sync_ok(
    part: OperationPlan,
    ctx: RepoContext,
    config: Config,
    pair: (int, int),
    obs: PairObservation,
    policy: ConflictPolicy,
) -> bool {
    let p = config.paths@[pair.0].path.view();
    exists|report: DriftReport|
        report_classifies(report, obs.previous, obs.source, obs.worktree) && #[trigger] pair_plan_ok(
            part,
            report,
            obs.previous,
            policy,
            obs.source,
            obs.worktree,
            joined(ctx.main_worktree@, p),
            joined(ctx.worktrees@[pair.1].path@, p),
            backup_root_of(ctx),
        )
}

proof fn lemma_worktree_pairs_bounds(p: int, ws: Seq<WorktreeInfo>, sel: SyncSelector, upto: int)
    requires
        upto <= ws.len(),
    ensures
        forall|i: int| 0 <= i < worktree_pairs(p, ws, sel, upto).len() ==> {
            let q = #[trigger] worktree_pairs(p, ws, sel, upto)[i];
            &&& q.0 == p
            &&& 0 <= q.1 < upto
            &&& !ws[q.1].is_source
            &&& selects_worktree(sel, ws[q.1].id.view())
        },
    decreases upto,
{
    if upto > 0 {
        lemma_worktree_pairs_bounds(p, ws, sel, upto - 1);
        let prev = worktree_pairs(p, ws, sel, upto - 1);
        let all = worktree_pairs(p, ws, sel, upto);
        assert forall|i: int| 0 <= i < all.len() implies {
            let q = #[trigger] all[i];
            &&& q.0 == p
            &&& 0 <= q.1 < upto
            &&& !ws[q.1].is_source
            &&& selects_worktree(sel, ws[q.1].id.view())
        } by {
            if i < prev.len() {
                assert(all[i] == prev[i]);
            }
        }
    }
}

proof fn lemma_sync_pairs_from_bounds(paths: Seq<PathConfig>, ws: Seq<WorktreeInfo>, sel: SyncSelector, upto: int)
    requires
        upto <= paths.len(),
    ensures
        forall|i: int| 0 <= i < sync_pairs_from(paths, ws, sel, upto).len() ==> {
            let q = #[trigger] sync_pairs_from(paths, ws, sel, upto)[i];
            &&& 0 <= q.0 < upto
            &&& paths[q.0].mode == Mode::Sync
            &&& selects_path(sel, paths[q.0].path.view())
            &&& 0 <= q.1 < ws.len()
            &&& !ws[q.1].is_source
            &&& selects_worktree(sel, ws[q.1].id.view())
        },
    decreases upto,
{
    if upto > 0 {
        lemma_sync_pairs_from_bounds(paths, ws, sel, upto - 1);
        lemma_worktree_pairs_bounds(upto - 1, ws, sel, ws.len() as int);
        let prev = sync_pairs_from(paths, ws, sel, upto - 1);
        let all = sync_pairs_from(paths, ws, sel, upto);
        let tail = worktree_pairs(upto - 1, ws, sel, ws.len() as int);
        assert forall|i: int| 0 <= i < all.len() implies {
            let q = #[trigger] all[i];
            &&& 0 <= q.0 < upto
            &&& paths[q.0].mode == Mode::Sync
            &&& selects_path(sel, paths[q.0].path.view())
            &&& 0 <= q.1 < ws.len()
            &&& !ws[q.1].is_source
            &&& selects_worktree(sel, ws[q.1].id.view())
        } by {
            if i < prev.len() {
                assert(all[i] == prev[i]);
            } else {
                assert(all[i] == tail[i - prev.len()]);
            }
        }
    }
}

/// Every selected pair is a sync-mode path the selector admits and a
/// non-source worktree it admits.
pub proof fn lemma_sync_pairs_bounds(config: Config, ctx: RepoContext, sel: SyncSelector)
    ensures
        forall|i: int| 0 <= i < sync_pairs(config, ctx, sel).len() ==> {
            let q = #[trigger] sync_pairs(config, ctx, sel)[i];
            &&& 0 <= q.0 < config.paths@.len()
            &&& config.paths@[q.0].mode == Mode::Sync
            &&& selects_path(sel, config.paths@[q.0].path.view())
            &&& 0 <= q.1 < ctx.worktrees@.len()
            &&& !ctx.worktrees@[q.1].is_source
            &&& selects_worktree(sel, ctx.worktrees@[q.1].id.view())
        },
{
    lemma_sync_pairs_from_bounds(config.paths@, ctx.worktrees@, sel, config.paths@.len() as int);
}

/// Plans `wk sync`: every sync-mode path the selector admits against every
/// non-source worktree it admits, in configuration and worktree order, each
/// pair planned by `plan_pair_sync` under the options' conflict policy.
/// `observations` holds one observation per selected pair, in that order.
#[verifier::loop_isolation(false)]
pub fn plan_sync(
    ctx: &RepoContext,
    config: &Config,
    selector: &SyncSelector,
    options: SyncOptions,
    observations: Vec<PairObservation>,
) -> (r: Result<OperationPlan, WkError>)
    ensures
        observations@.len() != sync_pairs(*config, *ctx, *selector).len() ==> r is Err,
        ({
            let pairs = sync_pairs(*config, *ctx, *selector);
            &&& observations@.len() == pairs.len()
            &&& forall|i: int| 0 <= i < pairs.len() ==> observation_matches(*config, *ctx, pairs[i], #[trigger] observations@[i])
                && pass_possible(observations@[i].source, observations@[i].worktree)
        }) ==> r is Ok,
        r matches Ok(plan) ==> {
            let pairs = sync_pairs(*config, *ctx, *selector);
            &&& plan.summary@.map_values(|l: String| l@) == option_summary(options)
            &&& forall|i: int| 0 <= i < pairs.len() ==> observation_matches(*config, *ctx, pairs[i], #[trigger] observations@[i])
            &&& exists|parts: Seq<OperationPlan>| {
                &&& parts.len() == pairs.len()
                &&& #[trigger] concatenates(plan, plan.summary@, parts)
                &&& forall|i: int| 0 <= i < parts.len() ==> #[trigger] pair_sync_ok(
                    parts[i],
                    *ctx,
                    *config,
                    pairs[i],
                    observations@[i],
                    options.conflict_policy,
                )
            }
        },
{
    let pairs = select_sync_pairs(ctx, config, selector);
    let ghost spairs = sync_pairs(*config, *ctx, *selector);
    if observations.len() != pairs.len() {
        return Err(WkError::message(String::from_str("sync observations do not match the selected pairs")));
    }
    let mut plan = OperationPlan::empty();
    push_option_summary(&mut plan, options);
    let ghost head = plan.summary@;
    proof {
        assert(plan.fs_ops@ =~= concat_ops(Seq::empty()));
        assert(plan.state_updates@ =~= concat_updates(Seq::empty()));
        assert(plan.warnings@ =~= concat_warnings(Seq::empty()));
        assert(plan.summary@ =~= head + concat_summary(Seq::empty()));
    }
    let backup_root = join_path(ctx.control_dir.as_str(), "backups");
    proof {
        reveal_strlit("backups");
    }
    let ghost obs0 = observations@;
    let mut rest = observations;
    let ghost mut parts: Seq<OperationPlan> = Seq::empty();
    let mut k: usize = 0;
    while k < pairs.len()
        invariant
            pairs@.len() == spairs.len(),
            forall|i: int| 0 <= i < pairs@.len() ==> (#[trigger] pairs@[i]).0 as int == spairs[i].0
                && pairs@[i].1 as int == spairs[i].1,
            spairs == sync_pairs(*config, *ctx, *selector),
            obs0.len() == spairs.len(),
            k <= pairs@.len(),
            rest@ == obs0.skip(k as int),
            backup_root@ == backup_root_of(*ctx),
            parts.len() == k,
            plan.summary@.map_values(|l: String| l@) == option_summary(options),
            plan.summary@ == head,
            concat_summary(parts) == Seq::<String>::empty(),
            concatenates(plan, head, parts),
            forall|i: int| 0 <= i < k ==> observation_matches(*config, *ctx, spairs[i], #[trigger] obs0[i]),
            forall|i: int| 0 <= i < k ==> #[trigger] pair_sync_ok(
                parts[i],
                *ctx,
                *config,
                spairs[i],
                obs0[i],
                options.conflict_policy,
            ),
        decreases pairs@.len() - k,
    {
        let (pi, wi) = pairs[k];
        proof {
            assert(pairs@[k as int].0 as int == spairs[k as int].0);
            lemma_sync_pairs_bounds(*config, *ctx, *selector);
        }
        let pc = &config.paths[pi];
        let wt = &ctx.worktrees[wi];
        let obs = rest.remove(0);
        proof {
            assert(obs == obs0[k as int]);
            assert(rest@ =~= obs0.skip(k as int + 1));
        }
        if !obs.previous.path.same_as(&pc.path) || !obs.previous.worktree_id.same_as(&wt.id) {
            proof {
                assert(!observation_matches(*config, *ctx, spairs[k as int], obs0[k as int]));
            }
            return Err(WkError::message(cat("sync state does not belong to its pair: ", pc.path.as_str())));
        }
        let source_root = join_path(ctx.main_worktree.as_str(), pc.path.as_str());
        let worktree_root = join_path(wt.path.as_str(), pc.path.as_str());
        let ghost obs_k = obs;
        let PairObservation { previous, source, worktree } = obs;
        let part = match plan_pair_sync(
            previous,
            &source,
            &worktree,
            source_root.as_str(),
            worktree_root.as_str(),
            backup_root.as_str(),
            options.conflict_policy,
        ) {
            Ok(part) => part,
            Err(err) => {
                proof {
                    assert(!pass_possible(obs0[k as int].source, obs0[k as int].worktree));
                }
                return Err(err);
            },
        };
        let ghost parts0 = parts;
        let ghost plan0 = plan;
        proof {
            parts = parts.push(part);
            lemma_concat_push(parts0, part);
            assert(pair_sync_ok(part, *ctx, *config, spairs[k as int], obs0[k as int], options.conflict_policy));
            assert forall|i: int| 0 <= i < k + 1 implies #[trigger] pair_sync_ok(
                parts[i],
                *ctx,
                *config,
                spairs[i],
                obs0[i],
                options.conflict_policy,
            ) by {
                if i < k {
                    assert(parts[i] == parts0[i]);
                }
            }
        }
        plan.extend(part);
        proof {
            assert(plan.summary@ =~= plan0.summary@);
            assert(concat_summary(parts) =~= Seq::<String>::empty());
        }
        k = k + 1;
    }
    proof {
        assert(concatenates(plan, plan.summary@, parts));
        assert(forall|i: int| 0 <= i < spairs.len() ==> observation_matches(*config, *ctx, spairs[i], #[trigger] obs0[i]));
        assert(parts.len() == spairs.len());
        assert(obs0 == observations@);
        assert(forall|i: int| 0 <= i < parts.len() ==> #[trigger] pair_sync_ok(
            parts[i],
            *ctx,
            *config,
            spairs[i],
            observations@[i],
            options.conflict_policy,
        ));
    }
    let ghost pairs_s = spairs;
    let ghost plan_v = plan;
    let result: Result<OperationPlan, WkError> = Ok(plan);
    proof {
        assert(result->Ok_0 == plan_v);
        assert(concatenates(result->Ok_0, result->Ok_0.summary@, parts));
        assert(exists|ps: Seq<OperationPlan>| {
            &&& ps.len() == pairs_s.len()
            &&& #[trigger] concatenates(result->Ok_0, result->Ok_0.summary@, ps)
            &&& forall|i: int| 0 <= i < ps.len() ==> #[trigger] pair_sync_ok(
                ps[i],
                *ctx,
                *config,
                pairs_s[i],
                observations@[i],
                options.conflict_policy,
            )
        });
    }
    result
}

} // verus!
