use wk::config::{Config, PathConfig};
use wk::domain::{ConflictPolicy, ManagedPath, Mode, SyncPolicy};
use wk::fs_plan::FsOp;
use wk::git_repo::{RepoContext, WorktreeId, WorktreeInfo};
use wk::manifest::{EntryKind, Manifest, ManifestEntry};
use wk::materialize::StateUpdate;
use wk::state::{DestinationKind, MaterializationProvenance, PairStatus, PathState};
use wk::sync_plan::{load_or_initialize_state, plan_sync, PairObservation, SyncOptions, SyncSelector};

fn context() -> RepoContext {
    RepoContext {
        main_worktree: "/repo/main".to_owned(),
        git_common_dir: "/repo/main/.git".to_owned(),
        control_dir: "/repo/main/.wk".to_owned(),
        worktrees: vec![
            WorktreeInfo { id: WorktreeId::linked("feature"), path: "/repo/feature".to_owned(), is_source: false },
            WorktreeInfo { id: WorktreeId::main(), path: "/repo/main".to_owned(), is_source: true },
        ],
    }
}

fn sync_config() -> Config {
    Config {
        version: 1,
        default_sync_policy: SyncPolicy::Manual,
        default_conflict_policy: ConflictPolicy::Ask,
        paths: vec![PathConfig {
            path: ManagedPath::parse("docs/local").unwrap(),
            mode: Mode::Sync,
            sync_policy: None,
            conflict_policy: None,
        }],
    }
}

fn file(hash: &str, mtime: i128) -> ManifestEntry {
    ManifestEntry { kind: EntryKind::File, hash: Some(hash.to_owned()), target: None, executable: false, size: 4, mtime }
}

fn manifest(entries: &[(&str, &str, i128)]) -> Manifest {
    let mut m = Manifest::new();
    for (path, hash, mtime) in entries {
        m.insert((*path).to_owned(), file(hash, *mtime));
    }
    m
}

fn clean_state(source: Manifest, worktree: Manifest) -> PathState {
    PathState {
        path: ManagedPath::parse("docs/local").unwrap(),
        worktree_id: WorktreeId::linked("feature"),
        status: PairStatus::Clean,
        provenance: MaterializationProvenance {
            destination_kind: DestinationKind::SyncCopy,
            created_or_adopted_by_wk: true,
            expected_symlink_target: None,
        },
        source_manifest: Some(source),
        worktree_manifest: Some(worktree),
        conflict: None,
    }
}

fn ask_manual(dry_run: bool) -> SyncOptions {
    SyncOptions { policy: SyncPolicy::Manual, conflict_policy: ConflictPolicy::Ask, dry_run }
}

fn copies(ops: &[FsOp]) -> Vec<(String, String)> {
    ops.iter()
        .filter_map(|op| match op {
            FsOp::CopyFile { source, dest } => Some((source.clone(), dest.clone())),
            _ => None,
        })
        .collect()
}

#[test]
fn sync_all_unions_source_and_worktree_added_entries() {
    let observation = PairObservation {
        previous: clean_state(Manifest::new(), Manifest::new()),
        source: manifest(&[("source.md", "s", 1)]),
        worktree: manifest(&[("worktree.md", "w", 1)]),
    };
    let plan = plan_sync(&context(), &sync_config(), &SyncSelector::All, ask_manual(false), vec![observation]).unwrap();

    let copied = copies(&plan.fs_ops);
    assert!(copied.contains(&(
        "/repo/main/docs/local/source.md".to_owned(),
        "/repo/feature/docs/local/source.md".to_owned()
    )));
    assert!(copied.contains(&(
        "/repo/feature/docs/local/worktree.md".to_owned(),
        "/repo/main/docs/local/worktree.md".to_owned()
    )));
}

#[test]
fn sync_without_existing_state_uses_empty_base_for_initial_union() {
    let path = ManagedPath::parse("docs/local").unwrap();
    let previous = load_or_initialize_state(None, &path, &WorktreeId::linked("feature"));
    assert_eq!(previous.status, PairStatus::Uninitialized);
    let observation = PairObservation {
        previous,
        source: manifest(&[("source.md", "s", 1)]),
        worktree: manifest(&[("worktree.md", "w", 1)]),
    };
    let plan = plan_sync(&context(), &sync_config(), &SyncSelector::All, ask_manual(false), vec![observation]).unwrap();

    let copied = copies(&plan.fs_ops);
    assert_eq!(copied.len(), 2);
    assert!(copied.contains(&(
        "/repo/main/docs/local/source.md".to_owned(),
        "/repo/feature/docs/local/source.md".to_owned()
    )));
    assert!(copied.contains(&(
        "/repo/feature/docs/local/worktree.md".to_owned(),
        "/repo/main/docs/local/worktree.md".to_owned()
    )));
}

#[test]
fn conflicting_entry_is_left_untouched_with_ask_policy() {
    let observation = PairObservation {
        previous: clean_state(manifest(&[("shared.md", "base", 1)]), manifest(&[("shared.md", "base", 1)])),
        source: manifest(&[("shared.md", "source", 2)]),
        worktree: manifest(&[("shared.md", "worktree", 3)]),
    };
    let plan = plan_sync(&context(), &sync_config(), &SyncSelector::All, ask_manual(false), vec![observation]).unwrap();

    assert!(plan.fs_ops.is_empty());
    assert!(plan.warnings.iter().any(|warning| warning.contains("conflict")));
    match &plan.state_updates[0] {
        StateUpdate::Save(state) => {
            assert_eq!(state.status, PairStatus::Conflict);
            assert_eq!(state.conflict.as_ref().map(|c| c.entries.clone()), Some(vec!["shared.md".to_owned()]));
        },
        StateUpdate::Remove { .. } => panic!("expected a saved state"),
    }
}

#[test]
fn identical_convergence_refreshes_state_without_copying() {
    let observation = PairObservation {
        previous: clean_state(manifest(&[("shared.md", "base", 1)]), manifest(&[("shared.md", "base", 1)])),
        source: manifest(&[("shared.md", "same", 2)]),
        worktree: manifest(&[("shared.md", "same", 3)]),
    };
    let plan = plan_sync(&context(), &sync_config(), &SyncSelector::All, ask_manual(false), vec![observation]).unwrap();

    assert!(plan.fs_ops.is_empty());
    assert_eq!(plan.state_updates.len(), 1);
}

#[test]
fn newer_policy_emits_unsafe_warning() {
    let observation = PairObservation {
        previous: clean_state(manifest(&[("shared.md", "base", 1)]), manifest(&[("shared.md", "base", 1)])),
        source: manifest(&[("shared.md", "source", 5)]),
        worktree: manifest(&[("shared.md", "worktree", 9)]),
    };
    let options = SyncOptions { policy: SyncPolicy::Manual, conflict_policy: ConflictPolicy::Newer, dry_run: true };
    let plan = plan_sync(&context(), &sync_config(), &SyncSelector::All, options, vec![observation]).unwrap();

    assert!(plan.warnings.iter().any(|warning| warning.contains("mtime")));
    assert_eq!(plan.summary, vec!["dry run: no filesystem writes".to_owned()]);
    let copied = copies(&plan.fs_ops);
    assert!(copied.contains(&(
        "/repo/feature/docs/local/shared.md".to_owned(),
        "/repo/main/docs/local/shared.md".to_owned()
    )));
}

#[test]
fn source_deletion_backs_up_the_worktree_copy() {
    let observation = PairObservation {
        previous: clean_state(manifest(&[("gone.md", "x", 1)]), manifest(&[("gone.md", "x", 1)])),
        source: Manifest::new(),
        worktree: manifest(&[("gone.md", "x", 1)]),
    };
    let plan = plan_sync(&context(), &sync_config(), &SyncSelector::All, ask_manual(false), vec![observation]).unwrap();

    assert_eq!(plan.fs_ops.len(), 1);
    match &plan.fs_ops[0] {
        FsOp::BackupPath { path, backup } => {
            assert_eq!(path, "/repo/feature/docs/local/gone.md");
            assert!(backup.starts_with("/repo/main/.wk/backups/"));
            assert!(backup.ends_with("-_repo_feature_docs_local_gone_md"));
        },
        other => panic!("unexpected operation {other:?}"),
    }
}

#[test]
fn observations_must_match_selected_pairs() {
    let plan = plan_sync(&context(), &sync_config(), &SyncSelector::All, ask_manual(false), Vec::new());
    assert!(plan.is_err());
    let selector = SyncSelector::Worktree(WorktreeId::linked("other"));
    let plan = plan_sync(&context(), &sync_config(), &selector, ask_manual(false), Vec::new()).unwrap();
    assert!(plan.fs_ops.is_empty());
}

#[test]
fn auto_policy_is_announced_in_the_summary() {
    let options = SyncOptions { policy: SyncPolicy::Auto, conflict_policy: ConflictPolicy::Ask, dry_run: false };
    let selector = SyncSelector::Worktree(WorktreeId::linked("other"));
    let plan = plan_sync(&context(), &sync_config(), &selector, options, Vec::new()).unwrap();
    assert_eq!(plan.summary, vec!["auto sync".to_owned()]);
}

#[test]
fn removals_run_deepest_first_then_by_descending_path() {
    let entries = [("a.md", "x", 1), ("b.md", "x", 1), ("d/c.md", "x", 1)];
    let observation = PairObservation {
        previous: clean_state(manifest(&entries), manifest(&entries)),
        source: Manifest::new(),
        worktree: manifest(&entries),
    };
    let plan = plan_sync(&context(), &sync_config(), &SyncSelector::All, ask_manual(false), vec![observation]).unwrap();
    let paths: Vec<String> = plan
        .fs_ops
        .iter()
        .map(|op| match op {
            FsOp::BackupPath { path, .. } => path.clone(),
            other => panic!("unexpected operation {other:?}"),
        })
        .collect();
    assert_eq!(
        paths,
        vec![
            "/repo/feature/docs/local/d/c.md".to_owned(),
            "/repo/feature/docs/local/b.md".to_owned(),
            "/repo/feature/docs/local/a.md".to_owned(),
        ]
    );
}
