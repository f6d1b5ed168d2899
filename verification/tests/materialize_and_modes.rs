use wk::config::{Config, PathConfig};
use wk::domain::{ConflictPolicy, ManagedPath, Mode, SyncPolicy};
use wk::fs_plan::FsOp;
use wk::git_repo::{RepoContext, WorktreeId, WorktreeInfo};
use wk::manifest::{EntryKind, Manifest, ManifestEntry, PathSnapshot};
use wk::materialize::{plan_apply, ApplyObservation, ApplyTarget, DestinationObservation, OperationPlan, StateUpdate};
use wk::mode_plan::{plan_mode_change, ModeOptions, TransitionChoice, TransitionObservation};
use wk::state::{DestinationKind, MaterializationProvenance, PairStatus, PathState};

fn context() -> RepoContext {
    RepoContext {
        main_worktree: "/repo/main".to_owned(),
        git_common_dir: "/repo/main/.git".to_owned(),
        control_dir: "/repo/main/.wk".to_owned(),
        worktrees: vec![
            WorktreeInfo { id: WorktreeId::main(), path: "/repo/main".to_owned(), is_source: true },
            WorktreeInfo { id: WorktreeId::linked("feature"), path: "/repo/feature".to_owned(), is_source: false },
        ],
    }
}

fn config_for(path: &str, mode: Mode) -> Config {
    Config {
        version: 1,
        default_sync_policy: SyncPolicy::Manual,
        default_conflict_policy: ConflictPolicy::Ask,
        paths: vec![PathConfig { path: ManagedPath::parse(path).unwrap(), mode, sync_policy: None, conflict_policy: None }],
    }
}

fn file(hash: &str) -> ManifestEntry {
    ManifestEntry { kind: EntryKind::File, hash: Some(hash.to_owned()), target: None, executable: false, size: 1, mtime: 1 }
}

fn dir_snapshot(entries: &[(&str, &str)]) -> PathSnapshot {
    let mut manifest = Manifest::new();
    for (path, hash) in entries {
        manifest.insert((*path).to_owned(), file(hash));
    }
    PathSnapshot { root: Some(EntryKind::Directory), manifest }
}

fn file_snapshot(hash: &str) -> PathSnapshot {
    let mut manifest = Manifest::new();
    manifest.insert(String::new(), file(hash));
    PathSnapshot { root: Some(EntryKind::File), manifest }
}

fn missing() -> PathSnapshot {
    PathSnapshot { root: None, manifest: Manifest::new() }
}

fn copy_symlink_ops(plan: &OperationPlan) -> Vec<(String, String)> {
    plan.fs_ops
        .iter()
        .filter_map(|op| match op {
            FsOp::CopySymlink { target, dest, .. } => Some((target.clone(), dest.clone())),
            _ => None,
        })
        .collect()
}

fn symlink_state(target: &str) -> PathState {
    PathState {
        path: ManagedPath::parse(".cursor").unwrap(),
        worktree_id: WorktreeId::linked("feature"),
        status: PairStatus::Clean,
        provenance: MaterializationProvenance {
            destination_kind: DestinationKind::Symlink,
            created_or_adopted_by_wk: true,
            expected_symlink_target: Some(target.to_owned()),
        },
        source_manifest: None,
        worktree_manifest: None,
        conflict: None,
    }
}

#[test]
fn apply_all_excludes_source_and_links_with_relative_target() {
    let observations = vec![ApplyObservation {
        destination: DestinationObservation::Missing,
        stored: None,
        source: dir_snapshot(&[("settings.json", "{}")]),
    }];
    let plan = plan_apply(&context(), &config_for(".cursor", Mode::Link), &ApplyTarget::All, &observations).unwrap();

    let links = copy_symlink_ops(&plan);
    assert_eq!(links.len(), 1);
    let (target, dest) = &links[0];
    assert_eq!(dest, "/repo/feature/.cursor");
    assert!(!dest.starts_with("/repo/main"));
    assert!(!target.starts_with('/'));
    assert_eq!(target, "../main/.cursor");
}

#[test]
fn link_apply_records_symlink_provenance() {
    let observations = vec![ApplyObservation {
        destination: DestinationObservation::Missing,
        stored: None,
        source: dir_snapshot(&[("settings.json", "{}")]),
    }];
    let plan = plan_apply(&context(), &config_for(".cursor", Mode::Link), &ApplyTarget::All, &observations).unwrap();

    assert!(plan.state_updates.iter().any(|update| matches!(
        update,
        StateUpdate::Save(path_state)
            if path_state.path.as_str() == ".cursor"
                && path_state.provenance.destination_kind == DestinationKind::Symlink
                && path_state.provenance.created_or_adopted_by_wk
                && path_state.provenance.expected_symlink_target.is_some()
    )));
}

#[test]
fn link_repair_only_applies_to_wk_created_symlink() {
    let config = config_for(".cursor", Mode::Link);
    let repair = plan_apply(&context(), &config, &ApplyTarget::All, &vec![ApplyObservation {
        destination: DestinationObservation::Symlink("elsewhere".to_owned()),
        stored: Some(symlink_state("elsewhere")),
        source: dir_snapshot(&[("settings.json", "{}")]),
    }])
    .unwrap();
    assert_eq!(copy_symlink_ops(&repair).len(), 1);

    let foreign = plan_apply(&context(), &config, &ApplyTarget::All, &vec![ApplyObservation {
        destination: DestinationObservation::Symlink("elsewhere".to_owned()),
        stored: None,
        source: dir_snapshot(&[("settings.json", "{}")]),
    }])
    .unwrap();
    assert!(copy_symlink_ops(&foreign).is_empty());
    assert!(foreign.warnings.iter().any(|warning| warning.contains("foreign")));
}

#[test]
fn mode_planner_covers_all_non_identity_transitions() {
    let modes = [Mode::Ignore, Mode::Link, Mode::Copy, Mode::Sync];
    for from in modes {
        for to in modes {
            if from == to {
                continue;
            }
            let observations = vec![TransitionObservation {
                destination: DestinationObservation::Missing,
                stored: None,
                source: dir_snapshot(&[("settings.json", "{}")]),
                worktree: missing(),
            }];
            let plan = plan_mode_change(
                &context(),
                &config_for(".cursor", from),
                &ManagedPath::parse(".cursor").unwrap(),
                to,
                ModeOptions { dry_run: true, choice: TransitionChoice::Default },
                &observations,
            )
            .unwrap();
            assert!(!plan.summary.is_empty(), "{from:?} -> {to:?}");
        }
    }
}

#[test]
fn copy_to_sync_source_wins_uses_overlay_without_deleting_destination_unique_files() {
    let observations = vec![TransitionObservation {
        destination: DestinationObservation::Other,
        stored: None,
        source: dir_snapshot(&[("source-only.md", "source")]),
        worktree: dir_snapshot(&[("worktree-only.md", "worktree")]),
    }];
    let plan = plan_mode_change(
        &context(),
        &config_for("docs/local", Mode::Copy),
        &ManagedPath::parse("docs/local").unwrap(),
        Mode::Sync,
        ModeOptions { dry_run: false, choice: TransitionChoice::SourceWins },
        &observations,
    )
    .unwrap();

    assert!(plan.fs_ops.iter().any(|op| matches!(
        op,
        FsOp::CopyFile { source, dest }
            if source == "/repo/main/docs/local/source-only.md" && dest == "/repo/feature/docs/local/source-only.md"
    )));
    assert!(plan.fs_ops.iter().all(|op| !matches!(
        op,
        FsOp::RemoveFile { .. } | FsOp::RemoveEmptyDir { .. } | FsOp::BackupPath { .. }
    )));
}

#[test]
fn ignore_to_copy_keeps_existing_destination_by_default() {
    let observations = vec![TransitionObservation {
        destination: DestinationObservation::Other,
        stored: None,
        source: file_snapshot("source"),
        worktree: file_snapshot("worktree"),
    }];
    let plan = plan_mode_change(
        &context(),
        &config_for("AGENTS.local.md", Mode::Ignore),
        &ManagedPath::parse("AGENTS.local.md").unwrap(),
        Mode::Copy,
        ModeOptions { dry_run: false, choice: TransitionChoice::Default },
        &observations,
    )
    .unwrap();

    assert!(plan.fs_ops.is_empty());
}

#[test]
fn sync_to_copy_keeps_worktree_content_and_removes_state() {
    let observations = vec![TransitionObservation {
        destination: DestinationObservation::Other,
        stored: None,
        source: dir_snapshot(&[("shared.md", "source")]),
        worktree: dir_snapshot(&[("shared.md", "worktree")]),
    }];
    let plan = plan_mode_change(
        &context(),
        &config_for("docs/local", Mode::Sync),
        &ManagedPath::parse("docs/local").unwrap(),
        Mode::Copy,
        ModeOptions { dry_run: false, choice: TransitionChoice::Default },
        &observations,
    )
    .unwrap();

    assert!(plan.fs_ops.is_empty());
    assert!(plan.state_updates.iter().any(|update| matches!(
        update,
        StateUpdate::Remove { path, .. } if path.as_str() == "docs/local"
    )));
}

#[test]
fn source_wins_transition_backs_up_replaced_files() {
    let observations = vec![TransitionObservation {
        destination: DestinationObservation::Other,
        stored: None,
        source: dir_snapshot(&[("shared.md", "source")]),
        worktree: dir_snapshot(&[("shared.md", "worktree")]),
    }];
    let context = context();
    let plan = plan_mode_change(
        &context,
        &config_for("docs/local", Mode::Copy),
        &ManagedPath::parse("docs/local").unwrap(),
        Mode::Sync,
        ModeOptions { dry_run: false, choice: TransitionChoice::SourceWins },
        &observations,
    )
    .unwrap();
    let backup = plan
        .fs_ops
        .iter()
        .find_map(|op| match op {
            FsOp::BackupPath { path, backup } if path == "/repo/feature/docs/local/shared.md" => Some(backup.clone()),
            _ => None,
        })
        .expect("missing backup for replaced worktree file");
    assert!(backup.starts_with("/repo/main/.wk/backups"));
    let backup_at = plan.fs_ops.iter().position(|op| matches!(op, FsOp::BackupPath { .. })).unwrap();
    let copy_at = plan
        .fs_ops
        .iter()
        .position(|op| matches!(op, FsOp::CopyFile { dest, .. } if dest == "/repo/feature/docs/local/shared.md"))
        .unwrap();
    assert!(backup_at < copy_at);
}

#[test]
fn same_mode_is_reported_and_plans_nothing() {
    let plan = plan_mode_change(
        &context(),
        &config_for(".cursor", Mode::Link),
        &ManagedPath::parse(".cursor").unwrap(),
        Mode::Link,
        ModeOptions { dry_run: false, choice: TransitionChoice::Default },
        &Vec::new(),
    )
    .unwrap();
    assert_eq!(plan.summary, vec![".cursor already in Link".to_owned()]);
    assert!(plan.fs_ops.is_empty());
}

#[test]
fn differing_sync_initialization_marks_conflict_by_default() {
    let observations = vec![TransitionObservation {
        destination: DestinationObservation::Other,
        stored: None,
        source: dir_snapshot(&[("shared.md", "source")]),
        worktree: dir_snapshot(&[("shared.md", "worktree")]),
    }];
    let plan = plan_mode_change(
        &context(),
        &config_for("docs/local", Mode::Copy),
        &ManagedPath::parse("docs/local").unwrap(),
        Mode::Sync,
        ModeOptions { dry_run: false, choice: TransitionChoice::Default },
        &observations,
    )
    .unwrap();
    assert!(plan.fs_ops.is_empty());
    assert_eq!(plan.summary, vec!["docs/local: Copy -> Sync".to_owned()]);
    assert_eq!(plan.warnings, vec!["docs/local differs; marked sync conflict".to_owned()]);
    assert!(matches!(&plan.state_updates[0], StateUpdate::Save(st) if st.status == PairStatus::Conflict));
}

#[test]
fn sync_to_link_default_skips_changed_worktree_content() {
    let observations = vec![TransitionObservation {
        destination: DestinationObservation::Other,
        stored: None,
        source: dir_snapshot(&[("shared.md", "source")]),
        worktree: dir_snapshot(&[("shared.md", "worktree")]),
    }];
    let plan = plan_mode_change(
        &context(),
        &config_for("docs/local", Mode::Sync),
        &ManagedPath::parse("docs/local").unwrap(),
        Mode::Link,
        ModeOptions { dry_run: false, choice: TransitionChoice::Default },
        &observations,
    )
    .unwrap();
    assert!(plan.fs_ops.is_empty());
    assert!(plan.state_updates.is_empty());
    assert_eq!(plan.warnings, vec!["docs/local sync -> link may discard worktree content".to_owned()]);
}

#[test]
fn copy_and_sync_apply_only_fill_missing_destinations() {
    let config = Config {
        version: 1,
        default_sync_policy: SyncPolicy::Manual,
        default_conflict_policy: ConflictPolicy::Ask,
        paths: vec![
            PathConfig { path: ManagedPath::parse("AGENTS.local.md").unwrap(), mode: Mode::Copy, sync_policy: None, conflict_policy: None },
            PathConfig { path: ManagedPath::parse("docs/local").unwrap(), mode: Mode::Sync, sync_policy: None, conflict_policy: None },
        ],
    };
    let observations = vec![
        ApplyObservation { destination: DestinationObservation::Other, stored: None, source: file_snapshot("a") },
        ApplyObservation { destination: DestinationObservation::Missing, stored: None, source: dir_snapshot(&[("n.md", "n")]) },
    ];
    let plan = plan_apply(&context(), &config, &ApplyTarget::All, &observations).unwrap();
    assert_eq!(plan.summary, vec!["overlay copy /repo/main/docs/local -> /repo/feature/docs/local".to_owned()]);
    assert_eq!(plan.fs_ops.len(), 2);
    assert_eq!(plan.state_updates.len(), 1);
    assert!(matches!(&plan.state_updates[0], StateUpdate::Save(st) if st.status == PairStatus::Clean));
}
