use wk::cli::{CliConflictPolicy, CliMode, CliSyncPolicy, CliTransitionChoice, Command};
use wk::commands::{
    apply_target, auto_sync_requests, cli_conflict_policy, cli_mode, cli_sync_policy, cli_transition_choice,
    command_mutates, mode_conflict_policy, mode_options, parse_duration, should_update_config,
    stale_state_dirs, sync_requests, sync_scope, with_control_dir_ignore, ModeCommandOptions, SyncScope,
};
use wk::config::{Config, PathConfig};
use wk::domain::{ConflictPolicy, ManagedPath, Mode, SyncPolicy};
use wk::git_repo::{RepoContext, WorktreeId, WorktreeInfo};
use wk::manifest::{EntryKind, Manifest, ManifestEntry};
use wk::materialize::{ApplyTarget, OperationPlan};
use wk::mode_plan::TransitionChoice;
use wk::state::{DestinationKind, MaterializationProvenance, PairStatus, PathState};
use wk::materialize::DestinationObservation;
use wk::status::{
    copy_status, exit_code, link_status, non_sync_status, status_label, status_line, status_refresh, status_row, status_rows,
    sync_status, RowStatus, StatusObservation,
};
use wk::sync_plan::SyncSelector;
use wk::ui::{path_config_from_answers, CliclackPrompter};

fn context() -> RepoContext {
    RepoContext {
        main_worktree: "/repo/main".to_owned(),
        git_common_dir: "/repo/main/.git".to_owned(),
        control_dir: "/repo/main/.wk".to_owned(),
        worktrees: vec![
            WorktreeInfo { id: WorktreeId::main(), path: "/repo/main".to_owned(), is_source: true },
            WorktreeInfo { id: WorktreeId::linked("feature"), path: "/repo/feature".to_owned(), is_source: false },
        ],
    }
}

fn config() -> Config {
    Config {
        version: 1,
        default_sync_policy: SyncPolicy::Manual,
        default_conflict_policy: ConflictPolicy::Ask,
        paths: vec![
            PathConfig { path: ManagedPath::parse(".cursor").unwrap(), mode: Mode::Link, sync_policy: None, conflict_policy: None },
            PathConfig {
                path: ManagedPath::parse("docs/local").unwrap(),
                mode: Mode::Sync,
                sync_policy: Some(SyncPolicy::Auto),
                conflict_policy: Some(ConflictPolicy::Source),
            },
            PathConfig { path: ManagedPath::parse("notes").unwrap(), mode: Mode::Sync, sync_policy: None, conflict_policy: None },
        ],
    }
}

fn file(hash: &str) -> ManifestEntry {
    ManifestEntry { kind: EntryKind::File, hash: Some(hash.to_owned()), target: None, executable: false, size: 1, mtime: 1 }
}

fn manifest(entries: &[(&str, &str)]) -> Manifest {
    let mut m = Manifest::new();
    for (p, h) in entries {
        m.insert((*p).to_owned(), file(h));
    }
    m
}

fn clean(status: PairStatus) -> PathState {
    PathState {
        path: ManagedPath::parse("docs/local").unwrap(),
        worktree_id: WorktreeId::linked("feature"),
        status,
        provenance: MaterializationProvenance {
            destination_kind: DestinationKind::SyncCopy,
            created_or_adopted_by_wk: true,
            expected_symlink_target: None,
        },
        source_manifest: Some(manifest(&[("a", "one")])),
        worktree_manifest: Some(manifest(&[("a", "one")])),
        conflict: None,
    }
}

#[test]
fn mutation_lock_is_taken_only_by_mutating_commands() {
    assert!(command_mutates(&Command::Init, true));
    assert!(command_mutates(&Command::Prune, true));
    assert!(command_mutates(&Command::Add { path: ".cursor".to_owned(), force: false }, true));
    assert!(command_mutates(&Command::Apply { worktree: None }, false));
    assert!(!command_mutates(&Command::Apply { worktree: None }, true));
    assert!(!command_mutates(&Command::Status { json: true }, false));
    assert!(command_mutates(&Command::Gc { force: true, older_than: None, keep: None }, false));
    assert!(!command_mutates(&Command::Gc { force: false, older_than: None, keep: None }, false));
    assert!(!command_mutates(&Command::Gc { force: true, older_than: None, keep: None }, true));
}

#[test]
fn command_line_values_map_to_library_values() {
    assert_eq!(cli_mode(CliMode::Copy), Mode::Copy);
    assert_eq!(cli_sync_policy(CliSyncPolicy::Auto), SyncPolicy::Auto);
    assert_eq!(cli_conflict_policy(CliConflictPolicy::Worktree), ConflictPolicy::Worktree);
    assert_eq!(cli_transition_choice(CliTransitionChoice::Source), TransitionChoice::SourceWins);
    let options = ModeCommandOptions { sync_policy: None, conflict_policy: Some(CliConflictPolicy::Newer), choice: None, dry_run: true };
    assert_eq!(mode_options(options).choice, TransitionChoice::Default);
    assert!(mode_options(options).dry_run);
    assert_eq!(mode_conflict_policy(options), (Some(ConflictPolicy::Newer), true));
}

#[test]
fn gc_durations_read_amount_and_unit() {
    assert_eq!(parse_duration("30d").unwrap(), 30 * 86400);
    assert_eq!(parse_duration("90s").unwrap(), 90);
    assert_eq!(parse_duration("2h").unwrap(), 7200);
    assert_eq!(parse_duration("5m").unwrap(), 300);
    assert_eq!(parse_duration("30x").unwrap_err().describe(), "unsupported duration: 30x");
    assert!(parse_duration("d").is_err());
    assert!(parse_duration("").is_err());
    assert_eq!(
        parse_duration("18446744073709551615d").unwrap_err().describe(),
        "duration is too large: 18446744073709551615d"
    );
}

#[test]
fn init_adds_control_dir_ignore_once() {
    assert_eq!(with_control_dir_ignore(""), Some(".wk/\n".to_owned()));
    assert_eq!(with_control_dir_ignore("target"), Some("target\n.wk/\n".to_owned()));
    assert_eq!(with_control_dir_ignore("target\n"), Some("target\n.wk/\n".to_owned()));
    assert_eq!(with_control_dir_ignore("a\n  .wk/  \nb"), None);
    assert_eq!(with_control_dir_ignore(".wk/"), None);
    assert_eq!(with_control_dir_ignore(".wk"), Some(".wk\n.wk/\n".to_owned()));
    for text in ["", "target", "target\n", ".wk", " a \r\n"] {
        let once = with_control_dir_ignore(text).unwrap();
        assert_eq!(with_control_dir_ignore(&once), None);
    }
}

#[test]
fn prune_removes_state_of_vanished_worktrees_only() {
    let names = vec!["feature".to_owned(), "gone".to_owned(), "main".to_owned()];
    assert_eq!(stale_state_dirs(&context(), &names), vec!["gone".to_owned(), "main".to_owned()]);
}

#[test]
fn sync_arguments_select_paths_or_worktrees() {
    let ctx = context();
    let cfg = config();
    assert!(matches!(sync_scope(&ctx, &cfg, None, None), Ok(SyncScope::All)));
    assert!(matches!(sync_scope(&ctx, &cfg, Some("docs/local"), None), Ok(SyncScope::Path(p)) if p.as_str() == "docs/local"));
    assert!(matches!(sync_scope(&ctx, &cfg, Some("feature"), None), Ok(SyncScope::Worktree(id)) if id.as_str() == "feature"));
    assert_eq!(sync_scope(&ctx, &cfg, Some("nowhere"), None).err().map(|e| e.describe()), Some("unknown worktree: nowhere".to_owned()));
    assert!(matches!(sync_scope(&ctx, &cfg, None, Some("/repo/feature")), Ok(SyncScope::Worktree(_))));

    let all = sync_requests(&cfg, &SyncScope::All, false).unwrap();
    assert_eq!(all.len(), 2);
    assert!(matches!(&all[0].selector, SyncSelector::Path(p) if p.as_str() == "docs/local"));
    assert_eq!(all[0].options.policy, SyncPolicy::Auto);
    assert_eq!(all[0].options.conflict_policy, ConflictPolicy::Source);
    assert_eq!(all[1].options.policy, SyncPolicy::Manual);
    let missing = SyncScope::Path(ManagedPath::parse("other").unwrap());
    assert_eq!(sync_requests(&cfg, &missing, false).err().map(|e| e.describe()), Some("path is not configured: other".to_owned()));

    let auto = auto_sync_requests(&cfg, &ApplyTarget::Worktree(WorktreeId::linked("feature")), true);
    assert_eq!(auto.len(), 1);
    assert!(matches!(&auto[0].selector, SyncSelector::PathAndWorktree(p, id) if p.as_str() == "docs/local" && id.as_str() == "feature"));
    assert!(auto[0].options.dry_run);

    assert!(matches!(apply_target(&ctx, None), Ok(ApplyTarget::All)));
    assert!(apply_target(&ctx, Some("main")).is_err());
}

#[test]
fn sync_to_link_that_changed_nothing_keeps_the_config() {
    let mut cfg = config();
    let path = ManagedPath::parse("docs/local").unwrap();
    let empty = OperationPlan::empty();
    assert!(!should_update_config(&cfg, &path, Mode::Link, &empty));
    assert!(should_update_config(&cfg, &path, Mode::Copy, &empty));
    cfg.upsert(path.clone(), Mode::Copy, None, None);
    assert!(should_update_config(&cfg, &path, Mode::Link, &empty));
}

#[test]
fn status_json_exit_codes_are_scriptable() {
    assert_eq!(exit_code(&vec![RowStatus::Clean, RowStatus::Clean]), 0);
    assert_eq!(exit_code(&vec![RowStatus::Clean, RowStatus::Drift]), 1);
    assert_eq!(exit_code(&vec![RowStatus::Uninitialized]), 1);
    assert_eq!(exit_code(&vec![RowStatus::Drift, RowStatus::Conflict]), 2);
    assert_eq!(exit_code(&Vec::new()), 0);
    assert_eq!(status_label(RowStatus::Uninitialized), "uninitialized");
    assert_eq!(non_sync_status(true), RowStatus::Clean);
    assert_eq!(non_sync_status(false), RowStatus::Uninitialized);
}

#[test]
fn sync_status_distinguishes_clean_drift_and_conflict() {
    let same = manifest(&[("a", "one")]);
    assert_eq!(sync_status(&None, &same, &same), RowStatus::Uninitialized);
    assert_eq!(sync_status(&Some(clean(PairStatus::Clean)), &same, &same), RowStatus::Clean);
    assert_eq!(sync_status(&Some(clean(PairStatus::Clean)), &manifest(&[("a", "two")]), &same), RowStatus::Drift);
    assert_eq!(
        sync_status(&Some(clean(PairStatus::Clean)), &manifest(&[("a", "two")]), &manifest(&[("a", "three")])),
        RowStatus::Conflict
    );
    assert_eq!(
        sync_status(&Some(clean(PairStatus::Clean)), &manifest(&[("a", "two")]), &manifest(&[("a", "two")])),
        RowStatus::Clean
    );
    assert_eq!(sync_status(&Some(clean(PairStatus::Conflict)), &same, &same), RowStatus::Clean);
    assert_eq!(
        sync_status(&Some(clean(PairStatus::Conflict)), &manifest(&[("a", "two")]), &same),
        RowStatus::Conflict
    );
    assert_eq!(
        sync_status(&Some(clean(PairStatus::Conflict)), &manifest(&[("a", "two")]), &manifest(&[("a", "two")])),
        RowStatus::Clean
    );
}

#[test]
fn status_rows_cover_every_path_and_destination() {
    let ctx = context();
    let cfg = config();
    let observations = vec![
        StatusObservation {
            destination: DestinationObservation::Symlink("../main/.cursor".to_owned()),
            stored: None,
            source: Manifest::new(),
            worktree: Manifest::new(),
        },
        StatusObservation {
            destination: DestinationObservation::Other,
            stored: Some(clean(PairStatus::Clean)),
            source: manifest(&[("a", "one")]),
            worktree: manifest(&[("a", "one")]),
        },
        StatusObservation { destination: DestinationObservation::Missing, stored: None, source: Manifest::new(), worktree: Manifest::new() },
    ];
    let rows = status_rows(&ctx, &cfg, &observations).unwrap();
    let statuses: Vec<RowStatus> = rows.iter().map(|r| r.status).collect();
    assert_eq!(statuses, vec![RowStatus::Clean, RowStatus::Clean, RowStatus::Uninitialized]);
    assert_eq!(status_line(&rows[0]), ".cursor\tfeature\tLink\tclean");
    assert!(status_rows(&ctx, &cfg, &Vec::new()).is_none());
}

#[test]
fn non_interactive_prompter_refuses_questions() {
    assert!(CliclackPrompter::new(true).require_interactive().is_err());
    assert!(CliclackPrompter::new(false).require_interactive().is_ok());
    assert_eq!(CliclackPrompter::new(true), CliclackPrompter::new(true));
    assert_ne!(CliclackPrompter::new(true), CliclackPrompter::new(false));
}

#[test]
fn prompt_answers_keep_policies_only_for_sync() {
    let path = ManagedPath::parse("docs/local").unwrap();
    let synced = path_config_from_answers(path.clone(), Mode::Sync, Some(SyncPolicy::Manual), Some(ConflictPolicy::Ask));
    assert_eq!(synced.mode, Mode::Sync);
    assert_eq!(synced.sync_policy, Some(SyncPolicy::Manual));
    assert_eq!(synced.conflict_policy, Some(ConflictPolicy::Ask));
    let copied = path_config_from_answers(path, Mode::Copy, Some(SyncPolicy::Manual), Some(ConflictPolicy::Ask));
    assert_eq!(copied.mode, Mode::Copy);
    assert_eq!(copied.sync_policy, None);
    assert_eq!(copied.conflict_policy, None);
    assert_eq!(copied.path.as_str(), "docs/local");
}

fn copy_config(path: &str) -> Config {
    Config {
        version: 1,
        default_sync_policy: SyncPolicy::Manual,
        default_conflict_policy: ConflictPolicy::Ask,
        paths: vec![PathConfig { path: ManagedPath::parse(path).unwrap(), mode: Mode::Copy, sync_policy: None, conflict_policy: None }],
    }
}

#[test]
fn status_reports_copy_drift() {
    let ctx = context();
    let cfg = copy_config("AGENTS.local.md");
    let observations = vec![StatusObservation {
        destination: DestinationObservation::Other,
        stored: None,
        source: manifest(&[("", "source")]),
        worktree: manifest(&[("", "worktree")]),
    }];
    let rows = status_rows(&ctx, &cfg, &observations).unwrap();
    assert_eq!(rows.len(), 1);
    assert_eq!(rows[0].mode, Mode::Copy);
    assert_eq!(rows[0].status, RowStatus::Drift);
    assert_eq!(exit_code(&vec![rows[0].status]), 1);
    assert_eq!(copy_status(&DestinationObservation::Other, &manifest(&[("", "same")]), &manifest(&[("", "same")])), RowStatus::Clean);
    assert_eq!(copy_status(&DestinationObservation::Missing, &manifest(&[("", "same")]), &Manifest::new()), RowStatus::Uninitialized);
}

#[test]
fn status_reports_bad_link_target_as_drift() {
    let ctx = context();
    let path = ManagedPath::parse(".cursor").unwrap();
    let observation = StatusObservation {
        destination: DestinationObservation::Symlink("elsewhere".to_owned()),
        stored: None,
        source: Manifest::new(),
        worktree: Manifest::new(),
    };
    let row = status_row(&ctx, &path, Mode::Link, &ctx.worktrees[1], &observation);
    assert_eq!(row.mode, Mode::Link);
    assert_eq!(row.status, RowStatus::Drift);
    assert_eq!(exit_code(&vec![row.status]), 1);
    assert_eq!(link_status(Some("../main/.cursor"), &DestinationObservation::Other), RowStatus::Drift);
    assert_eq!(link_status(None, &DestinationObservation::Symlink("x".to_owned())), RowStatus::Drift);
}

#[test]
fn status_clears_converged_sync_conflict_and_persists_clean_state() {
    let conflicted = || PathState {
        path: ManagedPath::parse("docs/local").unwrap(),
        worktree_id: WorktreeId::linked("feature"),
        status: PairStatus::Conflict,
        provenance: MaterializationProvenance {
            destination_kind: DestinationKind::SyncCopy,
            created_or_adopted_by_wk: true,
            expected_symlink_target: None,
        },
        source_manifest: Some(Manifest::new()),
        worktree_manifest: Some(Manifest::new()),
        conflict: Some(wk::state::ConflictRecord { entries: vec!["shared.md".to_owned()], message: "manual conflict".to_owned() }),
    };
    let source = manifest(&[("shared.md", "resolved")]);
    let worktree = manifest(&[("shared.md", "resolved")]);
    let status = sync_status(&Some(conflicted()), &source, &worktree);
    assert_eq!(status, RowStatus::Clean);
    assert_eq!(exit_code(&vec![status]), 0);
    let observation = StatusObservation { destination: DestinationObservation::Other, stored: Some(conflicted()), source, worktree };
    let refreshed = status_refresh(Mode::Sync, observation).expect("refreshed state");
    assert_eq!(refreshed.status, PairStatus::Clean);
    assert!(refreshed.conflict.is_none());
    assert_eq!(refreshed.source_manifest.as_ref().map(|m| m.len()), Some(1));
    let unchanged = StatusObservation {
        destination: DestinationObservation::Other,
        stored: Some(clean(PairStatus::Clean)),
        source: manifest(&[("a", "one")]),
        worktree: manifest(&[("a", "one")]),
    };
    assert!(status_refresh(Mode::Sync, unchanged).is_none());
}

#[test]
fn prune_handles_git_prunable_missing_worktree() {
    let listing = "worktree /repo/main\nHEAD abc\n\nworktree /repo/feature\nHEAD def\nprunable gitdir file points to non-existent location\n";
    let live = wk::git_repo::porcelain_worktree_paths(listing);
    assert_eq!(live, vec!["/repo/main".to_owned()]);
    let ctx = RepoContext {
        main_worktree: "/repo/main".to_owned(),
        git_common_dir: "/repo/main/.git".to_owned(),
        control_dir: "/repo/main/.wk".to_owned(),
        worktrees: vec![WorktreeInfo { id: WorktreeId::main(), path: live[0].clone(), is_source: true }],
    };
    assert_eq!(stale_state_dirs(&ctx, &vec!["feature".to_owned()]), vec!["feature".to_owned()]);
}
