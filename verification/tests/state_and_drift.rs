use wk::domain::ManagedPath;
use wk::drift::{classify_manifest_drift, EntryDrift};
use wk::git_repo::WorktreeId;
use wk::manifest::{EntryKind, Manifest, ManifestEntry};
use wk::state::{ConflictRecord, DestinationKind, MaterializationProvenance, PairStatus, PathState};

fn file_entry(hash: &str, size: u64, mtime: i128) -> ManifestEntry {
    ManifestEntry {
        kind: EntryKind::File,
        hash: Some(hash.to_owned()),
        target: None,
        executable: false,
        size,
        mtime,
    }
}

fn manifest_with_meta(entries: &[(&str, &str, u64, i128)]) -> Manifest {
    let mut m = Manifest::new();
    for (path, hash, size, mtime) in entries {
        m.insert((*path).to_owned(), file_entry(hash, *size, *mtime));
    }
    m
}

fn manifest(entries: &[(&str, &str)]) -> Manifest {
    let with_meta: Vec<(&str, &str, u64, i128)> = entries.iter().map(|(p, h)| (*p, *h, 1, 1)).collect();
    manifest_with_meta(&with_meta)
}

fn assert_drift(
    base_source: &Manifest,
    base_worktree: &Manifest,
    current_source: &Manifest,
    current_worktree: &Manifest,
    path: &str,
    expected: EntryDrift,
) {
    let report = classify_manifest_drift(base_source, base_worktree, current_source, current_worktree);
    assert_eq!(report.get(path), Some(expected));
}

fn sample_path_state(status: PairStatus, conflict: Option<ConflictRecord>) -> PathState {
    PathState {
        path: ManagedPath::parse(".cursor").unwrap(),
        worktree_id: WorktreeId::linked("feature"),
        status,
        provenance: MaterializationProvenance {
            destination_kind: DestinationKind::Symlink,
            created_or_adopted_by_wk: true,
            expected_symlink_target: Some("../main/.cursor".to_owned()),
        },
        source_manifest: Some(manifest(&[("settings.json", "one")])),
        worktree_manifest: Some(manifest(&[("settings.json", "one")])),
        conflict,
    }
}

#[test]
fn classifies_every_per_entry_drift_variant() {
    let empty = Manifest::new;
    assert_drift(&manifest(&[("a", "one")]), &manifest(&[("a", "one")]), &manifest(&[("a", "one")]), &manifest(&[("a", "one")]), "a", EntryDrift::Unchanged);
    assert_drift(&empty(), &empty(), &manifest(&[("a", "one")]), &empty(), "a", EntryDrift::SourceAdded);
    assert_drift(&empty(), &empty(), &empty(), &manifest(&[("a", "one")]), "a", EntryDrift::WorktreeAdded);
    assert_drift(&manifest(&[("a", "one")]), &manifest(&[("a", "one")]), &manifest(&[("a", "two")]), &manifest(&[("a", "one")]), "a", EntryDrift::SourceModified);
    assert_drift(&manifest(&[("a", "one")]), &manifest(&[("a", "one")]), &manifest(&[("a", "one")]), &manifest(&[("a", "two")]), "a", EntryDrift::WorktreeModified);
    assert_drift(&manifest(&[("a", "one")]), &manifest(&[("a", "one")]), &empty(), &manifest(&[("a", "one")]), "a", EntryDrift::SourceDeleted);
    assert_drift(&manifest(&[("a", "one")]), &manifest(&[("a", "one")]), &manifest(&[("a", "one")]), &empty(), "a", EntryDrift::WorktreeDeleted);
    assert_drift(&manifest(&[("a", "one")]), &manifest(&[("a", "one")]), &manifest(&[("a", "two")]), &manifest(&[("a", "two")]), "a", EntryDrift::BothChangedIdentically);
    assert_drift(&manifest(&[("a", "one")]), &manifest(&[("a", "one")]), &manifest(&[("a", "two")]), &manifest(&[("a", "three")]), "a", EntryDrift::BothChangedDifferently);
}

#[test]
fn manifest_drift_uses_content_identity_not_mtime_or_size() {
    let base_source = manifest_with_meta(&[("a", "one", 1, 1)]);
    let base_worktree = manifest_with_meta(&[("a", "one", 1, 1)]);
    let current_source = manifest_with_meta(&[("a", "one", 99, 99)]);
    let current_worktree = manifest_with_meta(&[("a", "one", 101, 101)]);

    let report = classify_manifest_drift(&base_source, &base_worktree, &current_source, &current_worktree);

    assert_eq!(report.get("a"), Some(EntryDrift::Unchanged));
}

#[test]
fn identical_convergence_ignores_different_mtimes() {
    let report = classify_manifest_drift(
        &manifest(&[("a", "one")]),
        &manifest(&[("a", "one")]),
        &manifest_with_meta(&[("a", "two", 2, 10)]),
        &manifest_with_meta(&[("a", "two", 2, 20)]),
    );

    assert_eq!(report.get("a"), Some(EntryDrift::BothChangedIdentically));
    assert!(report.is_clean_after_refresh());
}

#[test]
fn conflict_persists_until_convergence() {
    let conflict = || ConflictRecord { entries: vec!["a".to_owned()], message: "both changed".to_owned() };
    let state = sample_path_state(PairStatus::Conflict, Some(conflict()));
    let conflicting = classify_manifest_drift(
        &manifest(&[("a", "one")]),
        &manifest(&[("a", "one")]),
        &manifest(&[("a", "two")]),
        &manifest(&[("a", "three")]),
    );
    let still_conflict =
        state.refresh_after_status(&conflicting, manifest(&[("a", "two")]), manifest(&[("a", "three")]));

    assert_eq!(still_conflict.status, PairStatus::Conflict);
    assert!(still_conflict.conflict.is_some());

    let state = sample_path_state(PairStatus::Conflict, Some(conflict()));
    let converged_source = manifest(&[("a", "two")]);
    let converged_worktree = manifest(&[("a", "two")]);
    let converged = classify_manifest_drift(
        &manifest(&[("a", "one")]),
        &manifest(&[("a", "one")]),
        &converged_source,
        &converged_worktree,
    );
    let clean = state.refresh_after_status(&converged, converged_source, converged_worktree);

    assert_eq!(clean.status, PairStatus::Clean);
    assert!(clean.conflict.is_none());
}

#[test]
fn report_lists_every_path_once_and_flags_conflicts() {
    let report = classify_manifest_drift(
        &manifest(&[("a", "one")]),
        &manifest(&[("a", "one")]),
        &manifest(&[("a", "two"), ("c", "new")]),
        &manifest(&[("a", "three"), ("b", "one")]),
    );
    assert_eq!(report.len(), 3);
    assert_eq!(report.get("a"), Some(EntryDrift::BothChangedDifferently));
    assert_eq!(report.get("b"), Some(EntryDrift::WorktreeAdded));
    assert_eq!(report.get("c"), Some(EntryDrift::SourceAdded));
    assert!(report.has_conflict());
    assert!(!report.is_clean_after_refresh());
}

#[test]
fn content_identity_compares_kind_hash_target_and_mode_only() {
    let a = file_entry("h", 1, 1);
    let mut b = file_entry("h", 2, 3);
    assert!(a.has_same_content_identity(&b));
    b.executable = true;
    assert!(!a.has_same_content_identity(&b));
    assert!(manifest(&[("x", "h")]).has_same_content_identity(&manifest_with_meta(&[("x", "h", 9, 9)])));
    assert!(!manifest(&[("x", "h")]).has_same_content_identity(&manifest(&[("x", "h"), ("y", "h")])));
}

#[test]
fn manifest_insert_then_get_reads_back_and_remove_forgets() {
    let mut m = Manifest::new();
    m.insert("a".to_owned(), file_entry("one", 1, 1));
    m.insert("a".to_owned(), file_entry("two", 1, 1));
    assert_eq!(m.len(), 1);
    assert_eq!(m.get("a").and_then(|e| e.hash.clone()), Some("two".to_owned()));
    m.remove("a");
    assert!(!m.contains_key("a"));
    assert_eq!(m.len(), 0);
}

#[test]
fn manifests_and_reports_list_paths_in_component_order() {
    let mut m = Manifest::new();
    for p in ["b", "a-b", "a/b", "a"] {
        m.insert(p.to_owned(), file_entry("h", 1, 1));
    }
    let order: Vec<&str> = (0..m.len()).map(|i| m.path_at(i)).collect();
    assert_eq!(order, vec!["a", "a/b", "a-b", "b"]);
    let empty = Manifest::new();
    let report = classify_manifest_drift(&empty, &empty, &m, &empty);
    let listed: Vec<&str> = (0..report.len()).map(|i| report.path_at(i)).collect();
    assert_eq!(listed, vec!["a", "a/b", "a-b", "b"]);
}
