use wk::fs_plan::{
    duration_nanos, operation_summary, plan_overlay_copy, plan_overlay_copy_with_backups, sanitize_path, summarize_plan,
    FsOp,
};
use wk::manifest::{EntryKind, Manifest, ManifestEntry, PathSnapshot};

fn file(hash: &str) -> ManifestEntry {
    ManifestEntry { kind: EntryKind::File, hash: Some(hash.to_owned()), target: None, executable: false, size: 1, mtime: 1 }
}

fn symlink(target: &str) -> ManifestEntry {
    ManifestEntry { kind: EntryKind::Symlink, hash: None, target: Some(target.to_owned()), executable: false, size: 1, mtime: 1 }
}

fn dir(entries: Vec<(&str, ManifestEntry)>) -> PathSnapshot {
    let mut manifest = Manifest::new();
    for (path, entry) in entries {
        manifest.insert(path.to_owned(), entry);
    }
    PathSnapshot { root: Some(EntryKind::Directory), manifest }
}

#[test]
fn overlay_copy_preserves_destination_only_files() {
    let source = dir(vec![("from-source.txt", file("s"))]);
    let plan = plan_overlay_copy("/t/source", "/t/dest", &source).unwrap();

    assert_eq!(plan.len(), 2);
    assert!(matches!(&plan[0], FsOp::CreateDir { path } if path == "/t/dest"));
    assert!(matches!(
        &plan[1],
        FsOp::CopyFile { source, dest } if source == "/t/source/from-source.txt" && dest == "/t/dest/from-source.txt"
    ));
    assert!(plan.iter().all(|op| !matches!(op, FsOp::RemoveFile { .. } | FsOp::RemoveEmptyDir { .. })));
}

#[test]
fn overlay_copy_preserves_symlinks_without_dereferencing() {
    let source = dir(vec![("target.txt", file("t")), ("link", symlink("target.txt"))]);
    let plan = plan_overlay_copy("/t/source", "/t/dest", &source).unwrap();

    assert!(plan.iter().any(|op| matches!(
        op,
        FsOp::CopySymlink { target, dest, warning } if target == "target.txt" && dest == "/t/dest/link" && warning.is_none()
    )));
}

#[test]
fn out_of_tree_symlink_is_preserved_and_warned() {
    let source = dir(vec![("outside-link", symlink("../outside.txt"))]);
    let plan = plan_overlay_copy("/t/source", "/t/dest", &source).unwrap();
    let report = summarize_plan(&plan, true);

    assert!(report.warnings.iter().any(|warning| warning.contains("outside")));
    assert_eq!(
        report.warnings,
        vec!["symlink target may point outside managed path: ../outside.txt".to_owned()]
    );
}

#[test]
fn dry_run_reports_operations_and_writes_nothing() {
    let source = dir(vec![("file.txt", file("f"))]);
    let plan = plan_overlay_copy("/t/source", "/t/dest", &source).unwrap();
    let report = summarize_plan(&plan, true);

    assert!(report.dry_run);
    assert!(!report.operations.is_empty());
    assert_eq!(
        report.operations,
        vec!["create dir /t/dest".to_owned(), "copy file /t/source/file.txt -> /t/dest/file.txt".to_owned()]
    );
}

#[test]
fn overlay_of_missing_source_fails() {
    let missing = PathSnapshot { root: None, manifest: Manifest::new() };
    assert!(plan_overlay_copy("/t/source", "/t/dest", &missing).is_err());
}

#[test]
fn single_file_overlay_copies_the_root() {
    let mut manifest = Manifest::new();
    manifest.insert(String::new(), file("x"));
    let source = PathSnapshot { root: Some(EntryKind::File), manifest };
    let plan = plan_overlay_copy("/t/a.md", "/u/a.md", &source).unwrap();
    assert_eq!(plan.len(), 1);
    assert!(matches!(&plan[0], FsOp::CopyFile { source, dest } if source == "/t/a.md" && dest == "/u/a.md"));
}

#[test]
fn overlay_with_backups_moves_only_differing_destination_files_first() {
    let source = dir(vec![("same.md", file("same")), ("changed.md", file("new")), ("added.md", file("a"))]);
    let mut dest = Manifest::new();
    dest.insert("same.md".to_owned(), file("same"));
    dest.insert("changed.md".to_owned(), file("old"));
    let ops = plan_overlay_copy_with_backups("/t/s", "/t/d", &source, &dest, "/t/backups").unwrap();

    let backups: Vec<&String> = ops
        .iter()
        .filter_map(|op| match op {
            FsOp::BackupPath { path, .. } => Some(path),
            _ => None,
        })
        .collect();
    assert_eq!(backups, vec!["/t/d/changed.md"]);
    assert!(matches!(&ops[0], FsOp::BackupPath { backup, .. } if backup.starts_with("/t/backups/")));
    assert_eq!(ops.len(), 5);
}

#[test]
fn summaries_name_every_operation_kind() {
    assert_eq!(operation_summary(&FsOp::RemoveFile { path: "/x".to_owned() }), "remove file /x");
    assert_eq!(operation_summary(&FsOp::RemoveEmptyDir { path: "/x".to_owned() }), "remove empty dir /x");
    assert_eq!(
        operation_summary(&FsOp::CopySymlink { target: "t".to_owned(), dest: "/d".to_owned(), warning: None }),
        "copy symlink /d -> t"
    );
    assert_eq!(
        operation_summary(&FsOp::BackupPath { path: "/p".to_owned(), backup: "/b".to_owned() }),
        "backup /p -> /b"
    );
    assert_eq!(
        operation_summary(&FsOp::WriteFileAtomic { path: "/w".to_owned(), contents: vec![1, 2] }),
        "write file /w"
    );
    assert_eq!(operation_summary(&FsOp::SetPermissions { path: "/w".to_owned(), mode: 0o600 }), "chmod 600 /w");
}

#[test]
fn backup_names_are_sanitized_and_timestamps_exact() {
    assert_eq!(sanitize_path("/a/b-c.md"), "_a_b_c_md");
    assert_eq!(sanitize_path(""), "root");
    assert_eq!(duration_nanos(2, 5), 2_000_000_005);
}
