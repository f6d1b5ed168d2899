use wk::text::{decimal_string, octal_string, signed_decimal_string};
use wk::discovery::check_ignore_outcome;
use wk::domain::ManagedPath;
use wk::error::WkError;
use wk::git_repo::git_path_text;
use wk::manifest::{entry_kind, manifest_entry, manifest_from_walk, modified_nanos, EntryKind, EntryObservation, ManifestEntry};
use wk::commands::{backups_to_remove, BackupCandidate};

fn observation(is_symlink: bool, is_dir: bool, is_file: bool, contents: &[u8], link_target: Option<&str>) -> EntryObservation {
    EntryObservation {
        is_symlink,
        is_dir,
        is_file,
        contents: contents.to_vec(),
        link_target: link_target.map(str::to_owned),
        executable: false,
        size: contents.len() as u64,
        mtime: 7,
    }
}

fn plain(hash: &str) -> ManifestEntry {
    ManifestEntry { kind: EntryKind::File, hash: Some(hash.to_owned()), target: None, executable: false, size: 0, mtime: 0 }
}

#[test]
fn file_entries_carry_the_sha256_of_their_contents() {
    let entry = manifest_entry("/x/a.txt", &observation(false, false, true, b"abc", None)).unwrap();
    assert_eq!(entry.kind, EntryKind::File);
    assert_eq!(
        entry.hash.as_deref(),
        Some("ba7816bf8f01cfea414140de5dae2223b00361a396177a9cb410ff61f20015ad")
    );
    assert_eq!(entry.size, 3);
    assert_eq!(entry.mtime, 7);
    let link = manifest_entry("/x/l", &observation(true, false, false, b"", Some("a.txt"))).unwrap();
    assert_eq!(link.kind, EntryKind::Symlink);
    assert_eq!(link.target.as_deref(), Some("a.txt"));
    assert!(link.hash.is_none());
    let dir = manifest_entry("/x", &observation(false, true, false, b"", None)).unwrap();
    assert_eq!(dir.kind, EntryKind::Directory);
    assert!(manifest_entry("/x/fifo", &observation(false, false, false, b"", None)).is_err());
}

#[test]
fn entry_kinds_prefer_symlink_then_directory_then_file() {
    assert!(matches!(entry_kind("/p", true, true, true), Ok(EntryKind::Symlink)));
    assert!(matches!(entry_kind("/p", false, true, true), Ok(EntryKind::Directory)));
    assert!(matches!(entry_kind("/p", false, false, true), Ok(EntryKind::File)));
    assert_eq!(
        entry_kind("/p", false, false, false).unwrap_err().describe(),
        "unsupported filesystem entry in manifest: /p"
    );
}

#[test]
fn manifest_records_directory_entries_and_excludes_reserved_dirs() {
    let entries = vec![
        (String::new(), plain("root")),
        ("settings.json".to_owned(), plain("a")),
        (".git".to_owned(), plain("g")),
        ("sub/.wk/state.json".to_owned(), plain("w")),
        ("sub/file".to_owned(), plain("f")),
    ];
    let manifest = manifest_from_walk(entries);
    assert_eq!(manifest.len(), 2);
    assert!(manifest.contains_key("settings.json"));
    assert!(manifest.contains_key("sub/file"));
    assert!(!manifest.contains_key(""));
    assert!(!manifest.contains_key(".git"));
}

#[test]
fn modification_times_are_signed_nanoseconds() {
    assert_eq!(modified_nanos(true, 3, 4), 3_000_000_004);
    assert_eq!(modified_nanos(false, 3, 4), -3_000_000_004);
}

#[test]
fn git_check_ignore_exit_codes_are_read() {
    let path = ManagedPath::parse("docs/local").unwrap();
    assert!(matches!(check_ignore_outcome(&path, Some(0)), Ok(true)));
    assert!(matches!(check_ignore_outcome(&path, Some(1)), Ok(false)));
    assert_eq!(
        check_ignore_outcome(&path, Some(128)).unwrap_err().describe(),
        "git check-ignore failed with exit code 128 for docs/local"
    );
    assert_eq!(
        check_ignore_outcome(&path, None).unwrap_err().describe(),
        "git check-ignore terminated by signal for docs/local"
    );
    assert_eq!(
        check_ignore_outcome(&path, Some(-2)).unwrap_err().describe(),
        "git check-ignore failed with exit code -2 for docs/local"
    );
}

#[test]
fn numbers_are_written_as_std_writes_them() {
    for n in [0u128, 7, 10, 99, 1234567890123, u128::MAX] {
        assert_eq!(decimal_string(n), n.to_string());
    }
    for n in [0u32, 7, 8, 0o755, u32::MAX] {
        assert_eq!(octal_string(n), format!("{:o}", n));
    }
    for n in [0i32, 5, -5, i32::MIN, i32::MAX] {
        assert_eq!(signed_decimal_string(n), n.to_string());
    }
}

#[test]
fn git_paths_are_resolved_against_their_directory() {
    assert_eq!(git_path_text("/repo/main", "/repo/main/.git"), "/repo/main/.git");
    assert_eq!(git_path_text("/repo/main", ".git"), "/repo/main/.git");
    let error = WkError::git_command("/repo", &vec!["rev-parse", "--git-dir"], "fatal: not a git repository".to_owned());
    assert_eq!(error.describe(), "git command failed in /repo: git rev-parse --git-dir: fatal: not a git repository");
}

#[test]
fn gc_previews_old_backups_and_honors_keep_on_force() {
    let candidates = vec![
        BackupCandidate { path: "/b/1-old".to_owned(), modified: 10 },
        BackupCandidate { path: "/b/2-new".to_owned(), modified: 500 },
        BackupCandidate { path: "/b/3-older".to_owned(), modified: 5 },
        BackupCandidate { path: "/b/4-tie".to_owned(), modified: 10 },
    ];
    let removed: Vec<String> = backups_to_remove(candidates, 100, 1).into_iter().map(|c| c.path).collect();
    assert_eq!(removed, vec!["/b/1-old".to_owned(), "/b/3-older".to_owned()]);
    let none = backups_to_remove(vec![BackupCandidate { path: "/b/x".to_owned(), modified: 1 }], 100, 5);
    assert!(none.is_empty());
}
