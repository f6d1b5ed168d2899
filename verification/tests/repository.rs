use wk::git_repo::{
    control_dir, linked_worktree_id, main_worktree_from_common_dir, porcelain_worktree_paths, sort_worktrees,
    worktree_info, RepoContext, WorktreeId, WorktreeInfo,
};
use wk::state::StateStore;

fn context() -> RepoContext {
    RepoContext {
        main_worktree: "/repo/main".to_owned(),
        git_common_dir: "/repo/main/.git".to_owned(),
        control_dir: "/repo/main/.wk".to_owned(),
        worktrees: vec![
            WorktreeInfo { id: WorktreeId::linked("feature"), path: "/repo/feature".to_owned(), is_source: false },
            WorktreeInfo { id: WorktreeId::main(), path: "/repo/main".to_owned(), is_source: true },
        ],
    }
}

#[test]
fn non_source_worktrees_excludes_main_worktree() {
    let ctx = context();
    let destinations = ctx.non_source_worktrees();

    assert_eq!(destinations.len(), 1);
    assert_eq!(destinations[0].path, "/repo/feature");
    assert!(!destinations[0].is_source);
}

#[test]
fn resolves_same_control_store_from_main_and_linked_worktree() {
    let main = main_worktree_from_common_dir("/repo/main/.git").unwrap();
    assert_eq!(main, "/repo/main");
    assert_eq!(control_dir(&main), "/repo/main/.wk");
    assert!(main_worktree_from_common_dir("/repo/main/.git/worktrees/feature").is_err());
}

#[test]
fn linked_worktree_identity_is_its_git_dir_name() {
    let id = linked_worktree_id("/repo/main/.git/worktrees/feature", "/repo/main/.git").unwrap();
    assert_eq!(id.as_str(), "feature");
    let outside = linked_worktree_id("/elsewhere/feature", "/repo/main/.git").unwrap_err();
    assert!(outside.describe().starts_with("not a supported git repository: linked worktree git dir is outside"));
}

#[test]
fn porcelain_listing_yields_worktree_paths_in_order() {
    let output = "worktree /repo/main\nHEAD abc\nbranch refs/heads/main\n\nworktree /repo/feature\r\nHEAD def\ndetached\n";
    assert_eq!(porcelain_worktree_paths(output), vec!["/repo/main".to_owned(), "/repo/feature".to_owned()]);
    assert!(porcelain_worktree_paths("").is_empty());
    assert_eq!(porcelain_worktree_paths("worktree /x"), vec!["/x".to_owned()]);
}

#[test]
fn porcelain_listing_leaves_out_prunable_worktrees() {
    let output = "worktree /repo/main\nHEAD abc\nbranch refs/heads/main\n\nworktree /repo/gone\nHEAD def\ndetached\nprunable gitdir file points to non-existent location\n\nworktree /repo/feature\nHEAD 123\nprunable-ish\n";
    assert_eq!(porcelain_worktree_paths(output), vec!["/repo/main".to_owned(), "/repo/feature".to_owned()]);
    assert!(porcelain_worktree_paths("worktree /x\nprunable\r\n").is_empty());
}

#[test]
fn worktrees_are_ordered_by_identity() {
    let main = worktree_info("/repo/main", "/repo/main".to_owned(), WorktreeId::linked("ignored"));
    let zeta = worktree_info("/repo/main", "/repo/zeta".to_owned(), WorktreeId::linked("zeta"));
    let alpha = worktree_info("/repo/main", "/repo/alpha".to_owned(), WorktreeId::linked("alpha"));
    assert!(main.is_source);
    assert_eq!(main.id.as_str(), "main");
    let sorted = sort_worktrees(vec![zeta, main, alpha]);
    let ids: Vec<&str> = sorted.iter().map(|w| w.id.as_str()).collect();
    assert_eq!(ids, vec!["alpha", "main", "zeta"]);
}

#[test]
fn source_worktree_does_not_create_destination_state() {
    let ctx = context();
    assert!(!StateStore::keeps_state_for(&ctx.worktrees[1]));
    assert!(StateStore::keeps_state_for(&ctx.worktrees[0]));
}

#[test]
fn state_files_live_under_the_control_dir() {
    let store = StateStore::new("/repo/main/.wk");
    assert_eq!(store.state_dir(), "/repo/main/.wk/state");
    let path = wk::domain::ManagedPath::parse("docs/local").unwrap();
    let file = store.state_file(&path, &WorktreeId::linked("feature"));
    assert!(file.starts_with("/repo/main/.wk/state/feature/"));
    assert!(file.ends_with(".json"));
    assert_eq!(file, "/repo/main/.wk/state/feature/docs+local.json");
}

#[test]
fn state_files_are_distinct_per_managed_path() {
    let store = StateStore::new("/repo/main/.wk");
    let id = WorktreeId::linked("feature");
    let names: Vec<String> = ["a.b", "a_b", "a/b", "a+b", "a%b", "a%_b"]
        .iter()
        .map(|p| store.state_file(&wk::domain::ManagedPath::parse(p).unwrap(), &id))
        .collect();
    for i in 0..names.len() {
        for j in 0..names.len() {
            assert_eq!(i == j, names[i] == names[j]);
        }
    }
    assert_eq!(names[0], "/repo/main/.wk/state/feature/a_b.json");
    assert_eq!(names[1], "/repo/main/.wk/state/feature/a%_b.json");
}

#[test]
fn find_worktree_accepts_identity_or_path() {
    let ctx = context();
    assert_eq!(ctx.find_worktree("feature").map(|w| w.path.clone()), Some("/repo/feature".to_owned()));
    assert_eq!(ctx.find_worktree("/repo/feature").map(|w| w.id.as_str().to_owned()), Some("feature".to_owned()));
    assert!(ctx.find_worktree("main").is_none());
}
