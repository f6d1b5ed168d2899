use wk::discovery::{
    default_candidates, discover_candidates, ensure_manageable_ignored, explicit_path, glob_candidates,
    CandidateObservation, DiscoveryOptions, DiscoverySource,
};
use wk::domain::{has_glob_meta, ManagedPath};

fn observations(present_and_ignored: &[&str]) -> Vec<CandidateObservation> {
    default_candidates()
        .iter()
        .map(|name| {
            let hit = present_and_ignored.contains(name);
            CandidateObservation { exists: hit, ignored: hit }
        })
        .collect()
}

#[test]
fn default_discovery_finds_ignored_ai_and_local_paths() {
    let obs = observations(&[".cursor", ".codex", "AGENTS.local.md", "docs/local"]);
    let discovered = discover_candidates(DiscoveryOptions { include_defaults: true, force: false }, &obs).unwrap();
    let paths: Vec<&str> = discovered.iter().map(|item| item.path.as_str()).collect();

    assert!(paths.contains(&".cursor"));
    assert!(paths.contains(&".codex"));
    assert!(paths.contains(&"AGENTS.local.md"));
    assert!(paths.contains(&"docs/local"));
    assert!(discovered.iter().all(|item| item.ignored));
    assert_eq!(paths, vec![".codex", ".cursor", "AGENTS.local.md", "docs/local"]);
}

#[test]
fn glob_expansion_returns_concrete_ignored_paths() {
    let relatives: Vec<String> = ["", ".gitignore", "README.md", "CODEX.local.md", "AGENTS.local.md", ".git", ".git/HEAD"]
        .iter()
        .map(|s| (*s).to_owned())
        .collect();
    let paths = glob_candidates("*.local.*", &relatives).unwrap();
    let names: Vec<&str> = paths.iter().map(|p| p.as_str()).collect();

    assert_eq!(names, vec!["AGENTS.local.md", "CODEX.local.md"]);
    assert!(names.iter().all(|path| !path.contains('*')));
    assert!(has_glob_meta("*.local.*"));
    assert_eq!(DiscoverySource::Glob, DiscoverySource::Glob);
}

#[test]
fn non_ignored_explicit_path_is_rejected_without_force() {
    let path = ManagedPath::parse("README.md").unwrap();
    let error = ensure_manageable_ignored(&path, false, false).expect_err("must reject");
    assert!(error.describe().contains("not ignored"));
    assert!(explicit_path("README.md", false, false).is_err());
}

#[test]
fn force_allows_explicit_non_ignored_path() {
    let discovered = explicit_path("README.md", true, false).unwrap().expect("offered");
    assert_eq!(discovered.path.as_str(), "README.md");
    assert!(!discovered.ignored);
    assert!(discovered.forced);
    assert_eq!(discovered.source, DiscoverySource::Explicit);
}

#[test]
fn discovery_never_returns_git_or_wk_paths() {
    let relatives: Vec<String> = [".wk", ".wk/state", ".wk/state/file.json", ".git", ".git/config"]
        .iter()
        .map(|s| (*s).to_owned())
        .collect();
    assert!(glob_candidates(".wk/*", &relatives).unwrap().is_empty());
    assert!(glob_candidates(".git/*", &relatives).unwrap().is_empty());
}

#[test]
fn glob_matches_duplicates_once_and_rejects_bad_patterns() {
    let relatives: Vec<String> = ["b.md", "a.md", "b.md"].iter().map(|s| (*s).to_owned()).collect();
    let paths = glob_candidates("*.md", &relatives).unwrap();
    let names: Vec<&str> = paths.iter().map(|p| p.as_str()).collect();
    assert_eq!(names, vec!["a.md", "b.md"]);
    assert!(glob_candidates("[", &relatives).is_err());
}

#[test]
fn glob_without_slash_matches_file_names_at_any_depth() {
    let relatives: Vec<String> = ["docs", "docs/x.local.md", "docs/y.md"].iter().map(|s| (*s).to_owned()).collect();
    let names: Vec<String> =
        glob_candidates("*.local.*", &relatives).unwrap().iter().map(|p| p.as_str().to_owned()).collect();
    assert_eq!(names, vec!["docs/x.local.md".to_owned()]);
    let names: Vec<String> =
        glob_candidates("docs/*.md", &relatives).unwrap().iter().map(|p| p.as_str().to_owned()).collect();
    assert_eq!(names, vec!["docs/x.local.md".to_owned(), "docs/y.md".to_owned()]);
}

#[test]
fn defaults_are_skipped_unless_requested() {
    let discovered = discover_candidates(DiscoveryOptions { include_defaults: false, force: false }, &Vec::new()).unwrap();
    assert!(discovered.is_empty());
}
