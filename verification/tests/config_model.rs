use wk::config::{default_config, effective_conflict_policy, effective_sync_policy, Config, PathConfig};
use wk::domain::{ConflictPolicy, ManagedPath, Mode, SyncPolicy};

fn path_config(path: &str, mode: Mode) -> PathConfig {
    PathConfig { path: ManagedPath::parse(path).unwrap(), mode, sync_policy: None, conflict_policy: None }
}

#[test]
fn persisted_config_rejects_unsafe_or_pattern_paths() {
    for input in ["/abs/path", "../escape", "nested/../escape", ".git/config", ".wk/state", "*.local.*", ""] {
        assert!(ManagedPath::parse(input).is_err(), "{input} should fail");
    }
}

#[test]
fn newer_policy_parses_but_requires_warning() {
    let config = Config {
        version: 1,
        default_sync_policy: SyncPolicy::Manual,
        default_conflict_policy: ConflictPolicy::Newer,
        paths: vec![PathConfig {
            path: ManagedPath::parse(".cursor").unwrap(),
            mode: Mode::Sync,
            sync_policy: Some(SyncPolicy::Auto),
            conflict_policy: Some(ConflictPolicy::Newer),
        }],
    };

    assert!(config.default_conflict_policy.requires_warning());
    assert!(config.paths[0].conflict_policy.unwrap_or(config.default_conflict_policy).requires_warning());
    assert!(!ConflictPolicy::Ask.requires_warning());
    assert_eq!(effective_sync_policy(&config, &config.paths[0]), SyncPolicy::Auto);
    assert_eq!(effective_conflict_policy(&config, &config.paths[0]), ConflictPolicy::Newer);
}

#[test]
fn parse_trims_and_reports_why_a_path_is_refused() {
    assert_eq!(ManagedPath::parse("  docs/local  ").unwrap().as_str(), "docs/local");
    assert_eq!(ManagedPath::parse("\u{3000}\tdocs/local\u{A0}\r\n").unwrap().as_str(), "docs/local");
    let once = ManagedPath::parse(" a b ").unwrap();
    assert_eq!(ManagedPath::parse(once.as_str()).unwrap().as_str(), "a b");
    let error = ManagedPath::parse("nested/../escape").unwrap_err();
    assert_eq!(
        error.describe(),
        "invalid managed path `nested/../escape`: path must not contain parent traversal"
    );
    let error = ManagedPath::parse("a//b").unwrap_err();
    assert_eq!(error.describe(), "invalid managed path `a//b`: path must be normalized");
    let error = ManagedPath::parse("*.md").unwrap_err();
    assert_eq!(error.describe(), "invalid managed path `*.md`: persisted paths must be concrete, not globs");
}

#[test]
fn current_mode_upsert_and_validation() {
    let mut config = default_config();
    assert_eq!(config.version, 1);
    assert!(config.paths.is_empty());
    let path = ManagedPath::parse(".cursor").unwrap();
    assert_eq!(config.current_mode(&path), Mode::Ignore);
    config.upsert(path.clone(), Mode::Link, None, None);
    assert_eq!(config.current_mode(&path), Mode::Link);
    config.upsert(path.clone(), Mode::Sync, Some(SyncPolicy::Auto), None);
    assert_eq!(config.paths.len(), 1);
    assert_eq!(config.current_mode(&path), Mode::Sync);
    assert!(config.has_path(&path));
    assert!(config.validate().is_ok());
    config.paths.push(path_config("docs/local", Mode::Copy));
    assert!(config.validate().is_ok());
    config.version = 2;
    assert_eq!(config.validate().unwrap_err().describe(), "unsupported config version: 2");
}
