use rnvm::config::alias::{set_alias, AliasConfig};
use rnvm::errors::NodeError;
use rnvm::version::local::{
    get_current_version, get_installed_versions, get_versions_dir, is_empty, is_installed,
    remove_version, use_node_version, use_version, version_dir, Activation, InstalledSet,
    SwitchOutcome,
};
use rnvm::version::text::SemVer;

fn names(list: &[&str]) -> Vec<String> {
    list.iter().map(|s| s.to_string()).collect()
}

fn v(major: u64, minor: u64, patch: u64) -> SemVer {
    SemVer { major, minor, patch }
}

#[test]
fn test_version_management() {
    let empty = InstalledSet::from_dir_names(&names(&["downloads"]));
    assert!(is_empty(&empty));

    let set = InstalledSet::from_dir_names(&names(&["14.0.0", "16.0.0", "downloads"]));
    assert!(!is_empty(&set));
    assert!(is_installed(&set, "14.0.0"));
    assert!(is_installed(&set, "16.0.0"));
    assert!(!is_installed(&set, "18.0.0"));

    let versions = get_installed_versions(&set, "/h/.rnvm", None);
    assert_eq!(versions.len(), 2);
    assert_eq!(versions[0].version_str(), "16.0.0");
    assert_eq!(versions[1].version_str(), "14.0.0");

    let mut state = Activation::new(set, None);
    use_version(&mut state, "14.0.0").unwrap();
    assert_eq!(get_current_version(&state), Some("14.0.0".to_string()));

    use_version(&mut state, "16.0.0").unwrap();
    remove_version(&mut state, "14.0.0").unwrap();
    assert!(!is_installed(state.installed(), "14.0.0"));
}

#[test]
fn reserved_and_malformed_names_are_not_versions() {
    let set = InstalledSet::from_dir_names(&names(&[".tmp", "downloads", "v1.0.0", "1.0", "2.0.0"]));
    let versions = get_installed_versions(&set, "/b", None);
    assert_eq!(versions.len(), 1);
    assert_eq!(versions[0].version, v(2, 0, 0));
    assert_eq!(versions[0].path, "/b/versions/2.0.0");
}

#[test]
fn listing_marks_current_and_sorts() {
    let set = InstalledSet::from_dir_names(&names(&["9.0.0", "10.0.0", "9.10.0", "9.0.0"]));
    let versions = get_installed_versions(&set, "/b", Some(v(9, 10, 0)));
    let texts: Vec<String> = versions.iter().map(|l| l.version_str()).collect();
    assert_eq!(texts, vec!["10.0.0", "9.10.0", "9.0.0"]);
    assert!(!versions[0].is_current);
    assert!(versions[1].is_current);
}

#[test]
fn switch_twice_reports_already_active() {
    let set = InstalledSet::from_dir_names(&names(&["14.0.0", "16.0.0"]));
    let mut state = Activation::new(set, Some("14.0.0"));
    assert_eq!(use_version(&mut state, "16.0.0").unwrap(), SwitchOutcome::Switched);
    assert_eq!(use_version(&mut state, "16.0.0").unwrap(), SwitchOutcome::AlreadyActive);
    assert_eq!(state.current(), Some(v(16, 0, 0)));
}

#[test]
fn switch_to_missing_version_fails() {
    let set = InstalledSet::from_dir_names(&names(&["14.0.0"]));
    let mut state = Activation::new(set, None);
    assert!(matches!(use_version(&mut state, "18.0.0"), Err(NodeError::VersionNotInstalled(_))));
    assert!(matches!(use_version(&mut state, "lts"), Err(NodeError::VersionNotInstalled(_))));
    assert_eq!(state.current(), None);
}

#[test]
fn active_version_cannot_be_removed() {
    let set = InstalledSet::from_dir_names(&names(&["14.0.0", "16.0.0"]));
    let mut state = Activation::new(set, Some("16.0.0"));
    assert!(matches!(remove_version(&mut state, "16.0.0"), Err(NodeError::VersionNotInstalled(_))));
    assert!(is_installed(state.installed(), "16.0.0"));
    assert!(is_installed(state.installed(), "14.0.0"));
    assert!(matches!(remove_version(&mut state, "12.0.0"), Err(NodeError::VersionNotInstalled(_))));
    assert!(remove_version(&mut state, "14.0.0").is_ok());
    assert!(!is_installed(state.installed(), "14.0.0"));
}

#[test]
fn pointer_to_missing_version_counts_as_unset() {
    let set = InstalledSet::from_dir_names(&names(&["14.0.0"]));
    let state = Activation::new(set, Some("16.0.0"));
    assert_eq!(get_current_version(&state), None);
}

#[test]
fn alias_resolves_in_local_scope() {
    let set = InstalledSet::from_dir_names(&names(&["14.0.0", "16.0.0"]));
    let mut aliases = AliasConfig::new();
    set_alias(&mut aliases, "stable", "16.0.0");
    let mut state = Activation::new(set, None);
    let (chosen, outcome) = use_node_version("stable", &aliases, &mut state).unwrap();
    assert_eq!(chosen, v(16, 0, 0));
    assert_eq!(outcome, SwitchOutcome::Switched);
    assert_eq!(get_current_version(&state), Some("16.0.0".to_string()));
}

#[test]
fn use_node_version_twice_is_already_active() {
    let set = InstalledSet::from_dir_names(&names(&["14.0.0", "16.0.0"]));
    let aliases = AliasConfig::new();
    let mut state = Activation::new(set, None);
    let first = use_node_version("16", &aliases, &mut state).unwrap();
    assert_eq!(first, (v(16, 0, 0), SwitchOutcome::Switched));
    let second = use_node_version("16", &aliases, &mut state).unwrap();
    assert_eq!(second, (v(16, 0, 0), SwitchOutcome::AlreadyActive));
    assert_eq!(get_current_version(&state), Some("16.0.0".to_string()));
}

#[test]
fn local_major_only_and_missing() {
    let set = InstalledSet::from_dir_names(&names(&["14.0.0", "14.2.1", "16.0.0"]));
    let aliases = AliasConfig::new();
    let mut state = Activation::new(set, None);
    let (chosen, _) = use_node_version("14", &aliases, &mut state).unwrap();
    assert_eq!(chosen, v(14, 2, 1));
    assert!(matches!(
        use_node_version("12", &aliases, &mut state),
        Err(NodeError::VersionNotFound(_))
    ));
    assert!(matches!(
        use_node_version("lts", &aliases, &mut state),
        Err(NodeError::VersionNotFound(_))
    ));
}

#[test]
fn layout_paths() {
    assert_eq!(get_versions_dir("/h/.rnvm"), "/h/.rnvm/versions");
    assert_eq!(version_dir("/h/.rnvm", &v(18, 2, 0)), "/h/.rnvm/versions/18.2.0");
}
