use rnvm::config::alias::{set_alias, AliasConfig};
use rnvm::config::local::{
    clean_version_string, find_version_file, read_manifest, which, DeclarationSource, ProjectDir,
    WhichSource,
};

fn dir(over: Option<&str>, engines: Option<&str>, volta: Option<&str>) -> ProjectDir {
    ProjectDir {
        override_text: over.map(|s| s.to_string()),
        engines_node: engines.map(|s| s.to_string()),
        volta_node: volta.map(|s| s.to_string()),
    }
}

#[test]
fn test_clean_version_string() {
    assert_eq!(clean_version_string("v16.0.0".to_string()), "16.0.0");
    assert_eq!(clean_version_string("\"16.0.0\"".to_string()), "16.0.0");
    assert_eq!(clean_version_string(" 16.0.0 ".to_string()), "16.0.0");
}

#[test]
fn clean_handles_mixed_wrapping() {
    assert_eq!(clean_version_string("\t v18.2.0\n".to_string()), "18.2.0");
    assert_eq!(clean_version_string("\" 18.2.0 \"".to_string()), "18.2.0");
    assert_eq!(clean_version_string("".to_string()), "");
    assert_eq!(clean_version_string("vvv".to_string()), "");
}

#[test]
fn clean_strips_quotes_before_v_prefix() {
    assert_eq!(clean_version_string("\"v16.0.0\"".to_string()), "16.0.0");
    assert_eq!(clean_version_string(" \"v18.2.0\" ".to_string()), "18.2.0");
}

#[test]
fn override_file_is_read() {
    let dirs = vec![dir(Some("16.0.0"), None, None)];
    let d = find_version_file(&dirs).unwrap();
    assert_eq!(d.level, 0);
    assert_eq!(d.source, DeclarationSource::OverrideFile);
    assert_eq!(d.version, "16.0.0");
}

#[test]
fn manifest_engine_field_is_read() {
    let (engines, volta) = read_manifest(r#"{ "engines": { "node": ">=14.0.0" } }"#);
    assert_eq!(engines, Some(">=14.0.0".to_string()));
    assert_eq!(volta, None);
    let dirs = vec![ProjectDir { override_text: None, engines_node: engines, volta_node: volta }];
    let d = find_version_file(&dirs).unwrap();
    assert_eq!(d.source, DeclarationSource::ManifestEngines);
    assert_eq!(d.version, ">=14.0.0");
}

#[test]
fn manifest_tool_pin_and_bad_json() {
    let (engines, volta) = read_manifest(r#"{ "engines": { "node": 14 }, "volta": { "node": "18.1.0" } }"#);
    assert_eq!(engines, None);
    assert_eq!(volta, Some("18.1.0".to_string()));
    assert_eq!(read_manifest("{ not json"), (None, None));
}

#[test]
fn closest_ancestor_wins() {
    let dirs = vec![
        dir(None, None, None),
        dir(None, None, Some("18.1.0")),
        dir(Some("v20.0.0"), None, None),
    ];
    let d = find_version_file(&dirs).unwrap();
    assert_eq!(d.level, 1);
    assert_eq!(d.source, DeclarationSource::ManifestToolPin);
    assert_eq!(d.version, "18.1.0");
    assert!(find_version_file(&vec![dir(None, None, None)]).is_none());
    assert!(find_version_file(&Vec::new()).is_none());
}

#[test]
fn which_prefers_project_file() {
    let dirs = vec![dir(Some("v18.2.0"), None, None), dir(None, None, None)];
    let decl = find_version_file(&dirs);
    let mut aliases = AliasConfig::new();
    set_alias(&mut aliases, "default", "20.9.0");
    let r = which(&decl, &Some("16.0.0".to_string()), &aliases).unwrap();
    assert_eq!(r.0, WhichSource::Project(DeclarationSource::OverrideFile));
    assert_eq!(r.1, "18.2.0");
}

#[test]
fn which_falls_back_to_default_alias() {
    let mut aliases = AliasConfig::new();
    set_alias(&mut aliases, "default", "20.9.0");
    let r = which(&None, &None, &aliases).unwrap();
    assert_eq!(r.0, WhichSource::DefaultAlias);
    assert_eq!(r.1, "20.9.0");
}

#[test]
fn which_uses_pointer_then_nothing() {
    let aliases = AliasConfig::new();
    let r = which(&None, &Some("16.0.0".to_string()), &aliases).unwrap();
    assert_eq!(r.0, WhichSource::GlobalPointer);
    assert_eq!(r.1, "16.0.0");
    assert!(which(&None, &None, &aliases).is_none());
}
