use rnvm::config::alias::{
    aliases_of, get_alias, get_alias_file, list_aliases, remove_alias, set_alias, AliasConfig,
};
use rnvm::config::get_config_dir;
use rnvm::errors::NodeError;

#[test]
fn set_get_and_replace() {
    let mut c = AliasConfig::new();
    assert_eq!(get_alias(&c, "stable"), None);
    set_alias(&mut c, "stable", "16.0.0");
    assert_eq!(get_alias(&c, "stable"), Some("16.0.0".to_string()));
    set_alias(&mut c, "stable", "18.0.0");
    assert_eq!(get_alias(&c, "stable"), Some("18.0.0".to_string()));
    assert_eq!(list_aliases(&c).len(), 1);
}

#[test]
fn remove_existing_and_missing() {
    let mut c = AliasConfig::new();
    set_alias(&mut c, "prod", "14.0.0");
    set_alias(&mut c, "dev", "20.0.0");
    assert!(remove_alias(&mut c, "prod").is_ok());
    assert_eq!(get_alias(&c, "prod"), None);
    assert_eq!(get_alias(&c, "dev"), Some("20.0.0".to_string()));
    assert!(matches!(remove_alias(&mut c, "prod"), Err(NodeError::AliasError(_))));
}

#[test]
fn list_keeps_first_binding_order() {
    let mut c = AliasConfig::new();
    set_alias(&mut c, "a", "1.0.0");
    set_alias(&mut c, "b", "2.0.0");
    set_alias(&mut c, "a", "3.0.0");
    let all = list_aliases(&c);
    assert_eq!(
        all,
        vec![("a".to_string(), "3.0.0".to_string()), ("b".to_string(), "2.0.0".to_string())]
    );
}

#[test]
fn from_parts_later_pair_wins() {
    let c = AliasConfig::from_parts(
        vec![
            ("x".to_string(), "1.0.0".to_string()),
            ("x".to_string(), "2.0.0".to_string()),
        ],
        Some("9.0.0".to_string()),
    );
    assert_eq!(get_alias(&c, "x"), Some("2.0.0".to_string()));
    assert_eq!(c.default_entry_value(), Some("9.0.0".to_string()));
}

#[test]
fn names_bound_to_a_version() {
    let mut c = AliasConfig::new();
    set_alias(&mut c, "a", "1.0.0");
    set_alias(&mut c, "b", "2.0.0");
    set_alias(&mut c, "c", "1.0.0");
    assert_eq!(aliases_of(&c, "1.0.0"), vec!["a".to_string(), "c".to_string()]);
    assert!(aliases_of(&c, "3.0.0").is_empty());
}

#[test]
fn config_paths() {
    assert_eq!(get_config_dir("/home/u/.rnvm"), "/home/u/.rnvm/config");
    assert_eq!(get_alias_file("/home/u/.rnvm"), "/home/u/.rnvm/config/aliases.json");
}
