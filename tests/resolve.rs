use rnvm::config::alias::{set_alias, AliasConfig};
use rnvm::errors::NodeError;
use rnvm::version::remote::{
    catalog_entry, get_download_url, get_latest, get_latest_lts, parse_version_list,
    resolve_version, sort_newest_first, Arch, Os,
};
use rnvm::version::text::SemVer;
use rnvm::version::{classify, get_matching_version, resolve, Keyword, NodeVersion, VersionSpec};

fn v(major: u64, minor: u64, patch: u64) -> SemVer {
    SemVer { major, minor, patch }
}

fn entry(major: u64, minor: u64, patch: u64, lts: bool) -> NodeVersion {
    NodeVersion::new(v(major, minor, patch), lts, "2023-10-24".to_string())
}

fn scenario_catalog() -> Vec<NodeVersion> {
    vec![entry(20, 9, 0, false), entry(18, 18, 0, true), entry(20, 8, 0, false)]
}

#[test]
fn lts_keyword_picks_newest_lts() {
    let catalog = scenario_catalog();
    let r = resolve(&VersionSpec::Keyword(Keyword::Lts), &catalog).unwrap();
    assert_eq!(r.version, v(18, 18, 0));
    assert_eq!(get_latest_lts(&catalog).unwrap().version, v(18, 18, 0));
}

#[test]
fn latest_keyword_picks_newest() {
    let catalog = scenario_catalog();
    assert_eq!(get_latest(&catalog).unwrap().version, v(20, 9, 0));
    assert!(matches!(get_latest(&Vec::new()), Err(NodeError::VersionNotFound(_))));
}

#[test]
fn lts_absent_is_not_found() {
    let catalog = vec![entry(21, 0, 0, false)];
    assert!(matches!(get_latest_lts(&catalog), Err(NodeError::VersionNotFound(_))));
}

#[test]
fn major_only_picks_greatest_of_that_major() {
    let catalog = scenario_catalog();
    let r = resolve(&VersionSpec::MajorOnly(20), &catalog).unwrap();
    assert_eq!(r.version, v(20, 9, 0));
    assert!(matches!(
        resolve(&VersionSpec::MajorOnly(16), &catalog),
        Err(NodeError::VersionNotFound(_))
    ));
}

#[test]
fn exact_is_exact_or_not_found() {
    let catalog = scenario_catalog();
    let r = resolve(&VersionSpec::Exact(v(20, 8, 0)), &catalog).unwrap();
    assert_eq!(r.version, v(20, 8, 0));
    assert!(matches!(
        resolve(&VersionSpec::Exact(v(20, 8, 1)), &catalog),
        Err(NodeError::VersionNotFound(_))
    ));
}

#[test]
fn range_picks_greatest_match() {
    let catalog = scenario_catalog();
    assert_eq!(resolve_version(">=18.0.0, <20.9.0", &catalog).unwrap().version, v(20, 8, 0));
    assert_eq!(resolve_version("^18.2", &catalog).unwrap().version, v(18, 18, 0));
    assert_eq!(resolve_version("20", &catalog).unwrap().version, v(20, 9, 0));
    assert_eq!(resolve_version("18.18.0", &catalog).unwrap().version, v(18, 18, 0));
}

#[test]
fn malformed_specifiers_are_invalid() {
    let catalog = scenario_catalog();
    assert!(matches!(resolve_version(">=a.b", &catalog), Err(NodeError::InvalidVersion(_))));
    assert!(matches!(resolve_version("abc", &catalog), Err(NodeError::InvalidVersion(_))));
    assert!(matches!(resolve_version("", &catalog), Err(NodeError::InvalidVersion(_))));
}

#[test]
fn classification_kinds() {
    let aliases = AliasConfig::new();
    assert!(matches!(classify("lts", &aliases), Ok(VersionSpec::Keyword(Keyword::Lts))));
    assert!(matches!(classify("lts/*", &aliases), Ok(VersionSpec::Keyword(Keyword::Lts))));
    assert!(matches!(classify("node", &aliases), Ok(VersionSpec::Keyword(Keyword::Latest))));
    assert!(matches!(classify("latest", &aliases), Ok(VersionSpec::Keyword(Keyword::Latest))));
    assert!(matches!(classify("14", &aliases), Ok(VersionSpec::MajorOnly(14))));
    assert!(matches!(classify("14.17.0", &aliases), Ok(VersionSpec::Exact(x)) if x == v(14, 17, 0)));
    assert!(matches!(classify("14.17", &aliases), Ok(VersionSpec::Range(_))));
    assert!(matches!(classify("~14.17.0", &aliases), Ok(VersionSpec::Range(_))));
}

#[test]
fn alias_shadows_keyword() {
    let mut aliases = AliasConfig::new();
    set_alias(&mut aliases, "lts", "16.0.0");
    assert!(matches!(classify("lts", &aliases), Ok(VersionSpec::Exact(x)) if x == v(16, 0, 0)));
    let catalog = vec![entry(16, 0, 0, false), entry(18, 0, 0, true)];
    assert_eq!(get_matching_version("lts", &aliases, &catalog).unwrap().version, v(16, 0, 0));
}

#[test]
fn alias_value_is_a_literal() {
    let mut aliases = AliasConfig::new();
    set_alias(&mut aliases, "old", "latest");
    assert!(matches!(classify("old", &aliases), Err(NodeError::InvalidVersion(_))));
}

#[test]
fn parse_index_skips_bad_records_and_sorts() {
    let body = r#"[
        {"version": "v20.8.0", "date": "2023-09-28", "lts": false},
        {"version": "v18.18.0", "date": "2023-09-18", "lts": "Hydrogen"},
        {"version": "vbogus", "date": "2023-01-01", "lts": false},
        {"version": "v20.9.0", "date": "2023-10-24", "lts": true},
        {"date": "2023-01-01"},
        {"version": "v21.0.0-rc.1", "date": "2023-10-01", "lts": false}
    ]"#;
    let list = parse_version_list(body).unwrap();
    let versions: Vec<SemVer> = list.iter().map(|e| e.version).collect();
    assert_eq!(versions, vec![v(20, 9, 0), v(20, 8, 0), v(18, 18, 0)]);
    assert!(list[0].lts);
    assert!(!list[1].lts);
    assert!(list[2].lts);
    assert_eq!(list[2].date, "2023-09-18");
}

#[test]
fn parse_index_rejects_non_array() {
    assert!(matches!(parse_version_list("{\"a\": 1}"), Err(NodeError::DownloadError(_))));
    assert!(matches!(parse_version_list("not json"), Err(NodeError::DownloadError(_))));
    assert!(parse_version_list("[]").unwrap().is_empty());
}

#[test]
fn catalog_entry_rules() {
    let e = catalog_entry(Some("vv1.2.3".to_string()), Some("d".to_string()), None, true).unwrap();
    assert_eq!(e.version, v(1, 2, 3));
    assert!(e.lts);
    let e = catalog_entry(Some("1.2.3".to_string()), Some("d".to_string()), Some(false), false).unwrap();
    assert!(!e.lts);
    assert!(catalog_entry(None, Some("d".to_string()), None, false).is_none());
    assert!(catalog_entry(Some("v1.2.3".to_string()), None, None, false).is_none());
    assert!(catalog_entry(Some("v1.2".to_string()), Some("d".to_string()), None, false).is_none());
}

#[test]
fn sort_orders_newest_first() {
    let sorted = sort_newest_first(vec![
        entry(1, 0, 0, false),
        entry(10, 0, 0, false),
        entry(2, 5, 0, false),
        entry(2, 10, 0, false),
    ]);
    let versions: Vec<SemVer> = sorted.iter().map(|e| e.version).collect();
    assert_eq!(versions, vec![v(10, 0, 0), v(2, 10, 0), v(2, 5, 0), v(1, 0, 0)]);
}

#[test]
fn download_url_layout() {
    let e = entry(20, 9, 0, false);
    assert_eq!(
        get_download_url(&e, Os::Linux, Arch::X64),
        "https://nodejs.org/dist/v20.9.0/node-v20.9.0-linux-x64.tar.gz"
    );
    assert_eq!(
        get_download_url(&e, Os::Windows, Arch::X86),
        "https://nodejs.org/dist/v20.9.0/node-v20.9.0-win-x86.zip"
    );
    assert_eq!(
        get_download_url(&e, Os::MacOs, Arch::Arm64),
        "https://nodejs.org/dist/v20.9.0/node-v20.9.0-darwin-arm64.tar.gz"
    );
}
