use rnvm::config::alias::AliasConfig;
use rnvm::version::text::{decimal_text, parse_release, SemVer};
use rnvm::version::{classify, VersionSpec};

fn v(major: u64, minor: u64, patch: u64) -> SemVer {
    SemVer { major, minor, patch }
}

#[test]
fn decimal_text_is_canonical() {
    assert_eq!(decimal_text(0), "0");
    assert_eq!(decimal_text(7), "7");
    assert_eq!(decimal_text(1020), "1020");
    assert_eq!(decimal_text(u64::MAX), "18446744073709551615");
}

#[test]
fn version_str_joins_components() {
    assert_eq!(v(20, 9, 0).version_str(), "20.9.0");
}

#[test]
fn parse_release_reads_canonical_text() {
    assert_eq!(parse_release("18.18.0"), Some(v(18, 18, 0)));
    assert_eq!(parse_release("0.0.0"), Some(v(0, 0, 0)));
}

#[test]
fn parse_release_rejects_other_text() {
    assert_eq!(parse_release("v18.18.0"), None);
    assert_eq!(parse_release("18.18"), None);
    assert_eq!(parse_release("18.018.0"), None);
    assert_eq!(parse_release("1.0.0-rc.1"), None);
    assert_eq!(parse_release("1.0.0+build"), None);
    assert_eq!(parse_release(""), None);
    assert_eq!(parse_release("downloads"), None);
}

#[test]
fn range_specifier_keeps_its_text() {
    let aliases = AliasConfig::new();
    match classify("^14.2.0", &aliases) {
        Ok(VersionSpec::Range(q)) => assert_eq!(q.as_str(), "^14.2.0"),
        _ => panic!("expected a range"),
    }
    assert_eq!(v(1, 2, 3), SemVer { major: 1, minor: 2, patch: 3 });
}
