use rnvm::version::compare::{compare_versions, matches_requirement};
use std::cmp::Ordering;

#[test]
fn test_version_comparison() {
    assert_eq!(compare_versions("1.0.0", "2.0.0"), Ordering::Greater);
    assert_eq!(compare_versions("2.0.0", "1.0.0"), Ordering::Less);
    assert_eq!(compare_versions("1.0.0", "1.0.0"), Ordering::Equal);
}

#[test]
fn test_version_requirement() {
    assert!(matches_requirement("1.2.3", "^1.0.0"));
    assert!(matches_requirement("2.0.0", ">=1.0.0"));
    assert!(!matches_requirement("0.9.0", "^1.0.0"));
}

#[test]
fn unparseable_text_compares_as_zero() {
    assert_eq!(compare_versions("junk", "0.0.0"), Ordering::Equal);
    assert_eq!(compare_versions("junk", "0.0.1"), Ordering::Greater);
    assert_eq!(compare_versions("10.0.0", "9.99.99"), Ordering::Less);
}

#[test]
fn malformed_requirement_matches_nothing() {
    assert!(!matches_requirement("1.2.3", ">=a.b"));
    assert!(!matches_requirement("1.2", "^1.0.0"));
}
