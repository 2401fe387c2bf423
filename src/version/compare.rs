//! Ordering of version texts and constraint checks.
use vstd::prelude::*;
use core::cmp::Ordering;
use crate::version::text::{
    SemVer, release_text, semver_lt, parse_release, lemma_release_text_injective, Requirement,
    requirement_parses, requirement_admits,
};

verus! {

/// The release that `text` is the canonical text of, or `0.0.0` if none.
pub open spec fn release_or_zero(text: Seq<char>) -> SemVer {
    if exists|v: SemVer| release_text(v) == text {
        choose|v: SemVer| release_text(v) == text
    } else {
        SemVer { major: 0, minor: 0, patch: 0 }
    }
}

/// How `a` stands to `b` in semantic-version order.
pub open spec fn order_of(a: SemVer, b: SemVer) -> Ordering {
    if semver_lt(a, b) {
        Ordering::Less
    } else if a == b {
        Ordering::Equal
    } else {
        Ordering::Greater
    }
}

/// Reads `text` as a release, falling back to `0.0.0`.
pub fn release_or_zero_of(text: &str) -> (r: SemVer)
    ensures
        r == release_or_zero(text@),
{
    match parse_release(text) {
        Some(v) => {
            proof {
                let w = choose|w: SemVer| release_text(w) == text@;
                lemma_release_text_injective(v, w);
            }
            v
        },
        None => SemVer { major: 0, minor: 0, patch: 0 },
    }
}

/// Compares `a` with `b` in semantic-version order.
pub fn cmp_versions(a: &SemVer, b: &SemVer) -> (r: Ordering)
    ensures
        r == order_of(*a, *b),
{
    if a.major != b.major {
        if a.major < b.major {
            Ordering::Less
        } else {
            Ordering::Greater
        }
    } else if a.minor != b.minor {
        if a.minor < b.minor {
            Ordering::Less
        } else {
            Ordering::Greater
        }
    } else if a.patch != b.patch {
        if a.patch < b.patch {
            Ordering::Less
        } else {
            Ordering::Greater
        }
    } else {
        Ordering::Equal
    }
}

/// A descending comparator on version texts: `Greater` when `a` is the older
/// release. A text that is no release version counts as `0.0.0`.
pub fn compare_versions(a: &str, b: &str) -> (r: Ordering)
    ensures
        r == order_of(release_or_zero(b@), release_or_zero(a@)),
{
    let va = release_or_zero_of(a);
    let vb = release_or_zero_of(b);
    cmp_versions(&vb, &va)
}

/// Whether release text `version` satisfies the constraint `requirement`;
/// false when either does not parse.
pub fn matches_requirement(version: &str, requirement: &str) -> (r: bool)
    ensures
        r == (requirement_parses(requirement@) && exists|v: SemVer|
            release_text(v) == version@ && requirement_admits(
                requirement@,
                v.major,
                v.minor,
                v.patch,
            )),
{
    match (parse_release(version), Requirement::parse(requirement)) {
        (Some(v), Some(req)) => {
            let ok = req.matches(&v);
            proof {
                assert(release_text(v) == version@);
                assert forall|w: SemVer| release_text(w) == version@ implies w == v by {
                    lemma_release_text_injective(w, v);
                }
            }
            ok
        },
        _ => false,
    }
}

} // verus!
