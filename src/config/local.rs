//! Project-declared versions and the precedence that decides which applies.
use vstd::prelude::*;
use crate::config::alias::{AliasConfig, get_alias};
use crate::json::{member_text, json_member_text, opt_text};
use crate::strip::{Strip, strip_both, strip_start, trim_both, trim_start};

verus! {

/// The cleaned form of a declared version: surrounding white space removed,
/// then surrounding quotes, then leading `v`s, then white space again.
pub open spec fn cleaned(s: Seq<char>) -> Seq<char> {
    strip_both(strip_start(strip_both(strip_both(s, Strip::WhiteSpace), Strip::Quote), Strip::LetterV), Strip::WhiteSpace)
}

/// Cleans a declared version string, e.g. ` "v16.0.0" ` to `16.0.0`.
pub fn clean_version_string(version: String) -> (r: String)
    ensures
        r@ == cleaned(version@),
{
    let a = trim_both(version.as_str(), Strip::WhiteSpace);
    let b = trim_both(a.as_str(), Strip::Quote);
    let c = trim_start(b.as_str(), Strip::LetterV);
    trim_both(c.as_str(), Strip::WhiteSpace)
}

/// What one directory holds that may declare a version.
pub struct ProjectDir {
    /// Contents of the override file, if it exists and could be read.
    pub override_text: Option<String>,
    /// The manifest's engine-version field, if present and a string.
    pub engines_node: Option<String>,
    /// The manifest's tool-pin field, if present and a string.
    pub volta_node: Option<String>,
}

/// Where a declaration was found.
#[derive(Clone, Copy, Debug, PartialEq, Eq, Structural)]
pub enum DeclarationSource {
    OverrideFile,
    ManifestEngines,
    ManifestToolPin,
}

/// A declared version: how many levels above the working directory, in
/// which file or field, and the cleaned version string.
pub struct Declaration {
    pub level: usize,
    pub source: DeclarationSource,
    pub version: String,
}

/// The first declaration of one directory, in the order override file,
/// engine field, tool-pin field.
pub open spec fn dir_declares(d: ProjectDir) -> Option<(DeclarationSource, Seq<char>)> {
    match d.override_text {
        Some(t) => Some((DeclarationSource::OverrideFile, t@)),
        None => match d.engines_node {
            Some(t) => Some((DeclarationSource::ManifestEngines, t@)),
            None => match d.volta_node {
                Some(t) => Some((DeclarationSource::ManifestToolPin, t@)),
                None => None,
            },
        },
    }
}

/// Reads the two pinning fields of a manifest: `engines.node` and
/// `volta.node`, each only when it is a string. Malformed JSON gives neither.
pub fn read_manifest(text: &str) -> (r: (Option<String>, Option<String>))
    ensures
        opt_text(r.0) == json_member_text(text@, "engines"@, "node"@),
        opt_text(r.1) == json_member_text(text@, "volta"@, "node"@),
{
    let engines = member_text(text, "engines", "node");
    let volta = member_text(text, "volta", "node");
    (engines, volta)
}

/// The declaration that applies, given the directories from the working
/// directory (index 0) up to the filesystem root: the closest directory that
/// declares anything wins, and within it the first source in order.
pub fn find_version_file(dirs: &Vec<ProjectDir>) -> (r: Option<Declaration>)
    ensures
        match r {
            Some(d) => {
                &&& d.level < dirs@.len()
                &&& dir_declares(dirs@[d.level as int]) matches Some((src, raw)) && src == d.source
                    && d.version@ == cleaned(raw)
                &&& forall|k: int| 0 <= k < d.level ==> dir_declares(#[trigger] dirs@[k]) is None
            },
            None => forall|k: int| 0 <= k < dirs@.len() ==> dir_declares(#[trigger] dirs@[k]) is None,
        },
{
    let mut i: usize = 0;
    while i < dirs.len()
        invariant
            i <= dirs.len(),
            forall|k: int| 0 <= k < i ==> dir_declares(#[trigger] dirs@[k]) is None,
        decreases dirs.len() - i,
    {
        let d = &dirs[i];
        let found = match &d.override_text {
            Some(t) => Some((DeclarationSource::OverrideFile, t)),
            None => match &d.engines_node {
                Some(t) => Some((DeclarationSource::ManifestEngines, t)),
                None => match &d.volta_node {
                    Some(t) => Some((DeclarationSource::ManifestToolPin, t)),
                    None => None,
                },
            },
        };
        match found {
            Some((source, raw)) => {
                let version = clean_version_string(raw.clone());
                return Some(Declaration { level: i, source, version });
            },
            None => {},
        }
        i = i + 1;
    }
    None
}

/// Where the effective version came from.
#[derive(Clone, Copy, Debug, PartialEq, Eq, Structural)]
pub enum WhichSource {
    Project(DeclarationSource),
    GlobalPointer,
    DefaultAlias,
}

/// The effective version by precedence: a project declaration, then the
/// activation pointer, then the `default` alias; `None` when none applies.
pub fn which(
    declaration: &Option<Declaration>,
    current: &Option<String>,
    aliases: &AliasConfig,
) -> (r: Option<(WhichSource, String)>)
    requires
        aliases.wf(),
    ensures
        match declaration {
            Some(d) => r matches Some((s, v)) && s == WhichSource::Project(d.source) && v@ == d.version@,
            None => match current {
                Some(c) => r matches Some((s, v)) && s == WhichSource::GlobalPointer && v@ == c@,
                None => if aliases@.contains_key("default"@) {
                    r matches Some((s, v)) && s == WhichSource::DefaultAlias && v@ == aliases@["default"@]
                } else {
                    r is None
                },
            },
        },
{
    match declaration {
        Some(d) => Some((WhichSource::Project(d.source), d.version.clone())),
        None => match current {
            Some(c) => Some((WhichSource::GlobalPointer, c.clone())),
            None => match get_alias(aliases, "default") {
                Some(v) => Some((WhichSource::DefaultAlias, v)),
                None => None,
            },
        },
    }
}

} // verus!
