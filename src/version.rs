//! Specifier classification and version resolution.
use vstd::prelude::*;
use crate::config::alias::AliasConfig;
use crate::errors::NodeError;
use crate::version::text::{
    SemVer, Requirement, decimal, release_text, semver_lt, semver_le, dot_free, parse_release,
    requirement_parses, requirement_admits, lemma_decimal_dot_free, lemma_decimal_injective,
    lemma_split_at_dot, lemma_release_text_injective,
};

pub mod compare;
pub mod local;
pub mod remote;
pub mod text;

verus! {

/// One publishable or installed build: its version, whether its line is LTS,
/// and its release date as published.
pub struct NodeVersion {
    pub version: SemVer,
    pub lts: bool,
    pub date: String,
}

/// `a` and `b` describe the same build.
pub open spec fn same_build(a: NodeVersion, b: NodeVersion) -> bool {
    a.version == b.version && a.lts == b.lts && a.date@ == b.date@
}

impl NodeVersion {
    pub fn new(version: SemVer, lts: bool, date: String) -> (r: NodeVersion)
        ensures
            r.version == version,
            r.lts == lts,
            r.date@ == date@,
    {
        NodeVersion { version, lts, date }
    }

    /// Canonical text of the version, e.g. `20.9.0`.
    pub fn version_str(&self) -> (r: String)
        ensures
            r@ == release_text(self.version),
    {
        self.version.version_str()
    }

    /// A copy of this build.
    pub fn duplicate(&self) -> (r: NodeVersion)
        ensures
            same_build(r, *self),
    {
        NodeVersion { version: self.version, lts: self.lts, date: self.date.clone() }
    }
}

/// The keywords a specifier may be.
#[derive(Clone, Copy, Debug, PartialEq, Eq, Structural)]
pub enum Keyword {
    Lts,
    Latest,
}

/// A classified specifier.
pub enum VersionSpec {
    Exact(SemVer),
    MajorOnly(u64),
    Range(Requirement),
    Keyword(Keyword),
}

/// What a specifier means, with a constraint given by its text.
pub enum SpecModel {
    Exact(SemVer),
    MajorOnly(u64),
    Range(Seq<char>),
    Keyword(Keyword),
}

impl View for VersionSpec {
    type V = SpecModel;

    open spec fn view(&self) -> SpecModel {
        match self {
            VersionSpec::Exact(v) => SpecModel::Exact(*v),
            VersionSpec::MajorOnly(m) => SpecModel::MajorOnly(*m),
            VersionSpec::Range(q) => SpecModel::Range(q@),
            VersionSpec::Keyword(k) => SpecModel::Keyword(*k),
        }
    }
}

/// The keyword that `s` spells, if any.
pub open spec fn keyword_of(s: Seq<char>) -> Option<Keyword> {
    if s == "lts"@ || s == "lts/*"@ {
        Some(Keyword::Lts)
    } else if s == "latest"@ || s == "node"@ {
        Some(Keyword::Latest)
    } else {
        None
    }
}

/// Characters that mark a specifier as a version or a constraint.
pub open spec fn is_range_marker(c: char) -> bool {
    c == '.' || c == '>' || c == '<' || c == '^' || c == '~' || c == '='
}

pub open spec fn range_marked(s: Seq<char>) -> bool {
    exists|i: int| 0 <= i < s.len() && is_range_marker(s[i])
}

/// How a literal version string (no alias, no keyword) is classified:
/// a dotted or comparator-bearing text is an exact release when it is one's
/// canonical text and otherwise a constraint; a bare token is a major number.
pub open spec fn classify_literal_spec(lit: Seq<char>) -> Option<SpecModel> {
    if range_marked(lit) {
        if exists|v: SemVer| release_text(v) == lit {
            Some(SpecModel::Exact(choose|v: SemVer| release_text(v) == lit))
        } else if requirement_parses(lit) {
            Some(SpecModel::Range(lit))
        } else {
            None
        }
    } else if exists|m: u64| decimal(m as nat) == lit {
        Some(SpecModel::MajorOnly(choose|m: u64| decimal(m as nat) == lit))
    } else {
        None
    }
}

/// How a raw specifier is classified: an alias of that exact name wins and
/// its stored version is classified as a literal; then keywords; then the
/// literal rules. `None` is an invalid specifier.
pub open spec fn classify_spec(raw: Seq<char>, aliases: Map<Seq<char>, Seq<char>>) -> Option<
    SpecModel,
> {
    if aliases.contains_key(raw) {
        classify_literal_spec(aliases[raw])
    } else if keyword_of(raw) is Some {
        Some(SpecModel::Keyword(keyword_of(raw).unwrap()))
    } else {
        classify_literal_spec(raw)
    }
}

fn is_keyword_text(raw: &String, word: &str) -> (r: bool)
    ensures
        r == (raw@ == word@),
{
    *raw == String::from_str(word)
}

fn keyword(raw: &str) -> (r: Option<Keyword>)
    ensures
        r == keyword_of(raw@),
{
    let s = String::from_str(raw);
    if is_keyword_text(&s, "lts") || is_keyword_text(&s, "lts/*") {
        Some(Keyword::Lts)
    } else if is_keyword_text(&s, "latest") || is_keyword_text(&s, "node") {
        Some(Keyword::Latest)
    } else {
        None
    }
}

fn has_range_marker(s: &str) -> (r: bool)
    ensures
        r == range_marked(s@),
{
    let n = s.unicode_len();
    let mut i: usize = 0;
    while i < n
        invariant
            n == s@.len(),
            i <= n,
            forall|j: int| 0 <= j < i ==> !is_range_marker(s@[j]),
        decreases n - i,
    {
        let c = s.get_char(i);
        if c == '.' || c == '>' || c == '<' || c == '^' || c == '~' || c == '=' {
            return true;
        }
        i = i + 1;
    }
    false
}

/// Classifies a literal version string by the rules for dotted, comparator
/// and bare forms.
pub fn classify_literal(lit: &str) -> (r: Result<VersionSpec, NodeError>)
    ensures
        match classify_literal_spec(lit@) {
            Some(m) => r matches Ok(s) && s@ == m,
            None => r matches Err(e) && e is InvalidVersion,
        },
{
    if has_range_marker(lit) {
        match parse_release(lit) {
            Some(v) => {
                proof {
                    assert(release_text(v) == lit@);
                    let w = choose|w: SemVer| release_text(w) == lit@;
                    lemma_release_text_injective(v, w);
                }
                Ok(VersionSpec::Exact(v))
            },
            None => match Requirement::parse(lit) {
                Some(q) => Ok(VersionSpec::Range(q)),
                None => Err(NodeError::InvalidVersion(invalid_message(lit))),
            },
        }
    } else {
        let mut full = String::from_str(lit);
        full.append(".0.0");
        proof {
            reveal_strlit(".0.0");
        }
        match parse_release(full.as_str()) {
            Some(v) => {
                proof {
                    lemma_major_text(lit@, v);
                    let m = choose|m: u64| decimal(m as nat) == lit@;
                    lemma_decimal_injective(m as nat, v.major as nat);
                }
                Ok(VersionSpec::MajorOnly(v.major))
            },
            None => {
                proof {
                    if exists|m: u64| decimal(m as nat) == lit@ {
                        let m = choose|m: u64| decimal(m as nat) == lit@;
                        let v = SemVer { major: m, minor: 0, patch: 0 };
                        assert(decimal(0) =~= seq!['0']);
                        assert(release_text(v) =~= full@);
                    }
                }
                Err(NodeError::InvalidVersion(invalid_message(lit)))
            },
        }
    }
}

/// A bare token followed by `.0.0` is a release's text only when the token is
/// that release's major number, written canonically.
proof fn lemma_major_text(lit: Seq<char>, v: SemVer)
    requires
        !range_marked(lit),
        lit + ".0.0"@ == release_text(v),
    ensures
        decimal(v.major as nat) == lit,
{
    reveal_strlit(".0.0");
    reveal_strlit("0.0");
    assert(dot_free(lit)) by {
        assert forall|i: int| 0 <= i < lit.len() implies lit[i] != '.' by {
            if lit[i] == '.' {
                assert(is_range_marker(lit[i]));
            }
        }
    }
    lemma_decimal_dot_free(v.major as nat);
    let rest = decimal(v.minor as nat) + seq!['.'] + decimal(v.patch as nat);
    assert(lit + ".0.0"@ =~= lit + seq!['.'] + "0.0"@);
    assert(release_text(v) =~= decimal(v.major as nat) + seq!['.'] + rest);
    lemma_split_at_dot(lit, "0.0"@, decimal(v.major as nat), rest);
}

fn invalid_message(spec: &str) -> (r: String) {
    let mut msg = String::from_str("Invalid version specification: ");
    msg.append(spec);
    msg.append(". Use format like '14' or '14.17.0'");
    msg
}

/// Classifies a raw specifier: alias first, then keyword, then literal form.
pub fn classify(raw: &str, aliases: &AliasConfig) -> (r: Result<VersionSpec, NodeError>)
    requires
        aliases.wf(),
    ensures
        match classify_spec(raw@, aliases@) {
            Some(m) => r matches Ok(s) && s@ == m,
            None => r matches Err(e) && e is InvalidVersion,
        },
{
    match crate::config::alias::get_alias(aliases, raw) {
        Some(lit) => classify_literal(lit.as_str()),
        None => match keyword(raw) {
            Some(k) => Ok(VersionSpec::Keyword(k)),
            None => classify_literal(raw),
        },
    }
}

/// The (version, LTS flag) of each entry: all that resolution looks at.
pub open spec fn catalog_keys(es: Seq<NodeVersion>) -> Seq<(SemVer, bool)> {
    es.map_values(|e: NodeVersion| (e.version, e.lts))
}

/// Whether an entry with version `v` and LTS flag `lts` is a candidate for `s`.
pub open spec fn selects(s: SpecModel, v: SemVer, lts: bool) -> bool {
    match s {
        SpecModel::Exact(x) => v == x,
        SpecModel::MajorOnly(m) => v.major == m,
        SpecModel::Range(text) => requirement_admits(text, v.major, v.minor, v.patch),
        SpecModel::Keyword(Keyword::Lts) => lts,
        SpecModel::Keyword(Keyword::Latest) => true,
    }
}

/// The index of the entry that resolution picks: the greatest version among
/// the candidates, the earliest of equal ones; `None` when nothing is a candidate.
pub open spec fn resolve_spec(s: SpecModel, es: Seq<(SemVer, bool)>) -> Option<int>
    decreases es.len(),
{
    if es.len() == 0 {
        None
    } else {
        let rest = resolve_spec(s, es.drop_last());
        let i = es.len() - 1;
        if !selects(s, es[i].0, es[i].1) {
            rest
        } else {
            match rest {
                None => Some(i),
                Some(j) => if semver_lt(es[j].0, es[i].0) {
                    Some(i)
                } else {
                    Some(j)
                },
            }
        }
    }
}

/// Resolution picks a candidate no smaller than any other candidate, and
/// fails only when there is no candidate.
pub proof fn lemma_resolve_spec(s: SpecModel, es: Seq<(SemVer, bool)>)
    ensures
        match resolve_spec(s, es) {
            Some(j) => 0 <= j < es.len() && selects(s, es[j].0, es[j].1) && forall|k: int|
                0 <= k < es.len() && #[trigger] selects(s, es[k].0, es[k].1) ==> semver_le(
                    es[k].0,
                    es[j].0,
                ),
            None => forall|k: int| 0 <= k < es.len() ==> !#[trigger] selects(s, es[k].0, es[k].1),
        },
    decreases es.len(),
{
    if es.len() > 0 {
        let t = es.drop_last();
        lemma_resolve_spec(s, t);
        assert forall|k: int| 0 <= k < t.len() implies t[k] == es[k] by {}
    }
}

fn selects_entry(s: &VersionSpec, e: &NodeVersion) -> (r: bool)
    ensures
        r == selects(s@, e.version, e.lts),
{
    match s {
        VersionSpec::Exact(v) => e.version == *v,
        VersionSpec::MajorOnly(m) => e.version.major == *m,
        VersionSpec::Range(q) => q.matches(&e.version),
        VersionSpec::Keyword(Keyword::Lts) => e.lts,
        VersionSpec::Keyword(Keyword::Latest) => true,
    }
}

/// Resolves a classified specifier against a snapshot of entries (the remote
/// catalog or the installed set): the greatest candidate, or `VersionNotFound`.
pub fn resolve(spec: &VersionSpec, entries: &Vec<NodeVersion>) -> (r: Result<NodeVersion, NodeError>)
    ensures
        match resolve_spec(spec@, catalog_keys(entries@)) {
            Some(j) => r matches Ok(e) && same_build(e, entries@[j]),
            None => r matches Err(e) && e is VersionNotFound,
        },
{
    let mut best: Option<usize> = None;
    let mut i: usize = 0;
    while i < entries.len()
        invariant
            i <= entries.len(),
            match best {
                Some(b) => resolve_spec(spec@, catalog_keys(entries@.take(i as int))) == Some(b as int),
                None => resolve_spec(spec@, catalog_keys(entries@.take(i as int))) is None,
            },
        decreases entries.len() - i,
    {
        proof {
            let t = entries@.take(i as int + 1);
            assert(catalog_keys(t).drop_last() =~= catalog_keys(entries@.take(i as int)));
            assert(catalog_keys(t)[i as int] == (entries@[i as int].version, entries@[i as int].lts));
        }
        if selects_entry(spec, &entries[i]) {
            match best {
                None => {
                    best = Some(i);
                },
                Some(b) => {
                    proof {
                        lemma_resolve_spec(spec@, catalog_keys(entries@.take(i as int)));
                    }
                    if crate::version::text::version_lt(&entries[b].version, &entries[i].version) {
                        best = Some(i);
                    }
                },
            }
        }
        i = i + 1;
    }
    proof {
        assert(entries@.take(entries.len() as int) =~= entries@);
        lemma_resolve_spec(spec@, catalog_keys(entries@));
    }
    match best {
        Some(b) => Ok(entries[b].duplicate()),
        None => Err(NodeError::VersionNotFound(String::from_str("No matching version found"))),
    }
}

/// Classifies a raw specifier (alias, keyword, literal) and resolves it
/// against the catalog.
pub fn get_matching_version(version_spec: &str, aliases: &AliasConfig, catalog: &Vec<NodeVersion>) -> (r:
    Result<NodeVersion, NodeError>)
    requires
        aliases.wf(),
    ensures
        match classify_spec(version_spec@, aliases@) {
            None => r matches Err(e) && e is InvalidVersion,
            Some(m) => match resolve_spec(m, catalog_keys(catalog@)) {
                Some(j) => r matches Ok(e) && same_build(e, catalog@[j]),
                None => r matches Err(e) && e is VersionNotFound,
            },
        },
{
    match classify(version_spec, aliases) {
        Ok(spec) => resolve(&spec, catalog),
        Err(e) => Err(e),
    }
}

/// For a major-only specifier, resolution yields the greatest version with
/// that major, or nothing when no entry has it.
pub proof fn lemma_major_only_picks_greatest(m: u64, es: Seq<(SemVer, bool)>)
    ensures
        match resolve_spec(SpecModel::MajorOnly(m), es) {
            Some(j) => 0 <= j < es.len() && es[j].0.major == m && forall|k: int|
                0 <= k < es.len() && es[k].0.major == m ==> semver_le(es[k].0, es[j].0),
            None => forall|k: int| 0 <= k < es.len() ==> es[k].0.major != m,
        },
{
    lemma_resolve_spec(SpecModel::MajorOnly(m), es);
    if let Some(j) = resolve_spec(SpecModel::MajorOnly(m), es) {
        assert forall|k: int| 0 <= k < es.len() && es[k].0.major == m implies semver_le(
            es[k].0,
            es[j].0,
        ) by {
            assert(selects(SpecModel::MajorOnly(m), es[k].0, es[k].1));
        }
    } else {
        assert forall|k: int| 0 <= k < es.len() implies es[k].0.major != m by {
            assert(!selects(SpecModel::MajorOnly(m), es[k].0, es[k].1));
        }
    }
}

/// An exact specifier resolves to exactly that version when some entry has
/// it, and to nothing otherwise; never to another version.
pub proof fn lemma_exact_is_exact(v: SemVer, es: Seq<(SemVer, bool)>)
    ensures
        (exists|k: int| 0 <= k < es.len() && es[k].0 == v) ==> (resolve_spec(
            SpecModel::Exact(v),
            es,
        ) matches Some(j) && 0 <= j < es.len() && es[j].0 == v),
        (forall|k: int| 0 <= k < es.len() ==> es[k].0 != v) ==> resolve_spec(
            SpecModel::Exact(v),
            es,
        ) is None,
{
    lemma_resolve_spec(SpecModel::Exact(v), es);
    if exists|k: int| 0 <= k < es.len() && es[k].0 == v {
        let k = choose|k: int| 0 <= k < es.len() && es[k].0 == v;
        assert(selects(SpecModel::Exact(v), es[k].0, es[k].1));
    }
}

} // verus!
