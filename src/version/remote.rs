//! The remote catalog: reading the published index and choosing from it.
use vstd::prelude::*;
use crate::errors::NodeError;
use crate::json::{index_records_of, read_index, records_view, record_view, opt_text};
use crate::strip::{Strip, strip_start, trim_start};
use crate::version::{
    NodeVersion, VersionSpec, Keyword, SpecModel, same_build, catalog_keys, resolve, resolve_spec,
    classify_literal, classify_literal_spec,
};
use crate::version::text::{
    SemVer, release_text, semver_le, parse_release, version_lt, lemma_release_text_injective,
};

verus! {

broadcast use vstd::seq_lib::group_to_multiset_ensures;

/// Where published builds are downloaded from.
pub const NODE_DIST_URL: &'static str = "https://nodejs.org/dist";

/// Newest first (equal versions in any order).
pub open spec fn newest_first(es: Seq<NodeVersion>) -> bool {
    forall|i: int, j: int| 0 <= i < j < es.len() ==> semver_le(es[j].version, es[i].version)
}

/// A build as plain values: version, LTS flag, date.
pub open spec fn entry_key(e: NodeVersion) -> (SemVer, bool, Seq<char>) {
    (e.version, e.lts, e.date@)
}

pub open spec fn catalog_view(es: Seq<NodeVersion>) -> Seq<(SemVer, bool, Seq<char>)> {
    es.map_values(|e: NodeVersion| entry_key(e))
}

/// The build that one index record gives: it needs both a version and a
/// date text, and the version (after leading `v`s) must be a release; its
/// `lts` member marks LTS when it is `true` or a string (a line name).
pub open spec fn record_entry(rec: (Option<Seq<char>>, Option<Seq<char>>, Option<bool>, bool)) -> Option<
    (SemVer, bool, Seq<char>),
> {
    match (rec.0, rec.1) {
        (Some(t), Some(d)) => if exists|v: SemVer| release_text(v) == strip_start(t, Strip::LetterV) {
            Some(
                (
                    choose|v: SemVer| release_text(v) == strip_start(t, Strip::LetterV),
                    rec.2 == Some(true) || rec.3,
                    d,
                ),
            )
        } else {
            None
        },
        _ => None,
    }
}

/// The builds that a sequence of index records gives, in record order;
/// records that give none are skipped.
pub open spec fn kept(recs: Seq<(Option<Seq<char>>, Option<Seq<char>>, Option<bool>, bool)>) -> Seq<
    (SemVer, bool, Seq<char>),
>
    decreases recs.len(),
{
    if recs.len() == 0 {
        Seq::empty()
    } else {
        let k = kept(recs.drop_last());
        match record_entry(recs.last()) {
            Some(e) => k.push(e),
            None => k,
        }
    }
}

/// One record of the published index as a build, or `None` when it is skipped.
pub fn catalog_entry(version: Option<String>, date: Option<String>, lts_flag: Option<bool>, lts_is_string: bool) -> (r: Option<NodeVersion>)
    ensures
        match record_entry((opt_text(version), opt_text(date), lts_flag, lts_is_string)) {
            Some(k) => r matches Some(e) && entry_key(e) == k,
            None => r is None,
        },
{
    match (version, date) {
        (Some(t), Some(d)) => {
            let cleaned = trim_start(t.as_str(), Strip::LetterV);
            match parse_release(cleaned.as_str()) {
                Some(v) => {
                    proof {
                        assert(release_text(v) == strip_start(t@, Strip::LetterV));
                        let w = choose|w: SemVer| release_text(w) == strip_start(t@, Strip::LetterV);
                        lemma_release_text_injective(v, w);
                    }
                    let lts = match lts_flag {
                        Some(b) => b,
                        None => false,
                    } || lts_is_string;
                    Some(NodeVersion::new(v, lts, d))
                },
                None => None,
            }
        },
        _ => None,
    }
}

/// The same builds, newest first.
pub fn sort_newest_first(entries: Vec<NodeVersion>) -> (r: Vec<NodeVersion>)
    ensures
        newest_first(r@),
        r@.to_multiset() == entries@.to_multiset(),
        catalog_view(r@).to_multiset() == catalog_view(entries@).to_multiset(),
{
    let ghost all = entries@;
    let mut rest = entries;
    let mut out: Vec<NodeVersion> = Vec::new();
    while rest.len() > 0
        invariant
            newest_first(out@),
            out@.to_multiset().add(rest@.to_multiset()) == all.to_multiset(),
            catalog_view(out@).to_multiset().add(catalog_view(rest@).to_multiset()) == catalog_view(
                all,
            ).to_multiset(),
        decreases rest.len(),
    {
        let ghost before_rest = rest@;
        let x = rest.pop().unwrap();
        proof {
            assert(before_rest =~= rest@.push(x));
            assert(catalog_view(before_rest) =~= catalog_view(rest@).push(entry_key(x)));
        }
        let mut p: usize = 0;
        while p < out.len() && !version_lt(&out[p].version, &x.version)
            invariant
                p <= out.len(),
                forall|k: int| 0 <= k < p ==> semver_le(x.version, out@[k].version),
            decreases out.len() - p,
        {
            p = p + 1;
        }
        let ghost before = out@;
        out.insert(p, x);
        proof {
            let after = out@;
            assert(after =~= before.insert(p as int, x));
            assert(catalog_view(after) =~= catalog_view(before).insert(p as int, entry_key(x)));
            assert forall|i: int, j: int| 0 <= i < j < after.len() implies semver_le(
                after[j].version,
                after[i].version,
            ) by {
                if j < p {
                } else if j == p {
                } else if i < p {
                    assert(after[j] == before[j - 1]);
                    assert(semver_le(before[j - 1].version, before[p as int].version));
                } else if i == p {
                    assert(after[j] == before[j - 1]);
                    assert(semver_le(before[j - 1].version, before[p as int].version));
                } else {
                    assert(after[j] == before[j - 1]);
                    assert(after[i] == before[i - 1]);
                }
            }
        }
    }
    proof {
        assert(rest@.to_multiset() =~= vstd::multiset::Multiset::empty());
        assert(catalog_view(rest@).to_multiset() =~= vstd::multiset::Multiset::empty());
    }
    out
}

/// The published index (a JSON array of records) as a catalog, newest
/// first: one build per record that gives one, the others skipped. Fails
/// with `DownloadError` when the text is no JSON array.
pub fn parse_version_list(body: &str) -> (r: Result<Vec<NodeVersion>, NodeError>)
    ensures
        match index_records_of(body@) {
            None => r matches Err(e) && e is DownloadError,
            Some(recs) => r matches Ok(es) && newest_first(es@) && catalog_view(es@).to_multiset()
                == kept(recs).to_multiset(),
        },
{
    let records = match read_index(body) {
        Some(v) => v,
        None => {
            return Err(NodeError::DownloadError(String::from_str("Malformed version index")));
        },
    };
    let ghost recs = records_view(records@);
    let mut found: Vec<NodeVersion> = Vec::new();
    let mut i: usize = 0;
    proof {
        assert(recs.take(0) =~= Seq::empty());
        assert(catalog_view(found@) =~= Seq::empty());
    }
    while i < records.len()
        invariant
            i <= records.len(),
            recs == records_view(records@),
            catalog_view(found@) == kept(recs.take(i as int)),
        decreases records.len() - i,
    {
        let record = &records[i];
        let version = match &record.version {
            Some(t) => Some(t.clone()),
            None => None,
        };
        let date = match &record.date {
            Some(t) => Some(t.clone()),
            None => None,
        };
        proof {
            assert(recs.take(i + 1).drop_last() =~= recs.take(i as int));
            assert(recs.take(i + 1).last() == record_view(*record));
            assert(opt_text(version) == opt_text(record.version));
            assert(opt_text(date) == opt_text(record.date));
        }
        let ghost before = found@;
        match catalog_entry(version, date, record.lts_flag, record.lts_is_string) {
            Some(e) => {
                found.push(e);
                proof {
                    assert(catalog_view(found@) =~= catalog_view(before).push(entry_key(e)));
                }
            },
            None => {},
        }
        i = i + 1;
    }
    proof {
        assert(recs.take(records.len() as int) =~= recs);
    }
    Ok(sort_newest_first(found))
}

/// The newest LTS build of the catalog.
pub fn get_latest_lts(catalog: &Vec<NodeVersion>) -> (r: Result<NodeVersion, NodeError>)
    ensures
        match resolve_spec(SpecModel::Keyword(Keyword::Lts), catalog_keys(catalog@)) {
            Some(j) => r matches Ok(e) && same_build(e, catalog@[j]),
            None => r matches Err(e) && e is VersionNotFound,
        },
{
    resolve(&VersionSpec::Keyword(Keyword::Lts), catalog)
}

/// The newest build of the catalog.
pub fn get_latest(catalog: &Vec<NodeVersion>) -> (r: Result<NodeVersion, NodeError>)
    ensures
        match resolve_spec(SpecModel::Keyword(Keyword::Latest), catalog_keys(catalog@)) {
            Some(j) => r matches Ok(e) && same_build(e, catalog@[j]),
            None => r matches Err(e) && e is VersionNotFound,
        },
{
    resolve(&VersionSpec::Keyword(Keyword::Latest), catalog)
}

/// Resolves a literal version string (exact, constraint or bare major)
/// against the catalog.
pub fn resolve_version(version_spec: &str, catalog: &Vec<NodeVersion>) -> (r: Result<NodeVersion, NodeError>)
    ensures
        match classify_literal_spec(version_spec@) {
            None => r matches Err(e) && e is InvalidVersion,
            Some(m) => match resolve_spec(m, catalog_keys(catalog@)) {
                Some(j) => r matches Ok(e) && same_build(e, catalog@[j]),
                None => r matches Err(e) && e is VersionNotFound,
            },
        },
{
    match classify_literal(version_spec) {
        Ok(spec) => resolve(&spec, catalog),
        Err(e) => Err(e),
    }
}

/// Operating systems that builds are published for.
#[derive(Clone, Copy, Debug, PartialEq, Eq, Structural)]
pub enum Os {
    Windows,
    MacOs,
    Linux,
}

/// Processor architectures that builds are published for.
#[derive(Clone, Copy, Debug, PartialEq, Eq, Structural)]
pub enum Arch {
    X64,
    Arm64,
    X86,
}

pub open spec fn os_name(os: Os) -> Seq<char> {
    match os {
        Os::Windows => "win"@,
        Os::MacOs => "darwin"@,
        Os::Linux => "linux"@,
    }
}

pub open spec fn arch_name(arch: Arch) -> Seq<char> {
    match arch {
        Arch::X64 => "x64"@,
        Arch::Arm64 => "arm64"@,
        Arch::X86 => "x86"@,
    }
}

/// Windows builds come as zip archives, the others as gzipped tarballs.
pub open spec fn archive_ext(os: Os) -> Seq<char> {
    match os {
        Os::Windows => "zip"@,
        _ => "tar.gz"@,
    }
}

/// `node-v<version>-<os>-<arch>`: the archive's base name and the directory
/// it unpacks to.
pub open spec fn build_stem(v: SemVer, os: Os, arch: Arch) -> Seq<char> {
    "node-v"@ + release_text(v) + "-"@ + os_name(os) + "-"@ + arch_name(arch)
}

fn os_text(os: Os) -> (r: &'static str)
    ensures
        r@ == os_name(os),
{
    match os {
        Os::Windows => "win",
        Os::MacOs => "darwin",
        Os::Linux => "linux",
    }
}

fn arch_text(arch: Arch) -> (r: &'static str)
    ensures
        r@ == arch_name(arch),
{
    match arch {
        Arch::X64 => "x64",
        Arch::Arm64 => "arm64",
        Arch::X86 => "x86",
    }
}

fn ext_text(os: Os) -> (r: &'static str)
    ensures
        r@ == archive_ext(os),
{
    match os {
        Os::Windows => "zip",
        _ => "tar.gz",
    }
}

/// `node-v<version>-<os>-<arch>`.
pub fn build_name(version: &SemVer, os: Os, arch: Arch) -> (r: String)
    ensures
        r@ == build_stem(*version, os, arch),
{
    let mut r = String::from_str("node-v");
    let text = version.version_str();
    r.append(text.as_str());
    r.append("-");
    r.append(os_text(os));
    r.append("-");
    r.append(arch_text(arch));
    proof {
        assert(r@ =~= build_stem(*version, os, arch));
    }
    r
}

/// `node-v<version>-<os>-<arch>.<ext>`, the archive's file name.
pub fn archive_name(version: &SemVer, os: Os, arch: Arch) -> (r: String)
    ensures
        r@ == build_stem(*version, os, arch) + "."@ + archive_ext(os),
{
    let mut r = build_name(version, os, arch);
    r.append(".");
    r.append(ext_text(os));
    r
}

/// Where the archive of `version` for `os` and `arch` is published.
pub fn get_download_url(version: &NodeVersion, os: Os, arch: Arch) -> (r: String)
    ensures
        r@ == NODE_DIST_URL@ + "/v"@ + release_text(version.version) + "/"@ + build_stem(
            version.version,
            os,
            arch,
        ) + "."@ + archive_ext(os),
{
    let mut r = String::from_str(NODE_DIST_URL);
    r.append("/v");
    let text = version.version_str();
    r.append(text.as_str());
    r.append("/");
    let name = archive_name(&version.version, os, arch);
    r.append(name.as_str());
    proof {
        assert(r@ =~= NODE_DIST_URL@ + "/v"@ + release_text(version.version) + "/"@ + build_stem(
            version.version,
            os,
            arch,
        ) + "."@ + archive_ext(os));
    }
    r
}

/// The URL of the published index.
pub fn index_url() -> (r: String)
    ensures
        r@ == NODE_DIST_URL@ + "/index.json"@,
{
    let mut r = String::from_str(NODE_DIST_URL);
    r.append("/index.json");
    r
}

} // verus!
