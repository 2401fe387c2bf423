//! The installed set and the activation pointer.
use vstd::prelude::*;
use crate::config::alias::AliasConfig;
use crate::errors::NodeError;
use crate::version::{
    NodeVersion, catalog_keys, classify, classify_spec, resolve,
    resolve_spec, lemma_resolve_spec,
};
use crate::version::text::{SemVer, release_text, semver_lt, parse_release, version_lt};

verus! {

/// `<base>/versions`, under which each installed version has a directory.
pub fn get_versions_dir(base: &str) -> (r: String)
    ensures
        r@ == base@ + "/versions"@,
{
    let mut r = String::from_str(base);
    r.append("/versions");
    r
}

/// `<base>/versions/<version>`, the directory of one installed version.
pub fn version_dir(base: &str, version: &SemVer) -> (r: String)
    ensures
        r@ == base@ + "/versions/"@ + release_text(*version),
{
    let mut r = get_versions_dir(base);
    r.append("/");
    let name = version.version_str();
    r.append(name.as_str());
    proof {
        reveal_strlit("/versions");
        reveal_strlit("/");
        reveal_strlit("/versions/");
        assert(r@ =~= base@ + "/versions/"@ + release_text(*version));
    }
    r
}

/// Newest first, no version twice.
pub open spec fn strictly_descending(s: Seq<SemVer>) -> bool {
    forall|i: int, j: int| 0 <= i < j < s.len() ==> semver_lt(s[j], s[i])
}

/// The versions present on disk, newest first.
pub struct InstalledSet {
    versions: Vec<SemVer>,
}

impl View for InstalledSet {
    type V = Seq<SemVer>;

    closed spec fn view(&self) -> Seq<SemVer> {
        self.versions@
    }
}

impl InstalledSet {
    /// Newest first, each version once.
    pub open spec fn wf(&self) -> bool {
        strictly_descending(self@)
    }

    /// The installed set that a listing of the versions directory gives: each
    /// name that is a release version's canonical text counts; anything else
    /// (`downloads`, dot-prefixed names, malformed names) is left out.
    pub fn from_dir_names(names: &Vec<String>) -> (r: InstalledSet)
        ensures
            r.wf(),
            strictly_descending(r@),
            forall|v: SemVer| #[trigger] r@.contains(v) <==> exists|i: int|
                0 <= i < names@.len() && names@[i]@ == release_text(v),
    {
        let mut r = InstalledSet { versions: Vec::new() };
        let mut i: usize = 0;
        while i < names.len()
            invariant
                i <= names.len(),
                r.wf(),
                forall|v: SemVer| #[trigger] r@.contains(v) <==> exists|k: int|
                    0 <= k < i && names@[k]@ == release_text(v),
            decreases names.len() - i,
        {
            match parse_release(names[i].as_str()) {
                Some(v) => {
                    r.insert(v);
                },
                None => {},
            }
            proof {
                assert forall|v: SemVer| #[trigger] r@.contains(v) <==> exists|k: int|
                    0 <= k < i + 1 && names@[k]@ == release_text(v) by {
                    if names@[i as int]@ == release_text(v) {
                        assert(exists|k: int| 0 <= k < i + 1 && names@[k]@ == release_text(v));
                    }
                    if exists|k: int| 0 <= k < i + 1 && names@[k]@ == release_text(v) {
                        let k = choose|k: int| 0 <= k < i + 1 && names@[k]@ == release_text(v);
                        if k < i {
                            assert(exists|k2: int| 0 <= k2 < i && names@[k2]@ == release_text(v));
                        }
                    }
                }
            }
            i = i + 1;
        }
        r
    }

    /// Adds `v` at its place in the order; no change when it is there already.
    fn insert(&mut self, v: SemVer)
        requires
            old(self).wf(),
        ensures
            final(self).wf(),
            forall|x: SemVer| #[trigger] final(self)@.contains(x) <==> (old(self)@.contains(x) || x
                == v),
    {
        let mut p: usize = 0;
        while p < self.versions.len() && version_lt(&v, &self.versions[p])
            invariant
                p <= self.versions.len(),
                self.wf(),
                forall|k: int| 0 <= k < p ==> semver_lt(v, self.versions@[k]),
            decreases self.versions.len() - p,
        {
            p = p + 1;
        }
        if p < self.versions.len() && self.versions[p] == v {
            return;
        }
        let ghost before = self.versions@;
        self.versions.insert(p, v);
        proof {
            let after = self.versions@;
            assert(after =~= before.insert(p as int, v));
            assert forall|i: int, j: int| 0 <= i < j < after.len() implies semver_lt(
                after[j],
                after[i],
            ) by {
                if j < p {
                } else if j == p {
                } else if i < p {
                    assert(after[j] == before[j - 1]);
                    if p < before.len() {
                        assert(semver_lt(before[j - 1], before[p as int]) || j - 1 == p);
                    }
                } else if i == p {
                    assert(after[j] == before[j - 1]);
                    assert(semver_lt(before[j - 1], before[p as int]) || j - 1 == p);
                } else {
                    assert(after[j] == before[j - 1]);
                    assert(after[i] == before[i - 1]);
                }
            }
            assert forall|x: SemVer| #[trigger] after.contains(x) <==> (before.contains(x) || x
                == v) by {
                if after.contains(x) {
                    let k = choose|k: int| 0 <= k < after.len() && after[k] == x;
                    if k < p {
                        assert(before[k] == x);
                    } else if k > p {
                        assert(before[k - 1] == x);
                    }
                }
                if before.contains(x) {
                    let k = choose|k: int| 0 <= k < before.len() && before[k] == x;
                    if k < p {
                        assert(after[k] == x);
                    } else {
                        assert(after[k + 1] == x);
                    }
                }
                if x == v {
                    assert(after[p as int] == x);
                }
            }
        }
    }

    /// Where `v` stands in the set.
    fn position(&self, v: &SemVer) -> (r: Option<usize>)
        ensures
            r matches Some(i) ==> i < self@.len() && self@[i as int] == *v,
            r is None ==> !self@.contains(*v),
    {
        let mut i: usize = 0;
        while i < self.versions.len()
            invariant
                i <= self.versions.len(),
                forall|k: int| 0 <= k < i ==> self.versions@[k] != *v,
            decreases self.versions.len() - i,
        {
            if self.versions[i] == *v {
                return Some(i);
            }
            i = i + 1;
        }
        None
    }

    /// Takes `v` out of the set.
    fn delete(&mut self, i: usize)
        requires
            old(self).wf(),
            i < old(self)@.len(),
        ensures
            final(self).wf(),
            forall|x: SemVer| #[trigger] final(self)@.contains(x) <==> (old(self)@.contains(x) && x
                != old(self)@[i as int]),
    {
        let ghost before = self.versions@;
        self.versions.remove(i);
        proof {
            let after = self.versions@;
            assert(after =~= before.remove(i as int));
            assert forall|a: int, b: int| 0 <= a < b < after.len() implies semver_lt(
                after[b],
                after[a],
            ) by {
                let a0 = if a < i { a } else { a + 1 };
                let b0 = if b < i { b } else { b + 1 };
                assert(after[a] == before[a0]);
                assert(after[b] == before[b0]);
            }
            assert forall|x: SemVer| #[trigger] after.contains(x) <==> (before.contains(x) && x
                != before[i as int]) by {
                if after.contains(x) {
                    let k = choose|k: int| 0 <= k < after.len() && after[k] == x;
                    let k0 = if k < i { k } else { k + 1 };
                    assert(before[k0] == x);
                    if k0 < i {
                        assert(semver_lt(before[i as int], before[k0]));
                    } else {
                        assert(semver_lt(before[k0], before[i as int]));
                    }
                }
                if before.contains(x) && x != before[i as int] {
                    let k = choose|k: int| 0 <= k < before.len() && before[k] == x;
                    if k < i {
                        assert(after[k] == x);
                    } else {
                        assert(after[k - 1] == x);
                    }
                }
            }
        }
    }

    /// The installed versions as resolution entries (no LTS information locally).
    pub fn entries(&self) -> (r: Vec<NodeVersion>)
        ensures
            catalog_keys(r@) == local_keys(self@),
    {
        let mut r: Vec<NodeVersion> = Vec::new();
        let mut i: usize = 0;
        while i < self.versions.len()
            invariant
                i <= self.versions.len(),
                r@.len() == i,
                forall|k: int| 0 <= k < i ==> r@[k].version == self.versions@[k] && !r@[k].lts,
            decreases self.versions.len() - i,
        {
            r.push(NodeVersion::new(self.versions[i], false, String::new()));
            i = i + 1;
        }
        assert(catalog_keys(r@) =~= local_keys(self@));
        r
    }
}

/// Installed versions as resolution keys: no local version is flagged LTS.
pub open spec fn local_keys(vs: Seq<SemVer>) -> Seq<(SemVer, bool)> {
    vs.map_values(|v: SemVer| (v, false))
}

/// Whether `version` is the canonical text of an installed version.
pub fn is_installed(installed: &InstalledSet, version: &str) -> (r: bool)
    ensures
        r == exists|v: SemVer| installed@.contains(v) && release_text(v) == version@,
{
    match parse_release(version) {
        Some(v) => {
            let found = installed.position(&v);
            proof {
                assert(release_text(v) == version@);
                if found is Some {
                    assert(installed@.contains(v));
                }
            }
            found.is_some()
        },
        None => false,
    }
}

/// Whether no version is installed.
pub fn is_empty(installed: &InstalledSet) -> (r: bool)
    ensures
        r == (installed@.len() == 0),
{
    installed.versions.len() == 0
}

/// One installed version as listed: its directory and whether it is active.
pub struct LocalVersion {
    pub version: SemVer,
    pub path: String,
    pub is_current: bool,
}

impl LocalVersion {
    /// Canonical text of the version.
    pub fn version_str(&self) -> (r: String)
        ensures
            r@ == release_text(self.version),
    {
        self.version.version_str()
    }
}

/// The installed versions, newest first, each with its directory under
/// `base` and whether the activation pointer references it.
pub fn get_installed_versions(installed: &InstalledSet, base: &str, current: Option<SemVer>) -> (r:
    Vec<LocalVersion>)
    requires
        installed.wf(),
    ensures
        r@.len() == installed@.len(),
        forall|i: int, j: int|
            0 <= i < j < r@.len() ==> semver_lt(r@[j].version, r@[i].version),
        forall|i: int, j: int|
            0 <= i < j < r@.len() ==> !(r@[i].is_current && r@[j].is_current),
        forall|k: int|
            0 <= k < r@.len() ==> {
                &&& (#[trigger] r@[k]).version == installed@[k]
                &&& r@[k].is_current == (current == Some(installed@[k]))
                &&& r@[k].path@ == base@ + "/versions/"@ + release_text(installed@[k])
            },
{
    let mut r: Vec<LocalVersion> = Vec::new();
    let mut i: usize = 0;
    while i < installed.versions.len()
        invariant
            i <= installed.versions.len(),
            r@.len() == i,
            forall|k: int|
                0 <= k < i ==> {
                    &&& (#[trigger] r@[k]).version == installed@[k]
                    &&& r@[k].is_current == (current == Some(installed@[k]))
                    &&& r@[k].path@ == base@ + "/versions/"@ + release_text(installed@[k])
                },
        decreases installed.versions.len() - i,
    {
        let v = installed.versions[i];
        let is_current = match current {
            Some(c) => c == v,
            None => false,
        };
        let path = version_dir(base, &v);
        let ghost before = r@;
        r.push(LocalVersion { version: v, path, is_current });
        proof {
            assert forall|k: int| 0 <= k < i implies r@[k] == before[k] by {}
        }
        i = i + 1;
    }
    proof {
        assert forall|a: int, b: int| 0 <= a < b < r@.len() implies !(r@[a].is_current
            && r@[b].is_current) by {
            assert(r@[a].version == installed@[a]);
            assert(r@[b].version == installed@[b]);
            assert(semver_lt(installed@[b], installed@[a]));
        }
    }
    r
}

/// The persisted activation state: the installed set and the version the
/// pointer references, if any.
pub struct ActivationState {
    pub installed: Set<SemVer>,
    pub current: Option<SemVer>,
}

/// The pointer is unset or references an installed version.
pub open spec fn consistent(s: ActivationState) -> bool {
    s.current matches Some(v) ==> s.installed.contains(v)
}

/// What a successful switch did.
#[derive(Clone, Copy, Debug, PartialEq, Eq, Structural)]
pub enum SwitchOutcome {
    /// The target was active already; nothing was changed.
    AlreadyActive,
    /// The pointer now references the target.
    Switched,
}

/// What an uninstall request comes to.
pub enum UninstallStep {
    Removed,
    NotInstalled,
    Active,
}

/// `switch(target)`: refused (`None`) unless the target is installed; a no-op
/// when it is active already; otherwise the pointer moves to it.
pub open spec fn switch_spec(s: ActivationState, target: SemVer) -> (ActivationState, Option<
    SwitchOutcome,
>) {
    if !s.installed.contains(target) {
        (s, None)
    } else if s.current == Some(target) {
        (s, Some(SwitchOutcome::AlreadyActive))
    } else {
        (ActivationState { installed: s.installed, current: Some(target) }, Some(SwitchOutcome::Switched))
    }
}

/// `uninstall(v)`: refused unless `v` is installed, refused while `v` is
/// active; otherwise `v` leaves the installed set.
pub open spec fn uninstall_spec(s: ActivationState, v: SemVer) -> (ActivationState, UninstallStep) {
    if !s.installed.contains(v) {
        (s, UninstallStep::NotInstalled)
    } else if s.current == Some(v) {
        (s, UninstallStep::Active)
    } else {
        (ActivationState { installed: s.installed.remove(v), current: s.current }, UninstallStep::Removed)
    }
}

/// A request to the activation state machine.
pub enum ActivationOp {
    Switch(SemVer),
    Uninstall(SemVer),
}

/// The state after performing `ops` in order from `s`.
pub open spec fn run_ops(s: ActivationState, ops: Seq<ActivationOp>) -> ActivationState
    decreases ops.len(),
{
    if ops.len() == 0 {
        s
    } else {
        let prev = run_ops(s, ops.drop_last());
        match ops.last() {
            ActivationOp::Switch(t) => switch_spec(prev, t).0,
            ActivationOp::Uninstall(v) => uninstall_spec(prev, v).0,
        }
    }
}

/// Switching to the same version twice: the pointer references it after both
/// calls, and the second call reports it already active and changes nothing.
pub proof fn lemma_switch_twice(s: ActivationState, v: SemVer)
    requires
        s.installed.contains(v),
    ensures
        switch_spec(s, v).0.current == Some(v),
        switch_spec(switch_spec(s, v).0, v).0 == switch_spec(s, v).0,
        switch_spec(switch_spec(s, v).0, v).1 == Some(SwitchOutcome::AlreadyActive),
{
}

/// After any sequence of switches and uninstalls, the pointer is unset or
/// references an installed version.
pub proof fn lemma_pointer_never_dangles(s: ActivationState, ops: Seq<ActivationOp>)
    requires
        consistent(s),
    ensures
        consistent(run_ops(s, ops)),
    decreases ops.len(),
{
    if ops.len() > 0 {
        lemma_pointer_never_dangles(s, ops.drop_last());
    }
}

/// Uninstalling the active version fails and leaves the installed set as it was.
pub proof fn lemma_active_is_guarded(s: ActivationState, v: SemVer)
    requires
        s.current == Some(v),
    ensures
        uninstall_spec(s, v).1 !is Removed,
        uninstall_spec(s, v).0.installed == s.installed,
{
}

/// The installed set together with the version the pointer references.
pub struct Activation {
    installed: InstalledSet,
    current: Option<SemVer>,
}

impl View for Activation {
    type V = ActivationState;

    closed spec fn view(&self) -> ActivationState {
        ActivationState {
            installed: self.installed@.to_set(),
            current: self.current,
        }
    }
}

impl Activation {
    pub closed spec fn wf(&self) -> bool {
        &&& self.installed.wf()
        &&& consistent(self@)
    }

    /// The installed set, newest first.
    pub closed spec fn listing(&self) -> Seq<SemVer> {
        self.installed@
    }

    /// The state found on disk. `pointer` is the name of the directory that
    /// the pointer references; one that is not an installed version counts as
    /// no pointer.
    pub fn new(installed: InstalledSet, pointer: Option<&str>) -> (r: Activation)
        requires
            installed.wf(),
        ensures
            r.wf(),
            r.listing() == installed@,
            r@.installed == installed@.to_set(),
            match r@.current {
                Some(v) => pointer matches Some(p) && p@ == release_text(v),
                None => !(pointer matches Some(p) && exists|v: SemVer|
                    installed@.contains(v) && release_text(v) == p@),
            },
    {
        let current = match pointer {
            Some(p) => match parse_release(p) {
                Some(v) => match installed.position(&v) {
                    Some(_) => Some(v),
                    None => None,
                },
                None => None,
            },
            None => None,
        };
        Activation { installed, current }
    }

    /// The installed set.
    pub fn installed(&self) -> (r: &InstalledSet)
        requires
            self.wf(),
        ensures
            r@ == self.listing(),
            r.wf(),
            r@.to_set() == self@.installed,
    {
        &self.installed
    }

    /// A well-formed state lists its installed set newest first, each version
    /// once, and the pointer is unset or references one of them.
    pub proof fn lemma_listing(&self)
        requires
            self.wf(),
        ensures
            strictly_descending(self.listing()),
            self.listing().to_set() == self@.installed,
            consistent(self@),
    {
    }

    /// The active version, if any.
    pub fn current(&self) -> (r: Option<SemVer>)
        ensures
            r == self@.current,
    {
        self.current
    }
}

/// The canonical text of the active version, if any.
pub fn get_current_version(state: &Activation) -> (r: Option<String>)
    ensures
        r is Some == state@.current is Some,
        r matches Some(t) ==> t@ == release_text(state@.current.unwrap()),
{
    match state.current {
        Some(v) => Some(v.version_str()),
        None => None,
    }
}

/// `switch` on the version whose canonical text is `version`. On `Switched`
/// the caller repoints the link at that version's directory; on
/// `AlreadyActive` it touches nothing.
pub fn use_version(state: &mut Activation, version: &str) -> (r: Result<SwitchOutcome, NodeError>)
    requires
        old(state).wf(),
    ensures
        final(state).wf(),
        final(state).listing() == old(state).listing(),
        forall|v: SemVer|
            release_text(v) == version@ ==> {
                &&& final(state)@ == switch_spec(old(state)@, v).0
                &&& match switch_spec(old(state)@, v).1 {
                    Some(o) => r == Ok::<SwitchOutcome, NodeError>(o),
                    None => r matches Err(e) && e is VersionNotInstalled,
                }
            },
        (forall|v: SemVer| release_text(v) != version@) ==> (final(state)@ == old(state)@ && (
        r matches Err(e) && e is VersionNotInstalled)),
{
    match parse_release(version) {
        Some(v) => {
            proof {
                assert(release_text(v) == version@);
                assert forall|w: SemVer| release_text(w) == version@ implies w == v by {
                    crate::version::text::lemma_release_text_injective(w, v);
                }
            }
            match state.installed.position(&v) {
                None => {
                    proof {
                        assert(!state@.installed.contains(v));
                    }
                    Err(NodeError::VersionNotInstalled(not_installed_message(version)))
                },
                Some(_) => {
                    proof {
                        assert(state@.installed.contains(v));
                    }
                    if state.current == Some(v) {
                        Ok(SwitchOutcome::AlreadyActive)
                    } else {
                        state.current = Some(v);
                        Ok(SwitchOutcome::Switched)
                    }
                },
            }
        },
        None => Err(NodeError::VersionNotInstalled(not_installed_message(version))),
    }
}

fn not_installed_message(version: &str) -> (r: String) {
    let mut msg = String::from_str("Version ");
    msg.append(version);
    msg.append(" is not installed.");
    msg
}

/// `uninstall` of the version whose canonical text is `version`. On `Ok` the
/// caller removes that version's directory.
pub fn remove_version(state: &mut Activation, version: &str) -> (r: Result<(), NodeError>)
    requires
        old(state).wf(),
    ensures
        final(state).wf(),
        forall|x: SemVer| #[trigger] final(state).listing().contains(x) <==> final(state)@.installed.contains(x),
        forall|v: SemVer|
            release_text(v) == version@ ==> {
                &&& final(state)@ == uninstall_spec(old(state)@, v).0
                &&& match uninstall_spec(old(state)@, v).1 {
                    UninstallStep::Removed => r is Ok,
                    _ => r matches Err(e) && e is VersionNotInstalled,
                }
            },
        (forall|v: SemVer| release_text(v) != version@) ==> (final(state)@ == old(state)@ && (
        r matches Err(e) && e is VersionNotInstalled)),
{
    match parse_release(version) {
        Some(v) => {
            proof {
                assert(release_text(v) == version@);
                assert forall|w: SemVer| release_text(w) == version@ implies w == v by {
                    crate::version::text::lemma_release_text_injective(w, v);
                }
            }
            match state.installed.position(&v) {
                None => {
                    proof {
                        assert(!state@.installed.contains(v));
                    }
                    Err(NodeError::VersionNotInstalled(not_installed_message(version)))
                },
                Some(i) => {
                    proof {
                        assert(state@.installed.contains(v));
                    }
                    if state.current == Some(v) {
                        Err(
                            NodeError::VersionNotInstalled(
                                String::from_str(
                                    "Cannot remove the currently active version. Switch to a different version first.",
                                ),
                            ),
                        )
                    } else {
                        let ghost before = state@;
                        state.installed.delete(i);
                        proof {
                            assert(state@.installed =~= before.installed.remove(v));
                        }
                        Ok(())
                    }
                },
            }
        },
        None => Err(NodeError::VersionNotInstalled(not_installed_message(version))),
    }
}

/// Resolves `raw` against the installed set (local scope) and switches to
/// the result; returns the version and what the switch did.
pub fn use_node_version(raw: &str, aliases: &AliasConfig, state: &mut Activation) -> (r: Result<
    (SemVer, SwitchOutcome),
    NodeError,
>)
    requires
        old(state).wf(),
        aliases.wf(),
    ensures
        final(state).wf(),
        final(state).listing() == old(state).listing(),
        match classify_spec(raw@, aliases@) {
            None => final(state)@ == old(state)@ && (r matches Err(e) && e is InvalidVersion),
            Some(m) => match resolve_spec(m, local_keys(old(state).listing())) {
                None => final(state)@ == old(state)@ && (r matches Err(e) && e is VersionNotFound),
                Some(j) => {
                    let v = old(state).listing()[j];
                    &&& final(state)@ == switch_spec(old(state)@, v).0
                    &&& switch_spec(old(state)@, v).1 matches Some(o) && r == Ok::<
                        (SemVer, SwitchOutcome),
                        NodeError,
                    >((v, o))
                },
            },
        },
{
    let spec = match classify(raw, aliases) {
        Ok(s) => s,
        Err(e) => return Err(e),
    };
    let entries = state.installed.entries();
    let found = match resolve(&spec, &entries) {
        Ok(e) => e,
        Err(e) => return Err(e),
    };
    proof {
        lemma_resolve_spec(spec@, local_keys(state.listing()));
        let j = resolve_spec(spec@, local_keys(state.listing())).unwrap();
        assert(catalog_keys(entries@)[j] == (entries@[j].version, entries@[j].lts));
        assert(local_keys(state.listing())[j] == (state.listing()[j], false));
        assert(found.version == state.listing()[j]);
        assert(state@.installed.contains(found.version));
    }
    let text = found.version_str();
    match use_version(state, text.as_str()) {
        Ok(o) => Ok((found.version, o)),
        Err(e) => Err(e),
    }
}

} // verus!
