//! Release versions (`major.minor.patch`) and their canonical text.
use vstd::prelude::*;

verus! {

/// A release version: three numeric components, no pre-release or build part.
#[derive(Clone, Copy, Debug, PartialEq, Eq, Structural)]
pub struct SemVer {
    pub major: u64,
    pub minor: u64,
    pub patch: u64,
}

/// The decimal digit character for `d < 10`.
pub open spec fn digit_char(d: nat) -> char {
    if d == 0 {
        '0'
    } else if d == 1 {
        '1'
    } else if d == 2 {
        '2'
    } else if d == 3 {
        '3'
    } else if d == 4 {
        '4'
    } else if d == 5 {
        '5'
    } else if d == 6 {
        '6'
    } else if d == 7 {
        '7'
    } else if d == 8 {
        '8'
    } else {
        '9'
    }
}

/// Canonical decimal text of a natural number: no sign, no leading zero.
pub open spec fn decimal(n: nat) -> Seq<char>
    decreases n,
{
    if n < 10 {
        seq![digit_char(n)]
    } else {
        decimal(n / 10).push(digit_char(n % 10))
    }
}

/// Canonical text of a release version, `major.minor.patch`.
pub open spec fn release_text(v: SemVer) -> Seq<char> {
    decimal(v.major as nat) + seq!['.'] + decimal(v.minor as nat) + seq!['.'] + decimal(
        v.patch as nat,
    )
}

/// Strict semantic-version order: major, then minor, then patch.
pub open spec fn semver_lt(a: SemVer, b: SemVer) -> bool {
    ||| a.major < b.major
    ||| a.major == b.major && a.minor < b.minor
    ||| a.major == b.major && a.minor == b.minor && a.patch < b.patch
}

pub open spec fn semver_le(a: SemVer, b: SemVer) -> bool {
    semver_lt(a, b) || a == b
}

/// `a < b` in semantic-version order.
pub fn version_lt(a: &SemVer, b: &SemVer) -> (r: bool)
    ensures
        r == semver_lt(*a, *b),
{
    if a.major != b.major {
        a.major < b.major
    } else if a.minor != b.minor {
        a.minor < b.minor
    } else {
        a.patch < b.patch
    }
}

fn digit_text(d: u64) -> (r: String)
    requires
        d < 10,
    ensures
        r@ == seq![digit_char(d as nat)],
{
    let s: &str = if d == 0 {
        "0"
    } else if d == 1 {
        "1"
    } else if d == 2 {
        "2"
    } else if d == 3 {
        "3"
    } else if d == 4 {
        "4"
    } else if d == 5 {
        "5"
    } else if d == 6 {
        "6"
    } else if d == 7 {
        "7"
    } else if d == 8 {
        "8"
    } else {
        "9"
    };
    proof {
        reveal_strlit("0");
        reveal_strlit("1");
        reveal_strlit("2");
        reveal_strlit("3");
        reveal_strlit("4");
        reveal_strlit("5");
        reveal_strlit("6");
        reveal_strlit("7");
        reveal_strlit("8");
        reveal_strlit("9");
    }
    let r = String::from_str(s);
    assert(r@ =~= seq![digit_char(d as nat)]);
    r
}

/// Canonical decimal text of `n`.
pub fn decimal_text(n: u64) -> (r: String)
    ensures
        r@ == decimal(n as nat),
    decreases n,
{
    if n < 10 {
        digit_text(n)
    } else {
        let mut r = decimal_text(n / 10);
        let d = digit_text(n % 10);
        r.append(d.as_str());
        assert(r@ =~= decimal(n as nat));
        r
    }
}

impl SemVer {
    /// Canonical text, e.g. `20.9.0`.
    pub fn version_str(&self) -> (r: String)
        ensures
            r@ == release_text(*self),
    {
        let mut r = decimal_text(self.major);
        r.append(".");
        let mi = decimal_text(self.minor);
        r.append(mi.as_str());
        r.append(".");
        let pa = decimal_text(self.patch);
        r.append(pa.as_str());
        proof {
            reveal_strlit(".");
        }
        assert(r@ =~= release_text(*self));
        r
    }
}


/// Every character of a decimal text is an ASCII digit.
pub proof fn lemma_decimal_digits(n: nat)
    ensures
        decimal(n).len() >= 1,
        n >= 10 ==> decimal(n).len() >= 2,
        forall|i: int| 0 <= i < decimal(n).len() ==> '0' <= #[trigger] decimal(n)[i] <= '9',
    decreases n,
{
    if n >= 10 {
        lemma_decimal_digits(n / 10);
    }
}

/// Distinct numbers have distinct decimal texts.
pub proof fn lemma_decimal_injective(a: nat, b: nat)
    requires
        decimal(a) == decimal(b),
    ensures
        a == b,
    decreases a,
{
    lemma_decimal_digits(a);
    lemma_decimal_digits(b);
    if a >= 10 && b >= 10 {
        let da = decimal(a);
        let db = decimal(b);
        assert(da.last() == db.last());
        assert(da.drop_last() =~= decimal(a / 10));
        assert(db.drop_last() =~= decimal(b / 10));
        lemma_decimal_injective(a / 10, b / 10);
        assert(digit_char(a % 10) == digit_char(b % 10));
        assert(a % 10 == b % 10);
        assert(a == 10 * (a / 10) + a % 10);
        assert(b == 10 * (b / 10) + b % 10);
    } else if a < 10 && b < 10 {
        assert(decimal(a) == seq![digit_char(a)]);
        assert(decimal(b) == seq![digit_char(b)]);
        assert(seq![digit_char(a)][0] == digit_char(a));
        assert(seq![digit_char(b)][0] == digit_char(b));
        assert(decimal(a)[0] == decimal(b)[0]);
    } else {
        assert(decimal(a).len() != decimal(b).len());
    }
}

/// No character of `s` is a dot.
pub open spec fn dot_free(s: Seq<char>) -> bool {
    forall|i: int| 0 <= i < s.len() ==> s[i] != '.'
}

/// A decimal text holds no dot.
pub proof fn lemma_decimal_dot_free(n: nat)
    ensures
        dot_free(decimal(n)),
{
    lemma_decimal_digits(n);
}

/// Two texts that each start with a dot-free part and a dot agree in both parts.
pub proof fn lemma_split_at_dot(x1: Seq<char>, y1: Seq<char>, x2: Seq<char>, y2: Seq<char>)
    requires
        dot_free(x1),
        dot_free(x2),
        x1 + seq!['.'] + y1 == x2 + seq!['.'] + y2,
    ensures
        x1 == x2,
        y1 == y2,
{
    let s1 = x1 + seq!['.'] + y1;
    let s2 = x2 + seq!['.'] + y2;
    if x1.len() < x2.len() {
        assert(s1[x1.len() as int] == '.');
        assert(s2[x1.len() as int] == x2[x1.len() as int]);
    } else if x2.len() < x1.len() {
        assert(s2[x2.len() as int] == '.');
        assert(s1[x2.len() as int] == x1[x2.len() as int]);
    } else {
        assert(x1 =~= s1.subrange(0, x1.len() as int));
        assert(x2 =~= s2.subrange(0, x2.len() as int));
        assert(y1 =~= s1.subrange(x1.len() as int + 1, s1.len() as int));
        assert(y2 =~= s2.subrange(x2.len() as int + 1, s2.len() as int));
    }
}

/// Distinct release versions have distinct canonical texts.
pub proof fn lemma_release_text_injective(a: SemVer, b: SemVer)
    requires
        release_text(a) == release_text(b),
    ensures
        a == b,
{
    let ra = decimal(a.minor as nat) + seq!['.'] + decimal(a.patch as nat);
    let rb = decimal(b.minor as nat) + seq!['.'] + decimal(b.patch as nat);
    assert(release_text(a) =~= decimal(a.major as nat) + seq!['.'] + ra);
    assert(release_text(b) =~= decimal(b.major as nat) + seq!['.'] + rb);
    lemma_decimal_dot_free(a.major as nat);
    lemma_decimal_dot_free(b.major as nat);
    lemma_decimal_dot_free(a.minor as nat);
    lemma_decimal_dot_free(b.minor as nat);
    lemma_split_at_dot(decimal(a.major as nat), ra, decimal(b.major as nat), rb);
    lemma_decimal_injective(a.major as nat, b.major as nat);
    lemma_split_at_dot(decimal(a.minor as nat), decimal(a.patch as nat), decimal(b.minor as nat), decimal(b.patch as nat));
    lemma_decimal_injective(a.minor as nat, b.minor as nat);
    lemma_decimal_injective(a.patch as nat, b.patch as nat);
}


/// The parts that `semver::Version::parse` found in a text.
pub struct ParsedVersion {
    pub major: u64,
    pub minor: u64,
    pub patch: u64,
    pub pre: String,
    pub build: String,
}

/// `p` is release `v`: the same numbers, no pre-release, no build metadata.
pub open spec fn parsed_as_release(p: Option<ParsedVersion>, v: SemVer) -> bool {
    p matches Some(q) && q.major == v.major && q.minor == v.minor && q.patch == v.patch
        && q.pre@.len() == 0 && q.build@.len() == 0
}

/// Relies on `semver::Version::parse`: it accepts exactly three dot-separated
/// numeric components, each without a leading zero and within `u64`, followed
/// by an optional non-empty `-pre-release` and an optional non-empty `+build`.
/// So a text without those two parts is a release version's canonical text.
#[verifier::external_body]
fn parse_semver(text: &str) -> (r: Option<ParsedVersion>)
    ensures
        forall|v: SemVer| #[trigger] release_text(v) == text@ ==> parsed_as_release(r, v),
        forall|v: SemVer| parsed_as_release(r, v) ==> text@ == #[trigger] release_text(v),
{
    match semver::Version::parse(text) {
        Ok(v) => Some(
            ParsedVersion {
                major: v.major,
                minor: v.minor,
                patch: v.patch,
                pre: v.pre.as_str().to_string(),
                build: v.build.as_str().to_string(),
            },
        ),
        Err(_) => None,
    }
}

/// The release version whose canonical text is `text`, if there is one.
/// Pre-release and build-tagged versions are not release versions.
pub fn parse_release(text: &str) -> (r: Option<SemVer>)
    ensures
        forall|v: SemVer| (r == Some(v)) == (text@ == release_text(v)),
{
    match parse_semver(text) {
        Some(p) => {
            if p.pre.as_str().is_empty() && p.build.as_str().is_empty() {
                Some(SemVer { major: p.major, minor: p.minor, patch: p.patch })
            } else {
                None
            }
        },
        None => None,
    }
}

#[verifier::external_type_specification]
#[verifier::external_body]
pub struct ExVersionReq(semver::VersionReq);

/// Whether `semver::VersionReq::parse` accepts the text.
pub uninterp spec fn requirement_parses(text: Seq<char>) -> bool;

/// Whether the requirement parsed from `text` admits release `major.minor.patch`.
pub uninterp spec fn requirement_admits(text: Seq<char>, major: u64, minor: u64, patch: u64) -> bool;

/// A version constraint such as `^14.2.0` or `>=12.0.0`, kept with its text.
pub struct Requirement {
    text: String,
    req: semver::VersionReq,
}

impl View for Requirement {
    type V = Seq<char>;

    closed spec fn view(&self) -> Seq<char> {
        self.text@
    }
}

impl Requirement {
    /// Relies on `semver::VersionReq::parse`; the text is kept beside the parsed form.
    #[verifier::external_body]
    pub(crate) fn parse(text: &str) -> (r: Option<Requirement>)
        ensures
            r.is_some() == requirement_parses(text@),
            r matches Some(q) ==> q@ == text@,
    {
        match semver::VersionReq::parse(text) {
            Ok(req) => Some(Requirement { text: text.to_string(), req }),
            Err(_) => None,
        }
    }

    /// Relies on `semver::VersionReq::matches`, on the release `v`.
    #[verifier::external_body]
    pub(crate) fn matches(&self, v: &SemVer) -> (r: bool)
        ensures
            r == requirement_admits(self@, v.major, v.minor, v.patch),
    {
        self.req.matches(&semver::Version::new(v.major, v.minor, v.patch))
    }

    /// The constraint's text.
    pub fn as_str(&self) -> (r: &str)
        ensures
            r@ == self@,
    {
        self.text.as_str()
    }
}

} // verus!
