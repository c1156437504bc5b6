//! Semantic versions as the rule table reads them: numbers and pre-release
//! identifiers. Build metadata takes no part in equality or precedence, so it
//! is not kept.
use vstd::prelude::*;

verus! {

#[verifier::external_type_specification]
#[verifier::external_body]
pub struct ExSemVerError(semver::SemVerError);

/// One dot-separated pre-release identifier.
#[derive(Debug, Clone)]
pub enum PreIdent {
    Numeric(u64),
    Alpha(Vec<char>),
}

pub ghost enum PreIdentView {
    Numeric(nat),
    Alpha(Seq<char>),
}

impl View for PreIdent {
    type V = PreIdentView;

    open spec fn view(&self) -> PreIdentView {
        match self {
            PreIdent::Numeric(n) => PreIdentView::Numeric(*n as nat),
            PreIdent::Alpha(s) => PreIdentView::Alpha(s@),
        }
    }
}

#[derive(Debug, Clone)]
pub struct SemVer {
    pub major: u64,
    pub minor: u64,
    pub patch: u64,
    pub pre: Vec<PreIdent>,
}

pub ghost struct SemVerView {
    pub major: nat,
    pub minor: nat,
    pub patch: nat,
    pub pre: Seq<PreIdentView>,
}

impl View for SemVer {
    type V = SemVerView;

    open spec fn view(&self) -> SemVerView {
        SemVerView {
            major: self.major as nat,
            minor: self.minor as nat,
            patch: self.patch as nat,
            pre: self.pre@.map_values(|p: PreIdent| p@),
        }
    }
}

/// The version that `semver` reads from a text, if it reads one.
pub uninterp spec fn semver_parse(s: Seq<char>) -> Option<SemVerView>;

/// Relies on semver::Version::parse: whether the text is a version, and its
/// numbers and pre-release identifiers. Its parser panics on an identifier
/// of more than 255 parts joined by `-`, so such text is left out.
#[verifier::external_body]
fn parse_semver(s: &str) -> (r: Result<SemVer, semver::SemVerError>)
    requires
        hyphens(s@) <= 255,
    ensures
        match r {
            Ok(v) => semver_parse(s@) == Some(v@),
            Err(_) => semver_parse(s@) is None,
        },
{
    semver::Version::parse(s).map(
        |v| SemVer {
            major: v.major,
            minor: v.minor,
            patch: v.patch,
            pre: v.pre.into_iter().map(|i| match i {
                semver::Identifier::Numeric(n) => PreIdent::Numeric(n),
                semver::Identifier::AlphaNumeric(a) => PreIdent::Alpha(a.chars().collect()),
            }).collect(),
        },
    )
}

/// Lexicographic order on characters by code point; a proper prefix comes first.
pub open spec fn chars_lt(a: Seq<char>, b: Seq<char>) -> bool
    decreases a.len(),
{
    if a.len() == 0 {
        b.len() > 0
    } else if b.len() == 0 {
        false
    } else if a[0] != b[0] {
        (a[0] as u32) < (b[0] as u32)
    } else {
        chars_lt(a.drop_first(), b.drop_first())
    }
}

/// Numeric identifiers come before alphanumeric ones; each kind in its own order.
pub open spec fn ident_lt(a: PreIdentView, b: PreIdentView) -> bool {
    match (a, b) {
        (PreIdentView::Numeric(x), PreIdentView::Numeric(y)) => x < y,
        (PreIdentView::Numeric(_), PreIdentView::Alpha(_)) => true,
        (PreIdentView::Alpha(_), PreIdentView::Numeric(_)) => false,
        (PreIdentView::Alpha(x), PreIdentView::Alpha(y)) => chars_lt(x, y),
    }
}

/// Lexicographic order on identifier lists; a proper prefix comes first.
pub open spec fn idents_lt(a: Seq<PreIdentView>, b: Seq<PreIdentView>) -> bool
    decreases a.len(),
{
    if a.len() == 0 {
        b.len() > 0
    } else if b.len() == 0 {
        false
    } else if a[0] != b[0] {
        ident_lt(a[0], b[0])
    } else {
        idents_lt(a.drop_first(), b.drop_first())
    }
}

/// Semantic-version precedence: by major, minor and patch; at equal numbers
/// a pre-release comes before the release, and two pre-releases compare by
/// their identifiers.
pub open spec fn version_lt(a: SemVerView, b: SemVerView) -> bool {
    if a.major != b.major {
        a.major < b.major
    } else if a.minor != b.minor {
        a.minor < b.minor
    } else if a.patch != b.patch {
        a.patch < b.patch
    } else if a.pre.len() == 0 {
        false
    } else if b.pre.len() == 0 {
        true
    } else {
        idents_lt(a.pre, b.pre)
    }
}

/// Whether two character sequences are equal.
pub fn chars_eq(a: &Vec<char>, b: &Vec<char>) -> (r: bool)
    ensures
        r == (a@ == b@),
{
    if a.len() != b.len() {
        return false;
    }
    let mut i: usize = 0;
    while i < a.len()
        invariant
            0 <= i <= a.len(),
            a.len() == b.len(),
            a@.take(i as int) == b@.take(i as int),
        decreases a.len() - i,
    {
        if a[i] != b[i] {
            return false;
        }
        i = i + 1;
        assert(a@.take(i as int) =~= a@.take(i - 1) + seq![a@[i - 1]]);
        assert(b@.take(i as int) =~= b@.take(i - 1) + seq![b@[i - 1]]);
    }
    assert(a@ =~= a@.take(i as int));
    assert(b@ =~= b@.take(i as int));
    true
}

/// How many `-` characters the text holds.
pub open spec fn hyphens(s: Seq<char>) -> nat
    decreases s.len(),
{
    if s.len() == 0 {
        0
    } else {
        hyphens(s.drop_last()) + if s.last() == '-' {
            1nat
        } else {
            0nat
        }
    }
}

/// The characters of `s`, in order.
pub fn chars_of(s: &str) -> (r: Vec<char>)
    ensures
        r@ == s@,
{
    broadcast use vstd::string::axiom_spec_iter;

    let mut r: Vec<char> = Vec::new();
    for c in it: s.chars()
        invariant
            r@ == it.seq().take(it.index() as int),
    {
        r.push(c);
    }
    r
}

/// Whether `s` stays within the parser's limit on identifier parts, which
/// are joined by `-`: at most 255 of them in the whole text.
pub fn within_part_limit(s: &str) -> (r: bool)
    ensures
        r == (hyphens(s@) <= 255),
{
    let cs = chars_of(s);
    let mut n: usize = 0;
    let mut i: usize = 0;
    while i < cs.len()
        invariant
            0 <= i <= cs.len(),
            n == hyphens(cs@.take(i as int)),
            n <= 255,
            cs@ == s@,
        decreases cs.len() - i,
    {
        assert(cs@.take(i + 1).drop_last() =~= cs@.take(i as int));
        if cs[i] == '-' {
            if n == 255 {
                proof {
                    assert(cs@.take(i + 1).last() == '-');
                    assert(hyphens(cs@.take(i + 1)) == 256);
                    lemma_hyphens_prefix(cs@, i + 1);
                }
                return false;
            }
            n = n + 1;
        }
        i = i + 1;
    }
    assert(cs@.take(i as int) =~= cs@);
    true
}

/// A prefix holds no more `-` than the whole.
proof fn lemma_hyphens_prefix(s: Seq<char>, k: int)
    requires
        0 <= k <= s.len(),
    ensures
        hyphens(s.take(k)) <= hyphens(s),
    decreases s.len() - k,
{
    if k < s.len() {
        lemma_hyphens_prefix(s, k + 1);
        assert(s.take(k + 1).drop_last() =~= s.take(k));
    } else {
        assert(s.take(k) =~= s);
    }
}

/// Relies on the `<` of semver::Version: semantic-version precedence, with
/// build metadata ignored.
#[verifier::external_body]
fn semver_lt(a: &SemVer, b: &SemVer) -> (r: bool)
    ensures
        r == version_lt(a@, b@),
{
    let to = |v: &SemVer| semver::Version {
        major: v.major,
        minor: v.minor,
        patch: v.patch,
        pre: v.pre.iter().map(|p| match p {
            PreIdent::Numeric(n) => semver::Identifier::Numeric(*n),
            PreIdent::Alpha(x) => semver::Identifier::AlphaNumeric(x.iter().collect()),
        }).collect(),
        build: Vec::new(),
    };
    to(a) < to(b)
}

/// Relies on the `==` of semver::Version: equal numbers and pre-release
/// identifiers, build metadata ignored.
#[verifier::external_body]
fn semver_eq(a: &SemVer, b: &SemVer) -> (r: bool)
    ensures
        r == (a@ == b@),
{
    let to = |v: &SemVer| semver::Version {
        major: v.major,
        minor: v.minor,
        patch: v.patch,
        pre: v.pre.iter().map(|p| match p {
            PreIdent::Numeric(n) => semver::Identifier::Numeric(*n),
            PreIdent::Alpha(x) => semver::Identifier::AlphaNumeric(x.iter().collect()),
        }).collect(),
        build: Vec::new(),
    };
    to(a) == to(b)
}

impl SemVer {
    pub fn new(major: u64, minor: u64, patch: u64) -> (r: SemVer)
        ensures
            r@ == (SemVerView {
                major: major as nat,
                minor: minor as nat,
                patch: patch as nat,
                pre: Seq::empty(),
            }),
    {
        let r = SemVer { major, minor, patch, pre: Vec::new() };
        assert(r@.pre =~= Seq::<PreIdentView>::empty());
        r
    }

    /// Reads a version from its text.
    pub fn parse(s: &str) -> (r: Result<SemVer, semver::SemVerError>)
        requires
            hyphens(s@) <= 255,
        ensures
            match r {
                Ok(v) => semver_parse(s@) == Some(v@),
                Err(_) => semver_parse(s@) is None,
            },
    {
        parse_semver(s)
    }

    /// A copy of this version.
    pub fn copy(&self) -> (r: SemVer)
        ensures
            r@ == self@,
    {
        let mut pre: Vec<PreIdent> = Vec::new();
        let mut i: usize = 0;
        while i < self.pre.len()
            invariant
                0 <= i <= self.pre.len(),
                pre@.len() == i,
                forall|j: int| 0 <= j < i ==> (#[trigger] pre@[j])@ == self.pre@[j]@,
            decreases self.pre.len() - i,
        {
            let p = match &self.pre[i] {
                PreIdent::Numeric(n) => PreIdent::Numeric(*n),
                PreIdent::Alpha(a) => PreIdent::Alpha(a.clone()),
            };
            pre.push(p);
            i = i + 1;
        }
        let r = SemVer { major: self.major, minor: self.minor, patch: self.patch, pre };
        assert(r@.pre =~= self@.pre);
        r
    }

    /// Equality by numbers and pre-release identifiers.
    pub fn same(&self, other: &SemVer) -> (r: bool)
        ensures
            r == (self@ == other@),
    {
        semver_eq(self, other)
    }

    /// Whether `self` comes before `other` in semantic-version precedence.
    pub fn is_before(&self, other: &SemVer) -> (r: bool)
        ensures
            r == version_lt(self@, other@),
    {
        semver_lt(self, other)
    }
}

} // verus!
