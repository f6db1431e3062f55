//! Semantic versions, modelled by their numeric components. Parsing a
//! version string is delegated to the `semver` crate; everything that
//! compares or orders versions is verified here.

use vstd::prelude::*;

verus! {

/// Numeric components of a semantic version.
#[derive(Clone, Copy, Debug, PartialEq, Eq, Structural)]
pub struct Version {
    pub major: u64,
    pub minor: u64,
    pub patch: u64,
}

/// What `semver::Version::parse` yields on a given string: the numeric
/// components, or `None` where the string is not a valid semantic
/// version.
pub uninterp spec fn sem_version_of(s: Seq<char>) -> Option<(u64, u64, u64)>;

/// Strict precedence order on numeric components: major first, then
/// minor, then patch.
pub open spec fn spec_version_lt(a: (u64, u64, u64), b: (u64, u64, u64)) -> bool {
    a.0 < b.0 || (a.0 == b.0 && (a.1 < b.1 || (a.1 == b.1 && a.2 < b.2)))
}

impl Version {
    /// The components as a triple, the shape the specifications use.
    pub open spec fn triple(self) -> (u64, u64, u64) {
        (self.major, self.minor, self.patch)
    }

    /// Strictly lower precedence than `other`.
    pub fn lt(&self, other: &Version) -> (r: bool)
        ensures
            r == spec_version_lt(self.triple(), other.triple()),
    {
        self.major < other.major || (self.major == other.major && (self.minor < other.minor || (
        self.minor == other.minor && self.patch < other.patch)))
    }
}

/// Relies on `semver::Version::parse`: yields the numeric components of
/// a semantic-version string and fails exactly on strings that are not
/// valid semantic versions; the pre-release and build-metadata parts are
/// not carried over.
#[verifier::external_body]
pub fn parse_version(s: &str) -> (r: Option<Version>)
    ensures
        match r {
            Some(v) => sem_version_of(s@) == Some((v.major, v.minor, v.patch)),
            None => sem_version_of(s@) is None,
        },
{
    match semver::Version::parse(s) {
        Ok(v) => Some(
            Version { major: v.major, minor: v.minor, patch: v.patch },
        ),
        Err(_) => None,
    }
}

/// Version string `a` takes precedence over version string `b`: both
/// parse and `a` is strictly higher, or only `a` parses (a malformed
/// version never wins).
pub open spec fn spec_vstr_better(a: Seq<char>, b: Seq<char>) -> bool {
    match (sem_version_of(a), sem_version_of(b)) {
        (Some(x), Some(y)) => spec_version_lt(y, x),
        (Some(x), None) => true,
        (None, _) => false,
    }
}

/// Whether version string `a` takes precedence over version string `b`.
pub fn vstr_better(a: &str, b: &str) -> (r: bool)
    ensures
        r == spec_vstr_better(a@, b@),
{
    match (parse_version(a), parse_version(b)) {
        (Some(x), Some(y)) => y.lt(&x),
        (Some(_), None) => true,
        (None, _) => false,
    }
}

} // verus!
