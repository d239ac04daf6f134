//! Reading version numbers and telling which of two is the later.

use std::cmp::Ordering;
use vstd::prelude::*;

verus! {

/// The five parts of a version number: major, minor and patch number,
/// pre-release and build metadata.
pub type Parts = (u64, u64, u64, Seq<char>, Seq<char>);

/// A version number, read.
#[derive(Debug, PartialEq, Eq)]
pub struct Version {
    pub major: u64,
    pub minor: u64,
    pub patch: u64,
    pub pre: String,
    pub build: String,
}

impl View for Version {
    type V = Parts;

    open spec fn view(&self) -> Parts {
        (self.major, self.minor, self.patch, self.pre@, self.build@)
    }
}

/// `semver::Error`, the reason a text is no version number, carried as it
/// is.
#[verifier::external_type_specification]
#[verifier::external_body]
pub struct ExVersionError(::semver::Error);

/// What `text` reads as, where it is a version number.
pub uninterp spec fn parsed_version(text: Seq<char>) -> Option<Parts>;

/// How the version with the parts `a` stands to the one with the parts `b`:
/// below zero where it is the earlier, above where it is the later, zero
/// where neither is; nothing where one of them is no version.
pub uninterp spec fn version_order(a: Parts, b: Parts) -> Option<i8>;

/// Reads a version number.
///
/// Calls `semver::Version::parse` and hands out the fields of what it
/// returns. The contract claims only that the outcome is fixed by the text.
#[verifier::external_body]
pub(crate) fn parse_version(text: &str) -> (r: Result<Version, ::semver::Error>)
    ensures
        match r {
            Ok(v) => parsed_version(text@) == Some(v@),
            Err(_) => parsed_version(text@) is None,
        },
{
    match ::semver::Version::parse(text) {
        Ok(v) => Ok(
            Version {
                major: v.major,
                minor: v.minor,
                patch: v.patch,
                pre: v.pre.as_str().to_string(),
                build: v.build.as_str().to_string(),
            },
        ),
        Err(e) => Err(e),
    }
}

/// Whether the numbers `a` come before the numbers `b`, the first that
/// differs deciding.
pub open spec fn numbers_below(a: Parts, b: Parts) -> bool {
    a.0 < b.0 || (a.0 == b.0 && (a.1 < b.1 || (a.1 == b.1 && a.2 < b.2)))
}

/// Tells which of two versions is the later.
///
/// Puts both back together as `semver::Version` values, with
/// `Prerelease::new` and `BuildMetadata::new`, and calls `cmp` of that
/// type's derived `Ord`. The contract claims that the outcome is fixed by
/// the parts of the two, that it is -1, 0 or 1, and, as for every derived
/// order, that major, minor and patch number decide before the rest does.
#[verifier::external_body]
pub(crate) fn compare_versions(a: &Version, b: &Version) -> (r: Option<i8>)
    ensures
        r == version_order(a@, b@),
        r matches Some(c) ==> {
            &&& -1 <= c <= 1
            &&& numbers_below(a@, b@) ==> c == -1
            &&& numbers_below(b@, a@) ==> c == 1
        },
{
    let mut x = ::semver::Version::new(a.major, a.minor, a.patch);
    x.pre = ::semver::Prerelease::new(&a.pre).ok()?;
    x.build = ::semver::BuildMetadata::new(&a.build).ok()?;
    let mut y = ::semver::Version::new(b.major, b.minor, b.patch);
    y.pre = ::semver::Prerelease::new(&b.pre).ok()?;
    y.build = ::semver::BuildMetadata::new(&b.build).ok()?;
    Some(
        match x.cmp(&y) {
            Ordering::Less => -1,
            Ordering::Equal => 0,
            Ordering::Greater => 1,
        },
    )
}

} // verus!
