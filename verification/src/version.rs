//! The version matcher: whether a version, given as text, satisfies a
//! version requirement, given as text.
//!
//! Reading the two texts and holding a version against a requirement is the
//! work of the `semver` crate. This module states what it relies on there and
//! decides what the answer is when a text cannot be read.

use semver::{Error, Version, VersionReq};
use vstd::prelude::*;

verus! {

/// `semver::Version`: a semantic version that has been read. Nothing of what
/// it holds is visible to the proofs.
#[verifier::external_type_specification]
#[verifier::external_body]
pub struct ExVersion(semver::Version);

/// `semver::VersionReq`: a version requirement that has been read. Nothing of
/// what it holds is visible to the proofs.
#[verifier::external_type_specification]
#[verifier::external_body]
pub struct ExVersionReq(semver::VersionReq);

/// `semver::Error`: why a text could not be read.
#[verifier::external_type_specification]
#[verifier::external_body]
pub struct ExError(semver::Error);

/// The version that `semver::Version::parse` reads from `text`, if it reads
/// one.
pub uninterp spec fn parsed_version(text: Seq<char>) -> Option<Version>;

/// The requirement that `semver::VersionReq::parse` reads from `text`, if it
/// reads one.
pub uninterp spec fn parsed_requirement(text: Seq<char>) -> Option<VersionReq>;

/// What `semver::VersionReq::matches` answers for `requirement` and `version`.
pub uninterp spec fn satisfies(requirement: VersionReq, version: Version) -> bool;

/// `semver::Version::parse` reads a version from a text. Assumed: what it
/// returns depends on the text alone, so that it succeeds exactly where
/// [`parsed_version`] holds a version, and then with that version.
pub assume_specification[ Version::parse ](text: &str) -> (outcome: Result<Version, Error>)
    ensures
        match outcome {
            Ok(version) => parsed_version(text@) == Some(version),
            Err(_) => parsed_version(text@).is_none(),
        },
;

/// `semver::VersionReq::parse` reads a requirement from a text. Assumed: what
/// it returns depends on the text alone, so that it succeeds exactly where
/// [`parsed_requirement`] holds a requirement, and then with that requirement.
pub assume_specification[ VersionReq::parse ](text: &str) -> (outcome: Result<VersionReq, Error>)
    ensures
        match outcome {
            Ok(requirement) => parsed_requirement(text@) == Some(requirement),
            Err(_) => parsed_requirement(text@).is_none(),
        },
;

/// `semver::VersionReq::matches` holds a version against a requirement.
/// Assumed: its answer depends on the two values alone.
pub assume_specification[ VersionReq::matches ](
    requirement: &VersionReq,
    version: &Version,
) -> (matched: bool)
    ensures
        matched == satisfies(*requirement, *version),
;

/// Whether the version text satisfies the requirement text.
///
/// An empty requirement asks for nothing, and every text satisfies it. A
/// requirement that cannot be read is satisfied by nothing. A version that
/// cannot be read satisfies no requirement but the empty one. Otherwise the
/// version that was read is held against the requirement that was read.
pub open spec fn version_accepted(version: Seq<char>, requirement: Seq<char>) -> bool {
    requirement.len() == 0 || match (parsed_requirement(requirement), parsed_version(version)) {
        (Some(wanted), Some(found)) => satisfies(wanted, found),
        _ => false,
    }
}

/// Holds the outcome of reading a version against a requirement that has
/// been read: a version that could not be read satisfies nothing.
pub fn admits(requirement: &VersionReq, version: Result<Version, Error>) -> (accepted: bool)
    ensures
        accepted == match version {
            Ok(found) => satisfies(*requirement, found),
            Err(_) => false,
        },
{
    match version {
        Ok(found) => requirement.matches(&found),
        Err(_) => false,
    }
}

/// Check whether the given version is within the range that the requirement
/// allows.
///
/// An empty requirement matches anything. A requirement that fails to parse
/// matches nothing. An empty version, or one that fails to parse, matches
/// nothing unless the requirement is empty.
pub fn version_compare(version: &str, requirement: &str) -> (accepted: bool)
    ensures
        accepted == version_accepted(version@, requirement@),
{
    if requirement.is_empty() {
        return true;
    }
    match VersionReq::parse(requirement) {
        Ok(wanted) => admits(&wanted, Version::parse(version)),
        Err(_) => false,
    }
}

/// The empty requirement accepts every version text, also an empty one and
/// one that cannot be read.
pub proof fn lemma_empty_requirement_accepts(version: Seq<char>)
    ensures
        version_accepted(version, Seq::<char>::empty()),
{
}

/// A requirement that is not empty and cannot be read accepts no version
/// text, whether that text can be read or not.
pub proof fn lemma_unreadable_requirement_rejects(version: Seq<char>, requirement: Seq<char>)
    requires
        requirement.len() > 0,
        parsed_requirement(requirement).is_none(),
    ensures
        !version_accepted(version, requirement),
{
}

/// A version text that cannot be read is accepted by no requirement but the
/// empty one.
pub proof fn lemma_unreadable_version_rejected(version: Seq<char>, requirement: Seq<char>)
    requires
        requirement.len() > 0,
        parsed_version(version).is_none(),
    ensures
        !version_accepted(version, requirement),
{
}

} // verus!
