//! Versions of host interfaces, and what plugins require of them.

use vstd::prelude::*;

verus! {

/// What `semver::Version::parse` makes of a text: the version as it is shown, or
/// the message of its error.
pub uninterp spec fn version_parsed(text: Seq<char>) -> Result<Seq<char>, Seq<char>>;

/// What `semver::VersionReq::parse` makes of a text: the requirement as it is
/// shown, or the message of its error.
pub uninterp spec fn requirement_parsed(text: Seq<char>) -> Result<Seq<char>, Seq<char>>;

/// What `semver::VersionReq::matches` says of the requirement and the version in
/// two texts that parse.
pub uninterp spec fn requirement_met(requirement: Seq<char>, version: Seq<char>) -> bool;

/// `semver::Version::parse`, with the version shown as text.
#[verifier::external_body]
fn parse_version(text: &str) -> (result: Result<String, String>)
    ensures
        match (result, version_parsed(text@)) {
            (Ok(shown), Ok(expected)) => shown@ == expected,
            (Err(message), Err(expected)) => message@ == expected,
            _ => false,
        },
{
    match semver::Version::parse(text) {
        Ok(version) => Ok(version.to_string()),
        Err(e) => Err(e.to_string()),
    }
}

/// `semver::VersionReq::parse`, with the requirement shown as text.
#[verifier::external_body]
fn parse_requirement(text: &str) -> (result: Result<String, String>)
    ensures
        match (result, requirement_parsed(text@)) {
            (Ok(shown), Ok(expected)) => shown@ == expected,
            (Err(message), Err(expected)) => message@ == expected,
            _ => false,
        },
{
    match semver::VersionReq::parse(text) {
        Ok(requirement) => Ok(requirement.to_string()),
        Err(e) => Err(e.to_string()),
    }
}

/// `semver::VersionReq::matches`, on the requirement and the version that the
/// texts parse to.
#[verifier::external_body]
fn requirement_matches(requirement: &str, version: &str) -> (yes: bool)
    requires
        requirement_parsed(requirement@) is Ok,
        version_parsed(version@) is Ok,
    ensures
        yes == requirement_met(requirement@, version@),
{
    let requirement = semver::VersionReq::parse(requirement).unwrap();
    let version = semver::Version::parse(version).unwrap();
    requirement.matches(&version)
}

/// A version.
pub struct Version {
    text: String,
    shown: String,
}

/// What a version must meet.
pub struct Requirement {
    text: String,
    shown: String,
}

impl Version {
    #[verifier::type_invariant]
    spec fn wf(self) -> bool {
        version_parsed(self.text@) == Ok::<Seq<char>, Seq<char>>(self.shown@)
    }

    /// The text that was parsed.
    pub closed spec fn source(self) -> Seq<char> {
        self.text@
    }

    pub fn parse(text: &str) -> (result: Result<Version, String>)
        ensures
            match (result, version_parsed(text@)) {
                (Ok(version), Ok(_)) => version.source() == text@,
                (Err(message), Err(expected)) => message@ == expected,
                _ => false,
            },
    {
        match parse_version(text) {
            Ok(shown) => Ok(Version { text: text.to_owned(), shown }),
            Err(e) => Err(e),
        }
    }

    /// The version as it is shown.
    pub fn to_text(&self) -> (text: &str)
        ensures
            version_parsed(self.source()) == Ok::<Seq<char>, Seq<char>>(text@),
    {
        proof {
            use_type_invariant(self);
        }
        self.shown.as_str()
    }
}

impl Requirement {
    #[verifier::type_invariant]
    spec fn wf(self) -> bool {
        requirement_parsed(self.text@) == Ok::<Seq<char>, Seq<char>>(self.shown@)
    }

    /// The text that was parsed.
    pub closed spec fn source(self) -> Seq<char> {
        self.text@
    }

    pub fn parse(text: &str) -> (result: Result<Requirement, String>)
        ensures
            match (result, requirement_parsed(text@)) {
                (Ok(requirement), Ok(_)) => requirement.source() == text@,
                (Err(message), Err(expected)) => message@ == expected,
                _ => false,
            },
    {
        match parse_requirement(text) {
            Ok(shown) => Ok(Requirement { text: text.to_owned(), shown }),
            Err(e) => Err(e),
        }
    }

    /// The requirement as it is shown.
    pub fn to_text(&self) -> (text: &str)
        ensures
            requirement_parsed(self.source()) == Ok::<Seq<char>, Seq<char>>(text@),
    {
        proof {
            use_type_invariant(self);
        }
        self.shown.as_str()
    }

    /// The version meets the requirement.
    pub fn matches(&self, version: &Version) -> (yes: bool)
        ensures
            yes == requirement_met(self.source(), version.source()),
    {
        proof {
            use_type_invariant(self);
            use_type_invariant(version);
        }
        requirement_matches(self.text.as_str(), version.text.as_str())
    }
}

} // verus!
