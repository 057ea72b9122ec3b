//! Requirements on packages, the versions selected for them, and the chains
//! that record how each came to be asked for.

use vstd::prelude::*;
use crate::version::{ParseError, ErrorView, Version, VersionView, parsed_version};
use crate::views::{clone_items, views};

verus! {

/// Whether `semver::VersionReq::parse` accepts a text as a range expression.
pub uninterp spec fn valid_requirement(text: Seq<char>) -> bool;

/// Whether the range expression that a text stands for admits a version, as
/// `semver::VersionReq::matches` decides it. A text that is no range
/// expression admits nothing.
pub uninterp spec fn requirement_matches(spec: Seq<char>, version: VersionView) -> bool;

/// Calls `semver::VersionReq::parse` and keeps only whether the text parsed.
#[verifier::external_body]
pub(crate) fn check_requirement(text: &str) -> (r: Result<(), semver::Error>)
    ensures
        r is Ok == valid_requirement(text@),
{
    match semver::VersionReq::parse(text) {
        Ok(_) => Ok(()),
        Err(e) => Err(e),
    }
}

/// Calls `semver::VersionReq::matches` on the range expression parsed from
/// `spec` and on the version rebuilt field by field (a tag that `semver`
/// rejects counts as absent). The contract only names the outcome.
#[verifier::external_body]
pub(crate) fn semver_matches(spec: &str, version: &Version) -> (r: bool)
    ensures
        r == requirement_matches(spec@, version@),
{
    let v = semver::Version {
        major: version.major,
        minor: version.minor,
        patch: version.patch,
        pre: semver::Prerelease::new(&version.pre).unwrap_or_default(),
        build: semver::BuildMetadata::new(&version.build).unwrap_or_default(),
    };
    match semver::VersionReq::parse(spec) {
        Ok(req) => req.matches(&v),
        Err(_) => false,
    }
}

/// One step of a required-by chain: the name and range of a requirement.
#[derive(Debug)]
pub struct ChainLink {
    pub name: String,
    pub spec: String,
}

/// The mathematical value of a [`ChainLink`].
pub struct LinkView {
    pub name: Seq<char>,
    pub spec: Seq<char>,
}

impl View for ChainLink {
    type V = LinkView;

    open spec fn view(&self) -> LinkView {
        LinkView { name: self.name@, spec: self.spec@ }
    }
}

impl Clone for ChainLink {
    fn clone(&self) -> (r: Self)
        ensures
            r@ == self@,
    {
        ChainLink { name: self.name.clone(), spec: self.spec.clone() }
    }
}

/// A requirement: a package name, the range its version must lie in, and
/// the chain of requirements that led to it, the top-level one first and the
/// immediate parent last. A top-level requirement has an empty chain.
#[derive(Debug)]
pub struct PackageRequirement {
    pub name: String,
    pub spec: String,
    pub required_by: Vec<ChainLink>,
}

/// The mathematical value of a [`PackageRequirement`].
pub struct RequirementView {
    pub name: Seq<char>,
    pub spec: Seq<char>,
    pub required_by: Seq<LinkView>,
}

impl RequirementView {
    /// The requirement as a step of a chain.
    pub open spec fn link(self) -> LinkView {
        LinkView { name: self.name, spec: self.spec }
    }

    /// The chain of whatever this requirement brings in: its own chain, then
    /// itself.
    pub open spec fn chain_below(self) -> Seq<LinkView> {
        self.required_by.push(self.link())
    }

    /// The requirement that brought this one in, if any.
    pub open spec fn parent(self) -> Option<RequirementView> {
        if self.required_by.len() == 0 {
            None
        } else {
            Some(
                RequirementView {
                    name: self.required_by.last().name,
                    spec: self.required_by.last().spec,
                    required_by: self.required_by.drop_last(),
                },
            )
        }
    }

    /// Whether the requirement admits a version.
    pub open spec fn admits(self, version: VersionView) -> bool {
        requirement_matches(self.spec, version)
    }
}

impl View for PackageRequirement {
    type V = RequirementView;

    open spec fn view(&self) -> RequirementView {
        RequirementView {
            name: self.name@,
            spec: self.spec@,
            required_by: views(self.required_by@),
        }
    }
}

impl Clone for PackageRequirement {
    fn clone(&self) -> (r: Self)
        ensures
            r@ == self@,
    {
        PackageRequirement {
            name: self.name.clone(),
            spec: self.spec.clone(),
            required_by: clone_items(&self.required_by),
        }
    }
}

impl PackageRequirement {
    /// A top-level requirement on `name` with the range `spec_str`. A text
    /// that is no range expression is handed back in `InvalidRequirement`.
    pub fn new(name: String, spec_str: String) -> (r: Result<Self, ParseError>)
        ensures
            match r {
                Ok(q) => valid_requirement(spec_str@) && q@ == (RequirementView {
                    name: name@,
                    spec: spec_str@,
                    required_by: Seq::empty(),
                }),
                Err(e) => !valid_requirement(spec_str@) && e@ == ErrorView::InvalidRequirement(
                    spec_str@,
                ),
            },
    {
        match check_requirement(spec_str.as_str()) {
            Ok(_) => {
                let q = PackageRequirement { name, spec: spec_str, required_by: Vec::new() };
                proof {
                    assert(views(q.required_by@) =~= Seq::<LinkView>::empty());
                }
                Ok(q)
            },
            Err(_) => Err(ParseError::InvalidRequirement(spec_str)),
        }
    }

    /// Whether the requirement's range admits `version`, by SemVer range
    /// semantics as `semver` implements them.
    pub fn matches(&self, version: &Version) -> (r: bool)
        ensures
            r == self@.admits(version@),
    {
        semver_matches(self.spec.as_str(), version)
    }

    /// The requirement as a step of a chain.
    pub fn link(&self) -> (r: ChainLink)
        ensures
            r@ == self@.link(),
    {
        ChainLink { name: self.name.clone(), spec: self.spec.clone() }
    }

    /// The chain of whatever this requirement brings in: its own chain, then
    /// itself.
    pub fn chain_below(&self) -> (r: Vec<ChainLink>)
        ensures
            views(r@) == self@.chain_below(),
    {
        let mut chain = clone_items(&self.required_by);
        let link = self.link();
        chain.push(link);
        chain
    }

    /// The requirement that brought this one in; `None` for a top-level one.
    pub fn parent(&self) -> (r: Option<PackageRequirement>)
        ensures
            match r {
                Some(p) => self@.parent() == Some(p@),
                None => self@.parent() is None,
            },
    {
        let n = self.required_by.len();
        if n == 0 {
            None
        } else {
            let mut chain = clone_items(&self.required_by);
            let last = chain.pop().unwrap();
            proof {
                assert(views(chain@) =~= views(self.required_by@).drop_last());
            }
            Some(PackageRequirement { name: last.name, spec: last.spec, required_by: chain })
        }
    }
}

/// A version of a package: as a candidate, with an empty chain; once
/// selected, with the chain by which the selection was brought in.
#[derive(Debug)]
pub struct PackageVersion {
    pub name: String,
    pub version: Version,
    pub required_by: Vec<ChainLink>,
}

/// The mathematical value of a [`PackageVersion`].
pub struct PackageVersionView {
    pub name: Seq<char>,
    pub version: VersionView,
    pub required_by: Seq<LinkView>,
}

impl View for PackageVersion {
    type V = PackageVersionView;

    open spec fn view(&self) -> PackageVersionView {
        PackageVersionView {
            name: self.name@,
            version: self.version@,
            required_by: views(self.required_by@),
        }
    }
}

impl Clone for PackageVersion {
    fn clone(&self) -> (r: Self)
        ensures
            r@ == self@,
    {
        PackageVersion {
            name: self.name.clone(),
            version: self.version.clone(),
            required_by: clone_items(&self.required_by),
        }
    }
}

impl PackageVersion {
    /// A candidate: the version that `version_str` parses to, under `name`,
    /// with an empty chain. A text that is no version is handed back in
    /// `InvalidVersion`.
    pub fn new(name: &str, version_str: &str) -> (r: Result<Self, ParseError>)
        ensures
            match r {
                Ok(p) => parsed_version(version_str@) == Some(p@.version) && p@.name == name@
                    && p@.required_by == Seq::<LinkView>::empty(),
                Err(e) => parsed_version(version_str@) is None && e@ == ErrorView::InvalidVersion(
                    version_str@,
                ),
            },
    {
        match Version::parse(version_str) {
            Ok(version) => {
                let p = PackageVersion { name: name.to_owned(), version, required_by: Vec::new() };
                Ok(p)
            },
            Err(e) => Err(e),
        }
    }
}

} // verus!
