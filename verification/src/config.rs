//! Packages: what is built, by name and version.

use semver::{Version, VersionReq};
use vstd::prelude::*;

verus! {

/// `semver::Version`, taken as a whole: nothing here looks at its parts.
#[verifier::external_type_specification]
#[verifier::external_body]
pub struct ExVersion(Version);

/// `semver::VersionReq`, taken as a whole.
#[verifier::external_type_specification]
#[verifier::external_body]
pub struct ExVersionReq(VersionReq);

/// The text of a version, as `semver` prints it.
pub uninterp spec fn version_text(version: Version) -> Seq<char>;

/// Whether a version meets a requirement, as `semver` decides it.
pub uninterp spec fn requirement_admits(req: VersionReq, version: Version) -> bool;

/// `semver::Version`'s `==`. Two versions are equal when they agree in every
/// part, build metadata included; nothing tells equal versions apart.
#[verifier::external_body]
fn version_eq(a: &Version, b: &Version) -> (equal: bool)
    ensures
        equal == (*a == *b),
{
    a == b
}

/// `semver::Version`'s `clone`, which hands back an equal version.
#[verifier::external_body]
fn version_clone(version: &Version) -> (copy: Version)
    ensures
        copy == *version,
{
    version.clone()
}

/// `semver::Version`'s `to_string`: the text that stands for the version.
#[verifier::external_body]
pub(crate) fn version_string(version: &Version) -> (text: String)
    ensures
        text@ == version_text(*version),
{
    version.to_string()
}

/// `semver::VersionReq::matches`: the answer depends on the requirement and
/// the version alone.
#[verifier::external_body]
fn requirement_matches(req: &VersionReq, version: &Version) -> (admits: bool)
    ensures
        admits == requirement_admits(*req, *version),
{
    req.matches(version)
}

/// The requirement of `semver` with the single comparator `=`, taken over
/// major, minor, patch and pre-release of `version`. The version itself
/// meets it.
#[verifier::external_body]
fn exact_requirement(version: &Version) -> (req: VersionReq)
    ensures
        requirement_admits(req, *version),
{
    VersionReq {
        comparators: vec![
            semver::Comparator {
                op: semver::Op::Exact,
                major: version.major,
                minor: Some(version.minor),
                patch: Some(version.patch),
                pre: version.pre.clone(),
            },
        ],
    }
}

/// A package: a name and the version of it.
#[derive(Debug)]
pub struct Package {
    pub name: String,
    pub version: Version,
}

/// What a package holds.
pub ghost struct PackageView {
    pub name: Seq<char>,
    pub version: Version,
}

impl View for Package {
    type V = PackageView;

    open spec fn view(&self) -> PackageView {
        PackageView { name: self.name@, version: self.version }
    }
}

/// A question for a package: its name, and what its version has to meet.
#[derive(Debug)]
pub struct PackageQuery {
    pub name: String,
    pub version_req: VersionReq,
}

/// The name `name` as seen from the package called `package`: a name that
/// starts with a dot lies below the package, any other name stands for
/// itself.
pub open spec fn absolute(package: Seq<char>, name: Seq<char>) -> Seq<char> {
    if name.len() > 0 && name[0] == '.' {
        package + name
    } else {
        name
    }
}

impl Clone for Package {
    fn clone(&self) -> (copy: Self)
        ensures
            copy@ == self@,
    {
        Package { name: self.name.clone(), version: version_clone(&self.version) }
    }
}

impl PartialEq for Package {
    /// Packages are equal when name and version are.
    fn eq(&self, other: &Self) -> (equal: bool) {
        self.name == other.name && version_eq(&self.version, &other.version)
    }
}

impl Eq for Package {

}

impl vstd::std_specs::cmp::PartialEqSpecImpl for Package {
    open spec fn obeys_eq_spec() -> bool {
        true
    }

    open spec fn eq_spec(&self, other: &Self) -> bool {
        self@ == other@
    }
}

impl Package {
    /// Resolves `name` against this package: `.x` becomes the name of the
    /// package followed by `.x`, and a name without a leading dot is kept.
    pub fn absolute_name(&self, name: &str) -> (full: String)
        ensures
            full@ == absolute(self.name@, name@),
    {
        if name.unicode_len() > 0 && name.get_char(0) == '.' {
            let mut full = self.name.clone();
            full.append(name);
            full
        } else {
            name.to_owned()
        }
    }

    /// The question for exactly this package: the name is that of the
    /// package, and the version of the package meets the requirement.
    pub fn to_query(&self) -> (query: PackageQuery)
        ensures
            query.name@ == self.name@,
            requirement_admits(query.version_req, self.version),
    {
        PackageQuery { name: self.name.clone(), version_req: exact_requirement(&self.version) }
    }

    /// This package under the name that `name` resolves to.
    pub fn into_absolute(self, name: &str) -> (package: Self)
        ensures
            package@ == (PackageView {
                name: absolute(self.name@, name@),
                version: self.version,
            }),
    {
        let full = self.absolute_name(name);
        Package { name: full, version: self.version }
    }
}

impl PackageQuery {
    /// Whether `package` answers this question: the names are the same and
    /// the version meets the requirement.
    pub open spec fn admits(&self, package: PackageView) -> bool {
        self.name@ == package.name && requirement_admits(self.version_req, package.version)
    }

    /// Decides `admits`.
    pub fn matches(&self, package: &Package) -> (admits: bool)
        ensures
            admits == self.admits(package@),
    {
        package.name == self.name && requirement_matches(&self.version_req, &package.version)
    }
}

} // verus!
