//! Packages, and what is required of them.

use crate::table::Key;
use crate::text::same_text;
use vstd::prelude::*;

verus! {

/// The name of a package.
#[derive(Debug, Clone, PartialEq, Eq)]
pub struct PackageName(pub String);

impl View for PackageName {
    type V = Seq<char>;

    open spec fn view(&self) -> Seq<char> {
        self.0@
    }
}

impl Key for PackageName {
    fn same_key(&self, other: &Self) -> (r: bool) {
        same_text(self.0.as_str(), other.0.as_str())
    }
}

impl PackageName {
    /// The same name.
    pub fn copied(&self) -> (r: PackageName)
        ensures
            r == *self,
    {
        PackageName(self.0.clone())
    }
}

/// A requirement on the version of a package.
#[derive(Debug, Clone, PartialEq, Eq)]
pub struct PackageVersionReq {
    /// The requirement as it is written
    pub text: String,
    /// Whether every version meets it
    pub any: bool,
}

impl PackageVersionReq {
    /// Whether every version meets the requirement.
    pub fn is_any(&self) -> (r: bool)
        ensures
            r == self.any,
    {
        self.any
    }

    /// The same requirement.
    pub fn copied(&self) -> (r: PackageVersionReq)
        ensures
            r == *self,
    {
        PackageVersionReq { text: self.text.clone(), any: self.any }
    }
}

/// A requirement on a package and its version.
#[derive(Debug, Clone, PartialEq, Eq)]
pub struct PackageReq {
    pub name: PackageName,
    pub version_req: PackageVersionReq,
}

impl PackageReq {
    /// The name of the package.
    pub fn name(&self) -> (r: &PackageName)
        ensures
            *r == self.name,
    {
        &self.name
    }

    /// The requirement on any version of the package.
    pub fn from_name(name: PackageName) -> (r: PackageReq)
        ensures
            r.name == name,
            r.version_req.any,
            r.version_req.text@.len() == 0,
    {
        PackageReq { name, version_req: PackageVersionReq { text: String::new(), any: true } }
    }

    /// The requirement on the version.
    pub fn version_req(&self) -> (r: &PackageVersionReq)
        ensures
            *r == self.version_req,
    {
        &self.version_req
    }

    /// The same requirement.
    pub fn copied(&self) -> (r: PackageReq)
        ensures
            r == *self,
    {
        PackageReq { name: self.name.copied(), version_req: self.version_req.copied() }
    }
}

/// Whether a package stays at its version.
#[derive(Debug, Clone, Copy, PartialEq, Eq, Structural)]
pub enum PinnedState {
    Unpinned,
    Pinned,
}

/// Whether a package is needed.
#[derive(Debug, Clone, Copy, PartialEq, Eq, Structural)]
pub enum OptState {
    Required,
    Optional,
}

/// How a package got into a tree.
#[derive(Debug, Clone, Copy, PartialEq, Eq, Structural)]
pub enum EntryType {
    Entrypoint,
    DependencyOnly,
}

/// Where a package is from.
#[derive(Debug, Clone, PartialEq, Eq)]
pub enum RemotePackageSource {
    /// A packed rock of a luarocks server, with its address
    LuarocksBinaryRock(String),
    /// This machine
    Local,
    /// Another source, as it is written
    Other(String),
}

impl RemotePackageSource {
    /// The same source.
    pub fn copied(&self) -> (r: RemotePackageSource)
        ensures
            r == *self,
    {
        match self {
            RemotePackageSource::LuarocksBinaryRock(url) => {
                RemotePackageSource::LuarocksBinaryRock(url.clone())
            },
            RemotePackageSource::Local => RemotePackageSource::Local,
            RemotePackageSource::Other(text) => RemotePackageSource::Other(text.clone()),
        }
    }
}

/// The address of what a package is made of.
#[derive(Debug, Clone, PartialEq, Eq)]
pub enum RemotePackageSourceUrl {
    Url { url: String },
    File { path: String },
}

/// Where the source of a package is, as it is written.
#[derive(Debug, Clone, PartialEq, Eq)]
pub struct RockSourceSpec(pub String);

/// The header and the library of a dependency outside Lua.
#[derive(Debug, Clone, PartialEq, Eq)]
pub struct ExternalDependencySpec {
    pub header: Option<String>,
    pub library: Option<String>,
}

impl ExternalDependencySpec {
    /// The same dependency.
    pub fn copied(&self) -> (r: ExternalDependencySpec)
        ensures
            r == *self,
    {
        ExternalDependencySpec {
            header: match &self.header {
                Some(path) => Some(path.clone()),
                None => None,
            },
            library: match &self.library {
                Some(path) => Some(path.clone()),
                None => None,
            },
        }
    }
}

/// Copies are the same as what they are copies of, and what holds a requirement hands it out.
pub proof fn copies_are_the_same(
    name: &PackageName,
    version: &PackageVersionReq,
    req: &PackageReq,
    source: &RemotePackageSource,
    external: &ExternalDependencySpec,
    copies: (
        PackageName,
        PackageVersionReq,
        PackageReq,
        RemotePackageSource,
        ExternalDependencySpec,
    ),
    any: bool,
    held_name: &PackageName,
    held_version: &PackageVersionReq,
)
    requires
        call_ensures(PackageName::copied, (name,), copies.0),
        call_ensures(PackageVersionReq::copied, (version,), copies.1),
        call_ensures(PackageReq::copied, (req,), copies.2),
        call_ensures(RemotePackageSource::copied, (source,), copies.3),
        call_ensures(ExternalDependencySpec::copied, (external,), copies.4),
        call_ensures(PackageVersionReq::is_any, (version,), any),
        call_ensures(PackageReq::name, (req,), held_name),
        call_ensures(PackageReq::version_req, (req,), held_version),
    ensures
        copies.0@ == name@,
        copies.1.text@ == version.text@ && copies.1.any == version.any,
        copies.2.name@ == req.name@ && copies.2.version_req == req.version_req,
        copies.3 == *source,
        copies.4.header == external.header && copies.4.library == external.library,
        any <==> version.any,
        *held_name == req.name,
        *held_version == req.version_req,
{
}

/// A requirement of a package by its name asks for that package, and any version will do.
pub proof fn name_asks_for_any_version(name: PackageName, r: PackageReq)
    requires
        call_ensures(PackageReq::from_name, (name,), r),
    ensures
        r.name@ == name@,
        r.version_req.any,
        r.version_req.text@.len() == 0,
{
}

} // verus!
