//! Packages: what a registry returns, what a manifest asks for, and the key
//! that names one physical install target.
use vstd::prelude::*;
use crate::constraint::ParseError;
use crate::version::{expr_spec, VersionImpl};

verus! {

/// Where a package archive is fetched from, and its checksum.
#[derive(Debug, Clone)]
pub struct Dist {
    pub shasum: String,
    pub tarball: String,
}

/// One concrete version of a package, as a registry describes it.
#[derive(Debug, Clone)]
pub struct NpmPackage {
    pub name: String,
    pub version: String,
    pub dist: Dist,
}

/// Identity of one physical install target: name and resolved version.
#[derive(Debug, Clone, PartialEq, Eq, Hash)]
pub struct RegistryKey {
    pub name: String,
    pub version: String,
}

/// Which kind of dependency a package is, with the expression it was declared with.
#[derive(Debug, Clone)]
pub enum PackageType {
    Prod(String),
    Dev(String),
    Optional(String),
    Peer(String),
}

/// A requirement: a package name and a version expression.
#[derive(Debug, Clone)]
pub struct Package {
    pub name: String,
    pub raw_version: String,
    pub version: VersionImpl,
}

impl Dist {
    pub fn duplicate(&self) -> (r: Dist)
        ensures
            r == *self,
    {
        Dist { shasum: self.shasum.clone(), tarball: self.tarball.clone() }
    }
}

impl NpmPackage {
    pub fn new(name: String, version: String, shasum: String, tarball: String) -> (r: NpmPackage)
        ensures
            r.name == name,
            r.version == version,
            r.dist.shasum == shasum,
            r.dist.tarball == tarball,
    {
        NpmPackage { name, version, dist: Dist { shasum, tarball } }
    }

    pub fn duplicate(&self) -> (r: NpmPackage)
        ensures
            r == *self,
    {
        NpmPackage { name: self.name.clone(), version: self.version.clone(), dist: self.dist.duplicate() }
    }

    /// The key this record installs under.
    pub fn key(&self) -> (r: RegistryKey)
        ensures
            r.name == self.name,
            r.version == self.version,
    {
        RegistryKey { name: self.name.clone(), version: self.version.clone() }
    }
}

impl RegistryKey {
    pub fn duplicate(&self) -> (r: RegistryKey)
        ensures
            r == *self,
    {
        RegistryKey { name: self.name.clone(), version: self.version.clone() }
    }

    /// Whether two keys name the same install target.
    pub fn same(&self, other: &RegistryKey) -> (r: bool)
        ensures
            r == (self.name@ == other.name@ && self.version@ == other.version@),
    {
        self.name == other.name && self.version == other.version
    }
}

/// A copy of a list of keys.
pub fn duplicate_keys(v: &Vec<RegistryKey>) -> (r: Vec<RegistryKey>)
    ensures
        r@ == v@,
{
    let mut r: Vec<RegistryKey> = Vec::new();
    let mut i: usize = 0;
    while i < v.len()
        invariant
            i <= v@.len(),
            r@ == v@.subrange(0, i as int),
        decreases v@.len() - i,
    {
        r.push(v[i].duplicate());
        i = i + 1;
        assert(r@ =~= v@.subrange(0, i as int));
    }
    assert(v@.subrange(0, i as int) =~= v@);
    r
}

impl PackageType {
    pub fn duplicate(&self) -> (r: PackageType)
        ensures
            r == *self,
    {
        match self {
            PackageType::Prod(s) => PackageType::Prod(s.clone()),
            PackageType::Dev(s) => PackageType::Dev(s.clone()),
            PackageType::Optional(s) => PackageType::Optional(s.clone()),
            PackageType::Peer(s) => PackageType::Peer(s.clone()),
        }
    }
}

impl Package {
    /// A requirement on `name`, with its expression parsed.
    pub fn new(name: String, raw_version: String) -> (r: Result<Package, ParseError>)
        ensures
            match r {
                Ok(p) => p.name == name && p.raw_version == raw_version && expr_spec(raw_version@)
                    == Some(p.version@),
                Err(e) => expr_spec(raw_version@) is None && e.input@ == raw_version@,
            },
    {
        match VersionImpl::new(raw_version.as_str()) {
            Ok(version) => Ok(Package { name, raw_version, version }),
            Err(e) => Err(e),
        }
    }

    /// The requirement written as `name@expression`.
    pub fn to_string(&self) -> (r: String)
        ensures
            r@ == self.name@ + seq!['@'] + self.raw_version@,
    {
        let mut s = self.name.clone();
        crate::text::push_char(&mut s, '@');
        let v = crate::text::chars_of(self.raw_version.as_str());
        crate::text::push_all(&mut s, &v);
        s
    }
}

} // verus!
