//! A package record as a repository index describes it: one stanza of
//! the index document, structured.

use vstd::prelude::*;

use crate::text::{spec_has_string, vec_contains_string};

verus! {

/// One package record from a repository index.
#[derive(Debug)]
pub struct PackageInfo {
    pub name: String,
    pub version: String,
    pub architecture: String,
    pub description: String,
    pub dependencies: Vec<String>,
    pub conflicts: Vec<String>,
    pub provides: Vec<String>,
    pub replaces: Vec<String>,
    pub size: u64,
    pub installed_size: u64,
    pub maintainer: String,
    pub homepage: Option<String>,
    pub section: String,
    pub priority: String,
    pub filename: String,
    pub md5sum: String,
    pub sha256: String,
}

/// Mathematical image of a `PackageInfo`.
pub ghost struct PackageInfoV {
    pub name: Seq<char>,
    pub version: Seq<char>,
    pub architecture: Seq<char>,
    pub description: Seq<char>,
    pub dependencies: Seq<Seq<char>>,
    pub conflicts: Seq<Seq<char>>,
    pub provides: Seq<Seq<char>>,
    pub replaces: Seq<Seq<char>>,
    pub size: u64,
    pub installed_size: u64,
    pub maintainer: Seq<char>,
    pub homepage: Option<Seq<char>>,
    pub section: Seq<char>,
    pub priority: Seq<char>,
    pub filename: Seq<char>,
    pub md5sum: Seq<char>,
    pub sha256: Seq<char>,
}

impl View for PackageInfo {
    type V = PackageInfoV;

    open spec fn view(&self) -> PackageInfoV {
        PackageInfoV {
            name: self.name@,
            version: self.version@,
            architecture: self.architecture@,
            description: self.description@,
            dependencies: self.dependencies.deep_view(),
            conflicts: self.conflicts.deep_view(),
            provides: self.provides.deep_view(),
            replaces: self.replaces.deep_view(),
            size: self.size,
            installed_size: self.installed_size,
            maintainer: self.maintainer@,
            homepage: match self.homepage {
                Some(ref h) => Some(h@),
                None => None,
            },
            section: self.section@,
            priority: self.priority@,
            filename: self.filename@,
            md5sum: self.md5sum@,
            sha256: self.sha256@,
        }
    }
}

impl PackageInfo {
    /// A record with the three required index fields and a description;
    /// everything else empty.
    pub fn new(name: String, version: String, architecture: String, description: String) -> (r:
        Self)
        ensures
            r@.name == name@,
            r@.version == version@,
            r@.architecture == architecture@,
            r@.description == description@,
            r@.dependencies == Seq::<Seq<char>>::empty(),
            r@.conflicts == Seq::<Seq<char>>::empty(),
            r@.provides == Seq::<Seq<char>>::empty(),
            r@.replaces == Seq::<Seq<char>>::empty(),
            r@.size == 0,
            r@.installed_size == 0,
            r@.maintainer == Seq::<char>::empty(),
            r@.homepage is None,
            r@.section == Seq::<char>::empty(),
            r@.priority == Seq::<char>::empty(),
            r@.filename == Seq::<char>::empty(),
            r@.md5sum == Seq::<char>::empty(),
            r@.sha256 == Seq::<char>::empty(),
    {
        Self {
            name,
            version,
            architecture,
            description,
            dependencies: Vec::new(),
            conflicts: Vec::new(),
            provides: Vec::new(),
            replaces: Vec::new(),
            size: 0,
            installed_size: 0,
            maintainer: String::new(),
            homepage: None,
            section: String::new(),
            priority: String::new(),
            filename: String::new(),
            md5sum: String::new(),
            sha256: String::new(),
        }
    }

    /// Appends a dependency specification unless an equal one is already
    /// listed.
    pub fn add_dependency(&mut self, dependency: String)
        ensures
            spec_has_string(old(self)@.dependencies, dependency@) ==> final(self)@ == old(self)@,
            !spec_has_string(old(self)@.dependencies, dependency@) ==> final(self)@ == (
            PackageInfoV { dependencies: old(self)@.dependencies.push(dependency@), ..old(self)@ }),
    {
        if !vec_contains_string(&self.dependencies, dependency.as_str()) {
            let ghost d = dependency@;
            self.dependencies.push(dependency);
            proof {
                assert(self@.dependencies =~= old(self)@.dependencies.push(d));
            }
        }
    }

    pub fn set_size(&mut self, size: u64)
        ensures
            final(self)@ == (PackageInfoV { size, ..old(self)@ }),
    {
        self.size = size;
    }

    pub fn set_installed_size(&mut self, installed_size: u64)
        ensures
            final(self)@ == (PackageInfoV { installed_size, ..old(self)@ }),
    {
        self.installed_size = installed_size;
    }

    pub fn set_maintainer(&mut self, maintainer: String)
        ensures
            final(self)@ == (PackageInfoV { maintainer: maintainer@, ..old(self)@ }),
    {
        self.maintainer = maintainer;
    }

    pub fn set_homepage(&mut self, homepage: String)
        ensures
            final(self)@ == (PackageInfoV { homepage: Some(homepage@), ..old(self)@ }),
    {
        self.homepage = Some(homepage);
    }

    pub fn set_section(&mut self, section: String)
        ensures
            final(self)@ == (PackageInfoV { section: section@, ..old(self)@ }),
    {
        self.section = section;
    }

    pub fn set_priority(&mut self, priority: String)
        ensures
            final(self)@ == (PackageInfoV { priority: priority@, ..old(self)@ }),
    {
        self.priority = priority;
    }

    pub fn set_filename(&mut self, filename: String)
        ensures
            final(self)@ == (PackageInfoV { filename: filename@, ..old(self)@ }),
    {
        self.filename = filename;
    }

    pub fn set_md5sum(&mut self, md5sum: String)
        ensures
            final(self)@ == (PackageInfoV { md5sum: md5sum@, ..old(self)@ }),
    {
        self.md5sum = md5sum;
    }

    pub fn set_sha256(&mut self, sha256: String)
        ensures
            final(self)@ == (PackageInfoV { sha256: sha256@, ..old(self)@ }),
    {
        self.sha256 = sha256;
    }

    /// The cache key `name_version`.
    pub fn get_full_name(&self) -> (r: String)
        ensures
            r@ == self@.name + "_"@ + self@.version,
    {
        let mut s = self.name.clone();
        s.append("_");
        s.append(self.version.as_str());
        s
    }

    /// The dependency-specification strings of this record.
    pub fn get_dependencies(&self) -> (r: &Vec<String>)
        ensures
            r.deep_view() == self@.dependencies,
    {
        &self.dependencies
    }
}

} // verus!
