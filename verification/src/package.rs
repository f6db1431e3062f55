//! An installed package: the durable record the store keeps for each
//! package present on the system.

use vstd::prelude::*;

use crate::dependency::{spec_parse_dep, DepV, PackageDependency};
use crate::package_info::PackageInfo;
use crate::text::{spec_has_string, spec_no_newline, spec_render_lines, spec_trim, spec_u64_string, vec_contains_string};

verus! {

impl DeepView for PackageDependency {
    type V = DepV;

    open spec fn deep_view(&self) -> DepV {
        self@
    }
}

/// An installed package.
#[derive(Debug)]
pub struct Package {
    pub name: String,
    pub version: String,
    pub architecture: String,
    pub description: String,
    pub dependencies: Vec<PackageDependency>,
    pub conflicts: Vec<String>,
    pub provides: Vec<String>,
    pub replaces: Vec<String>,
    pub install_path: String,
    pub files: Vec<String>,
    /// Seconds since the epoch.
    pub install_date: u64,
    pub size: u64,
    pub installed_size: u64,
    pub maintainer: String,
    pub homepage: Option<String>,
    pub section: String,
    pub priority: String,
}

/// Mathematical image of a `Package`.
pub ghost struct PackageV {
    pub name: Seq<char>,
    pub version: Seq<char>,
    pub architecture: Seq<char>,
    pub description: Seq<char>,
    pub dependencies: Seq<DepV>,
    pub conflicts: Seq<Seq<char>>,
    pub provides: Seq<Seq<char>>,
    pub replaces: Seq<Seq<char>>,
    pub install_path: Seq<char>,
    pub files: Seq<Seq<char>>,
    pub install_date: u64,
    pub size: u64,
    pub installed_size: u64,
    pub maintainer: Seq<char>,
    pub homepage: Option<Seq<char>>,
    pub section: Seq<char>,
    pub priority: Seq<char>,
}

impl View for Package {
    type V = PackageV;

    open spec fn view(&self) -> PackageV {
        PackageV {
            name: self.name@,
            version: self.version@,
            architecture: self.architecture@,
            description: self.description@,
            dependencies: self.dependencies.deep_view(),
            conflicts: self.conflicts.deep_view(),
            provides: self.provides.deep_view(),
            replaces: self.replaces.deep_view(),
            install_path: self.install_path@,
            files: self.files.deep_view(),
            install_date: self.install_date,
            size: self.size,
            installed_size: self.installed_size,
            maintainer: self.maintainer@,
            homepage: match self.homepage {
                Some(ref h) => Some(h@),
                None => None,
            },
            section: self.section@,
            priority: self.priority@,
        }
    }
}

impl DeepView for Package {
    type V = PackageV;

    open spec fn deep_view(&self) -> PackageV {
        self@
    }
}

/// Clones a vector of dependencies, keeping its contents.
fn clone_deps(v: &Vec<PackageDependency>) -> (r: Vec<PackageDependency>)
    ensures
        r.deep_view() == v.deep_view(),
{
    let mut r: Vec<PackageDependency> = Vec::new();
    let mut i: usize = 0;
    while i < v.len()
        invariant
            0 <= i <= v.len(),
            v.deep_view().len() == v.len(),
            r.deep_view() =~= v.deep_view().take(i as int),
        decreases v.len() - i,
    {
        let ghost pre = r.deep_view();
        r.push(v[i].clone());
        proof {
            assert(r.deep_view() =~= pre.push(v[i as int]@));
            assert(r.deep_view() =~= v.deep_view().take(i + 1));
        }
        i = i + 1;
    }
    proof {
        assert(v.deep_view().take(v.len() as int) =~= v.deep_view());
    }
    r
}

impl Clone for Package {
    /// A clone carries every field over unchanged.
    fn clone(&self) -> (r: Self)
        ensures
            r@ == self@,
    {
        Package {
            name: self.name.clone(),
            version: self.version.clone(),
            architecture: self.architecture.clone(),
            description: self.description.clone(),
            dependencies: clone_deps(&self.dependencies),
            conflicts: crate::text::clone_strings(&self.conflicts),
            provides: crate::text::clone_strings(&self.provides),
            replaces: crate::text::clone_strings(&self.replaces),
            install_path: self.install_path.clone(),
            files: crate::text::clone_strings(&self.files),
            install_date: self.install_date,
            size: self.size,
            installed_size: self.installed_size,
            maintainer: self.maintainer.clone(),
            homepage: match &self.homepage {
                Some(h) => Some(h.clone()),
                None => None,
            },
            section: self.section.clone(),
            priority: self.priority.clone(),
        }
    }
}

/// The dependencies that a record's specification strings denote, blank
/// ones dropped.
pub open spec fn spec_deps_of(strs: Seq<Seq<char>>) -> Seq<DepV>
    decreases strs.len(),
{
    if strs.len() == 0 {
        Seq::empty()
    } else {
        let rest = spec_deps_of(strs.drop_first());
        match spec_parse_dep(strs.first()) {
            None => rest,
            Some(d) => seq![d] + rest,
        }
    }
}

/// Parses every dependency-specification string of a record, dropping
/// blank ones.
pub fn parse_dependencies(strs: &Vec<String>) -> (r: Vec<PackageDependency>)
    ensures
        r.deep_view() == spec_deps_of(strs.deep_view()),
{
    let mut acc: Vec<PackageDependency> = Vec::new();
    let mut i: usize = 0;
    proof {
        assert(strs.deep_view().skip(0) =~= strs.deep_view());
    }
    while i < strs.len()
        invariant
            0 <= i <= strs.len(),
            strs.deep_view().len() == strs.len(),
            acc.deep_view() + spec_deps_of(strs.deep_view().skip(i as int)) == spec_deps_of(
                strs.deep_view(),
            ),
        decreases strs.len() - i,
    {
        proof {
            assert(strs.deep_view().skip(i as int).first() == strs[i as int]@);
            assert(strs.deep_view().skip(i as int).drop_first() =~= strs.deep_view().skip(i + 1));
        }
        match PackageDependency::from_string(strs[i].as_str()) {
            None => {},
            Some(d) => {
                let ghost pre = acc.deep_view();
                let ghost dv = d@;
                acc.push(d);
                proof {
                    assert(acc.deep_view() =~= pre.push(dv));
                    assert(pre.push(dv) =~= pre + seq![dv]);
                }
            },
        }
        i = i + 1;
    }
    proof {
        assert(strs.deep_view().skip(strs.len() as int) =~= Seq::<Seq<char>>::empty());
        assert(acc.deep_view() =~= spec_deps_of(strs.deep_view()));
    }
    acc
}

impl Package {
    /// An installed package made from an index record: the record's
    /// fields carried over, its dependency strings parsed, the file list
    /// still empty.
    pub fn new(info: PackageInfo, install_path: String, install_date: u64) -> (r: Self)
        ensures
            r@ == (PackageV {
                name: info@.name,
                version: info@.version,
                architecture: info@.architecture,
                description: info@.description,
                dependencies: spec_deps_of(info@.dependencies),
                conflicts: info@.conflicts,
                provides: info@.provides,
                replaces: info@.replaces,
                install_path: install_path@,
                files: Seq::<Seq<char>>::empty(),
                install_date,
                size: info@.size,
                installed_size: info@.installed_size,
                maintainer: info@.maintainer,
                homepage: info@.homepage,
                section: info@.section,
                priority: info@.priority,
            }),
    {
        let dependencies = parse_dependencies(&info.dependencies);
        let r = Self {
            name: info.name,
            version: info.version,
            architecture: info.architecture,
            description: info.description,
            dependencies,
            conflicts: info.conflicts,
            provides: info.provides,
            replaces: info.replaces,
            install_path,
            files: Vec::new(),
            install_date,
            size: info.size,
            installed_size: info.installed_size,
            maintainer: info.maintainer,
            homepage: info.homepage,
            section: info.section,
            priority: info.priority,
        };
        proof {
            assert(r@.files =~= Seq::<Seq<char>>::empty());
        }
        r
    }

    /// Whether the store holds this package, at this exact version.
    pub fn is_installed(&self, store: &crate::store::PackageStore) -> (r: bool)
        ensures
            r == match crate::store::spec_find_pkg(store@, self@.name) {
                None => false,
                Some(i) => store@[i].version == self@.version,
            },
    {
        match store.find(self.name.as_str()) {
            None => false,
            Some(p) => crate::text::str_equal(p.version.as_str(), self.version.as_str()),
        }
    }

    /// Appends a file path unless an equal one is already listed.
    pub fn add_file(&mut self, file: String)
        ensures
            spec_has_string(old(self)@.files, file@) ==> final(self)@ == old(self)@,
            !spec_has_string(old(self)@.files, file@) ==> final(self)@ == (PackageV {
                files: old(self)@.files.push(file@),
                ..old(self)@
            }),
    {
        if !vec_contains_string(&self.files, file.as_str()) {
            let ghost f = file@;
            self.files.push(file);
            proof {
                assert(self@.files =~= old(self)@.files.push(f));
            }
        }
    }

    /// Appends a dependency unless one on the same name is already
    /// listed.
    pub fn add_dependency(&mut self, dependency: PackageDependency)
        ensures
            (exists|i: int|
                0 <= i < old(self)@.dependencies.len() && old(self)@.dependencies[i].name
                    == dependency@.name) ==> final(self)@ == old(self)@,
            !(exists|i: int|
                0 <= i < old(self)@.dependencies.len() && old(self)@.dependencies[i].name
                    == dependency@.name) ==> final(self)@ == (PackageV {
                dependencies: old(self)@.dependencies.push(dependency@),
                ..old(self)@
            }),
    {
        let mut i: usize = 0;
        while i < self.dependencies.len()
            invariant
                0 <= i <= self.dependencies.len(),
                self == old(self),
                forall|j: int| 0 <= j < i ==> self@.dependencies[j].name != dependency@.name,
            decreases self.dependencies.len() - i,
        {
            if crate::text::str_equal(self.dependencies[i].name.as_str(), dependency.name.as_str())
             {
                proof {
                    assert(self@.dependencies[i as int].name == dependency@.name);
                }
                return ;
            }
            proof {
                assert(self@.dependencies[i as int] == self.dependencies[i as int]@);
            }
            i = i + 1;
        }
        let ghost d = dependency@;
        self.dependencies.push(dependency);
        proof {
            assert(self@.dependencies =~= old(self)@.dependencies.push(d));
        }
    }

    /// Appends a conflict name unless an equal one is already listed.
    pub fn add_conflict(&mut self, conflict: String)
        ensures
            spec_has_string(old(self)@.conflicts, conflict@) ==> final(self)@ == old(self)@,
            !spec_has_string(old(self)@.conflicts, conflict@) ==> final(self)@ == (PackageV {
                conflicts: old(self)@.conflicts.push(conflict@),
                ..old(self)@
            }),
    {
        if !vec_contains_string(&self.conflicts, conflict.as_str()) {
            let ghost c = conflict@;
            self.conflicts.push(conflict);
            proof {
                assert(self@.conflicts =~= old(self)@.conflicts.push(c));
            }
        }
    }

    /// Appends a provided virtual name unless an equal one is already
    /// listed.
    pub fn add_provides(&mut self, provides: String)
        ensures
            spec_has_string(old(self)@.provides, provides@) ==> final(self)@ == old(self)@,
            !spec_has_string(old(self)@.provides, provides@) ==> final(self)@ == (PackageV {
                provides: old(self)@.provides.push(provides@),
                ..old(self)@
            }),
    {
        if !vec_contains_string(&self.provides, provides.as_str()) {
            let ghost p = provides@;
            self.provides.push(provides);
            proof {
                assert(self@.provides =~= old(self)@.provides.push(p));
            }
        }
    }

    /// Appends a replaced name unless an equal one is already listed.
    pub fn add_replaces(&mut self, replaces: String)
        ensures
            spec_has_string(old(self)@.replaces, replaces@) ==> final(self)@ == old(self)@,
            !spec_has_string(old(self)@.replaces, replaces@) ==> final(self)@ == (PackageV {
                replaces: old(self)@.replaces.push(replaces@),
                ..old(self)@
            }),
    {
        if !vec_contains_string(&self.replaces, replaces.as_str()) {
            let ghost p = replaces@;
            self.replaces.push(replaces);
            proof {
                assert(self@.replaces =~= old(self)@.replaces.push(p));
            }
        }
    }

    /// The owned file paths.
    pub fn get_files(&self) -> (r: &Vec<String>)
        ensures
            r.deep_view() == self@.files,
    {
        &self.files
    }

    /// The dependencies.
    pub fn get_dependencies(&self) -> (r: &Vec<PackageDependency>)
        ensures
            r.deep_view() == self@.dependencies,
    {
        &self.dependencies
    }

    /// The conflict names.
    pub fn get_conflicts(&self) -> (r: &Vec<String>)
        ensures
            r.deep_view() == self@.conflicts,
    {
        &self.conflicts
    }

    /// The provided virtual names.
    pub fn get_provides(&self) -> (r: &Vec<String>)
        ensures
            r.deep_view() == self@.provides,
    {
        &self.provides
    }

    /// The replaced names.
    pub fn get_replaces(&self) -> (r: &Vec<String>)
        ensures
            r.deep_view() == self@.replaces,
    {
        &self.replaces
    }
}

// ---------------------------------------------------------------------
// The durable record format. One installed package is kept as one text
// document of lines: the scalar fields in a fixed order, then each list
// preceded by its length, one element per line. An optional field is a
// line of `-` for absence or `+` followed by the value.
// ---------------------------------------------------------------------
/// A dependency the record format can carry: a nonblank name without
/// whitespace, a constraint expression that is already trimmed, and no
/// line separators anywhere.
pub open spec fn spec_dep_wf(d: DepV) -> bool {
    d.name.len() > 0 && (forall|i: int|
        0 <= i < d.name.len() ==> (!crate::text::is_space(#[trigger] d.name[i]) && d.name[i]
            != '\n')) && !d.optional && (match d.req {
        None => true,
        Some(r) => spec_trim(r) == r && spec_no_newline(r),
    })
}

/// A package the record format can carry: no line separators in any
/// field, well-formed dependencies, and list lengths a `u64` can count.
pub open spec fn spec_package_wf(p: PackageV) -> bool {
    spec_no_newline(p.name) && spec_no_newline(p.version) && spec_no_newline(p.architecture)
        && spec_no_newline(p.description) && spec_no_newline(p.install_path) && spec_no_newline(
        p.maintainer,
    ) && spec_no_newline(p.section) && spec_no_newline(p.priority) && (match p.homepage {
        None => true,
        Some(h) => spec_no_newline(h),
    }) && (forall|i: int| 0 <= i < p.dependencies.len() ==> spec_dep_wf(#[trigger] p.dependencies[i]))
        && (forall|i: int| 0 <= i < p.conflicts.len() ==> spec_no_newline(#[trigger] p.conflicts[i]))
        && (forall|i: int| 0 <= i < p.provides.len() ==> spec_no_newline(#[trigger] p.provides[i]))
        && (forall|i: int| 0 <= i < p.replaces.len() ==> spec_no_newline(#[trigger] p.replaces[i]))
        && (forall|i: int| 0 <= i < p.files.len() ==> spec_no_newline(#[trigger] p.files[i]))
        && p.dependencies.len() <= u64::MAX && p.conflicts.len() <= u64::MAX && p.provides.len()
        <= u64::MAX && p.replaces.len() <= u64::MAX && p.files.len() <= u64::MAX
}

/// The line an optional value becomes.
pub open spec fn spec_opt_line(h: Option<Seq<char>>) -> Seq<char> {
    match h {
        None => "-"@,
        Some(s) => "+"@ + s,
    }
}

/// The optional value a line denotes.
pub open spec fn spec_parse_opt_line(l: Seq<char>) -> Option<Seq<char>> {
    if l.len() >= 1 && l[0] == '+' {
        Some(l.drop_first())
    } else {
        None
    }
}

/// The lines of a package's durable record.
pub open spec fn spec_record_lines(p: PackageV) -> Seq<Seq<char>> {
    seq![
        p.name,
        p.version,
        p.architecture,
        p.install_path,
        spec_u64_string(p.install_date as nat),
        spec_u64_string(p.size as nat),
        spec_u64_string(p.installed_size as nat),
        p.maintainer,
        p.section,
        p.priority,
        spec_opt_line(p.homepage),
        p.description,
    ] + seq![spec_u64_string(p.dependencies.len())] + p.dependencies.map_values(
        |d: DepV| crate::dependency::spec_dep_string(d),
    ) + seq![spec_u64_string(p.conflicts.len())] + p.conflicts + seq![
        spec_u64_string(p.provides.len()),
    ] + p.provides + seq![spec_u64_string(p.replaces.len())] + p.replaces + seq![
        spec_u64_string(p.files.len()),
    ] + p.files
}

/// The whole durable record document.
pub open spec fn spec_render_record(p: PackageV) -> Seq<char> {
    spec_render_lines(spec_record_lines(p))
}

/// A counted block: the line at `at` gives a length `n`, the `n`
/// following lines are the block; yields the block and the position
/// after it.
pub open spec fn spec_counted_block(lines: Seq<Seq<char>>, at: int) -> Option<
    (Seq<Seq<char>>, int),
> {
    if !(0 <= at < lines.len()) {
        None
    } else {
        match crate::text::spec_parse_u64(lines[at]) {
            None => None,
            Some(n) => if at + 1 + n <= lines.len() {
                Some((lines.subrange(at + 1, at + 1 + n), at + 1 + n))
            } else {
                None
            },
        }
    }
}

/// The package a record's lines denote, if they are well-shaped; any
/// lines after the last block must be empty.
pub open spec fn spec_parse_record_lines(lines: Seq<Seq<char>>) -> Option<PackageV> {
    if lines.len() < 13 {
        None
    } else {
        match (crate::text::spec_parse_u64(lines[4]), crate::text::spec_parse_u64(lines[5]),
        crate::text::spec_parse_u64(lines[6])) {
            (Some(date), Some(size), Some(inst_size)) => match spec_counted_block(lines, 12) {
                None => None,
                Some((dep_lines, at1)) => match spec_counted_block(lines, at1) {
                    None => None,
                    Some((conflicts, at2)) => match spec_counted_block(lines, at2) {
                        None => None,
                        Some((provides, at3)) => match spec_counted_block(lines, at3) {
                            None => None,
                            Some((replaces, at4)) => match spec_counted_block(lines, at4) {
                                None => None,
                                Some((files, at5)) => if forall|k: int|
                                    at5 <= k < lines.len() ==> (#[trigger] lines[k]).len() == 0 {
                                    Some(
                                        PackageV {
                                            name: lines[0],
                                            version: lines[1],
                                            architecture: lines[2],
                                            install_path: lines[3],
                                            install_date: date,
                                            size,
                                            installed_size: inst_size,
                                            maintainer: lines[7],
                                            section: lines[8],
                                            priority: lines[9],
                                            homepage: spec_parse_opt_line(lines[10]),
                                            description: lines[11],
                                            dependencies: spec_deps_of(dep_lines),
                                            conflicts,
                                            provides,
                                            replaces,
                                            files,
                                        },
                                    )
                                } else {
                                    None
                                },
                            },
                        },
                    },
                },
            },
            _ => None,
        }
    }
}

/// The package a durable record document denotes.
pub open spec fn spec_parse_record(doc: Seq<char>) -> Option<PackageV> {
    spec_parse_record_lines(crate::text::spec_split(doc, '\n'))
}

impl Package {
    /// Renders the durable record document for this package.
    #[verifier::rlimit(50)]
    pub fn render_record(&self) -> (r: String)
        ensures
            r@ == spec_render_record(self@),
    {
        let ghost recl = spec_record_lines(self@);
        let mut lines: Vec<String> = Vec::new();
        lines.push(self.name.clone());
        lines.push(self.version.clone());
        lines.push(self.architecture.clone());
        lines.push(self.install_path.clone());
        lines.push(crate::text::u64_to_string(self.install_date));
        lines.push(crate::text::u64_to_string(self.size));
        lines.push(crate::text::u64_to_string(self.installed_size));
        lines.push(self.maintainer.clone());
        lines.push(self.section.clone());
        lines.push(self.priority.clone());
        let opt_line = match &self.homepage {
            None => {
                let mut s = String::new();
                s.append("-");
                proof {
                    assert(s@ =~= "-"@);
                }
                s
            },
            Some(h) => {
                let mut s = String::new();
                s.append("+");
                s.append(h.as_str());
                proof {
                    assert(s@ =~= "+"@ + h@);
                }
                s
            },
        };
        lines.push(opt_line);
        lines.push(self.description.clone());
        lines.push(crate::text::u64_to_string(self.dependencies.len() as u64));
        proof {
            assert(lines.deep_view() =~= recl.take(13));
        }
        let nd = self.dependencies.len();
        let mut i: usize = 0;
        while i < nd
            invariant
                0 <= i <= nd,
                nd == self.dependencies.len(),
                recl == spec_record_lines(self@),
                recl.len() >= 13 + nd,
                lines.deep_view() =~= recl.take(13 + i),
            decreases nd - i,
        {
            proof {
                assert(self@.dependencies[i as int] == self.dependencies[i as int]@);
                assert(recl[13 + i] == crate::dependency::spec_dep_string(
                    self@.dependencies[i as int],
                ));
            }
            let ghost pre = lines.deep_view();
            lines.push(self.dependencies[i].to_string());
            proof {
                assert(lines.deep_view() =~= pre.push(recl[13 + i]));
                assert(lines.deep_view() =~= recl.take(13 + i + 1));
            }
            i = i + 1;
        }
        lines.push(crate::text::u64_to_string(self.conflicts.len() as u64));
        proof {
            assert(lines.deep_view() =~= recl.take(14 + nd));
        }
        push_all(&mut lines, &self.conflicts, Ghost(recl), Ghost(14 + nd as int));
        lines.push(crate::text::u64_to_string(self.provides.len() as u64));
        proof {
            let at = 14 + nd + self.conflicts.len();
            assert(lines.deep_view() =~= recl.take(at + 1));
        }
        push_all(
            &mut lines,
            &self.provides,
            Ghost(recl),
            Ghost(15 + nd as int + self.conflicts.len() as int),
        );
        lines.push(crate::text::u64_to_string(self.replaces.len() as u64));
        proof {
            let at = 15 + nd + self.conflicts.len() + self.provides.len();
            assert(lines.deep_view() =~= recl.take(at + 1));
        }
        push_all(
            &mut lines,
            &self.replaces,
            Ghost(recl),
            Ghost(16 + nd as int + self.conflicts.len() as int + self.provides.len() as int),
        );
        lines.push(crate::text::u64_to_string(self.files.len() as u64));
        proof {
            let at = 16 + nd + self.conflicts.len() + self.provides.len() + self.replaces.len();
            assert(lines.deep_view() =~= recl.take(at + 1));
        }
        push_all(
            &mut lines,
            &self.files,
            Ghost(recl),
            Ghost(
                17 + nd as int + self.conflicts.len() as int + self.provides.len() as int
                    + self.replaces.len() as int,
            ),
        );
        proof {
            assert(lines.deep_view() =~= recl);
        }
        let mut s = String::new();
        let mut k: usize = 0;
        proof {
            assert(lines.deep_view().skip(0) =~= lines.deep_view());
        }
        while k < lines.len()
            invariant
                0 <= k <= lines.len(),
                lines.deep_view() == recl,
                lines.deep_view().len() == lines.len(),
                s@ + spec_render_lines(recl.skip(k as int)) == spec_render_lines(recl),
            decreases lines.len() - k,
        {
            proof {
                assert(recl.skip(k as int).first() == lines[k as int]@);
                assert(recl.skip(k as int).drop_first() =~= recl.skip(k + 1));
            }
            s.append(lines[k].as_str());
            s.push('\n');
            proof {
                assert(s@ + spec_render_lines(recl.skip(k + 1)) =~= spec_render_lines(recl));
            }
            k = k + 1;
        }
        proof {
            assert(recl.skip(lines.len() as int) =~= Seq::<Seq<char>>::empty());
            assert(s@ =~= spec_render_lines(recl));
        }
        s
    }

    /// Parses a durable record document back into a package.
    pub fn parse_record(content: &str) -> (r: Option<Package>)
        ensures
            match r {
                None => spec_parse_record(content@) is None,
                Some(p) => spec_parse_record(content@) == Some(p@),
            },
    {
        let lines = crate::text::split_str(content, '\n');
        let ghost lv = lines.deep_view();
        proof {
            assert(lv == crate::text::spec_split(content@, '\n'));
            assert(lv.len() == lines.len());
        }
        if lines.len() < 13 {
            return None;
        }
        proof {
            assert forall|k: int| 0 <= k < 13 implies lv[k] == lines[k as int]@ by {}
        }
        let date = match crate::text::parse_u64(lines[4].as_str()) {
            None => {
                return None;
            },
            Some(v) => v,
        };
        let size = match crate::text::parse_u64(lines[5].as_str()) {
            None => {
                return None;
            },
            Some(v) => v,
        };
        let inst_size = match crate::text::parse_u64(lines[6].as_str()) {
            None => {
                return None;
            },
            Some(v) => v,
        };
        let (dep_lines, at1) = match read_block(&lines, 12) {
            None => {
                return None;
            },
            Some(b) => b,
        };
        let (conflicts, at2) = match read_block(&lines, at1) {
            None => {
                return None;
            },
            Some(b) => b,
        };
        let (provides, at3) = match read_block(&lines, at2) {
            None => {
                return None;
            },
            Some(b) => b,
        };
        let (replaces, at4) = match read_block(&lines, at3) {
            None => {
                return None;
            },
            Some(b) => b,
        };
        let (files, at5) = match read_block(&lines, at4) {
            None => {
                return None;
            },
            Some(b) => b,
        };
        let mut all_blank = true;
        let mut k = at5;
        while k < lines.len()
            invariant
                at5 <= k <= lines.len(),
                lv == lines.deep_view(),
                lv.len() == lines.len(),
                all_blank ==> forall|j: int| at5 <= j < k ==> (#[trigger] lv[j]).len() == 0,
                !all_blank ==> exists|j: int|
                    at5 <= j < lv.len() && (#[trigger] lv[j]).len() != 0,
            decreases lines.len() - k,
        {
            proof {
                assert(lv[k as int] == lines[k as int]@);
            }
            if lines[k].as_str().unicode_len() != 0 {
                all_blank = false;
            }
            k = k + 1;
        }
        if !all_blank {
            return None;
        }
        let homepage = {
            let l = lines[10].as_str();
            let m = l.unicode_len();
            if m >= 1 && l.get_char(0) == '+' {
                let h = l.substring_char(1, m).to_owned();
                proof {
                    assert(h@ =~= lv[10].drop_first());
                }
                Some(h)
            } else {
                None
            }
        };
        let p = Package {
            name: lines[0].clone(),
            version: lines[1].clone(),
            architecture: lines[2].clone(),
            install_path: lines[3].clone(),
            install_date: date,
            size,
            installed_size: inst_size,
            maintainer: lines[7].clone(),
            section: lines[8].clone(),
            priority: lines[9].clone(),
            homepage,
            description: lines[11].clone(),
            dependencies: parse_dependencies(&dep_lines),
            conflicts,
            provides,
            replaces,
            files,
        };
        proof {
            assert(spec_parse_record_lines(lv) == Some(p@));
        }
        Some(p)
    }
}

/// Appends every string of `items`; the ghost arguments carry where in
/// the record's lines the items stand.
fn push_all(lines: &mut Vec<String>, items: &Vec<String>, Ghost(recl): Ghost<Seq<Seq<char>>>, Ghost(
    at,
): Ghost<int>)
    requires
        0 <= at,
        old(lines).deep_view() =~= recl.take(at),
        at + items.deep_view().len() <= recl.len(),
        forall|j: int|
            0 <= j < items.deep_view().len() ==> recl[at + j] == #[trigger] items.deep_view()[j],
    ensures
        final(lines).deep_view() =~= recl.take(at + items.deep_view().len()),
{
    let mut i: usize = 0;
    while i < items.len()
        invariant
            0 <= i <= items.len(),
            0 <= at,
            items.deep_view().len() == items.len(),
            at + items.len() <= recl.len(),
            forall|j: int|
                0 <= j < items.deep_view().len() ==> recl[at + j] == #[trigger] items.deep_view()[j],
            lines.deep_view() =~= recl.take(at + i),
        decreases items.len() - i,
    {
        let ghost pre = lines.deep_view();
        lines.push(items[i].clone());
        proof {
            assert(items.deep_view()[i as int] == items[i as int]@);
            assert(lines.deep_view() =~= pre.push(recl[at + i]));
            assert(lines.deep_view() =~= recl.take(at + i + 1));
        }
        i = i + 1;
    }
}

/// Reads one counted block, exactly as `spec_counted_block` gives it.
fn read_block(lines: &Vec<String>, at: usize) -> (r: Option<(Vec<String>, usize)>)
    ensures
        match r {
            None => spec_counted_block(lines.deep_view(), at as int) is None,
            Some(b) => spec_counted_block(lines.deep_view(), at as int) == Some(
                (b.0.deep_view(), b.1 as int),
            ),
        },
{
    let ghost lv = lines.deep_view();
    proof {
        assert(lv.len() == lines.len());
    }
    if at >= lines.len() {
        return None;
    }
    proof {
        assert(lv[at as int] == lines[at as int]@);
    }
    let n = match crate::text::parse_u64(lines[at].as_str()) {
        None => {
            return None;
        },
        Some(v) => v,
    };
    let avail = lines.len() - at - 1;
    if n > avail as u64 {
        return None;
    }
    let count = n as usize;
    let mut block: Vec<String> = Vec::new();
    let mut i: usize = 0;
    while i < count
        invariant
            0 <= i <= count,
            at + 1 + count <= lines.len(),
            lv == lines.deep_view(),
            lv.len() == lines.len(),
            block.deep_view() =~= lv.subrange(at + 1, at + 1 + i),
        decreases count - i,
    {
        let ghost pre = block.deep_view();
        block.push(lines[at + 1 + i].clone());
        proof {
            assert(lv[at + 1 + i] == lines[(at + 1 + i) as int]@);
            assert(block.deep_view() =~= pre.push(lv[at + 1 + i]));
            assert(block.deep_view() =~= lv.subrange(at + 1, at + 1 + i + 1));
        }
        i = i + 1;
    }
    Some((block, at + 1 + count))
}

/// A well-formed dependency survives its textual form unchanged.
pub proof fn lemma_dep_roundtrip(d: DepV)
    requires
        spec_dep_wf(d),
    ensures
        spec_parse_dep(crate::dependency::spec_dep_string(d)) == Some(d),
{
    let s = crate::dependency::spec_dep_string(d);
    match d.req {
        None => {
            assert(s == d.name);
            assert(!crate::text::is_space(s[0]));
            assert(!crate::text::is_space(s[s.len() - 1]));
            assert(spec_trim(s) == s) by {
                assert(crate::text::spec_trim_front(s) == s);
                assert(crate::text::spec_trim_back(s) == s);
            }
            crate::text::lemma_find_char(s, ' ');
            match crate::text::spec_find_char(s, ' ') {
                None => {},
                Some(i) => {
                    assert(crate::text::is_space(s[i]));
                    assert(false);
                },
            }
        },
        Some(r) => {
            reveal_strlit(" (");
            reveal_strlit(")");
            assert(s =~= d.name + seq![' ', '('] + r + seq![')']);
            assert(s[0] == d.name[0]);
            assert(!crate::text::is_space(s[0]));
            assert(s[s.len() - 1] == ')');
            assert(spec_trim(s) == s) by {
                assert(crate::text::spec_trim_front(s) == s);
                assert(crate::text::spec_trim_back(s) == s);
            }
            let nl = d.name.len() as int;
            assert(s[nl] == ' ');
            assert forall|j: int| 0 <= j < nl implies s[j] != ' ' by {
                assert(s[j] == d.name[j]);
            }
            crate::text::lemma_find_char(s, ' ');
            match crate::text::spec_find_char(s, ' ') {
                None => {
                    assert(false);
                },
                Some(i) => {
                    if i < nl {
                        assert(false);
                    }
                    if i > nl {
                        assert(false);
                    }
                    assert(i == nl);
                    assert(s.take(i) =~= d.name);
                    let rest0 = s.skip(i + 1);
                    assert(rest0 =~= seq!['('] + r + seq![')']);
                    assert(rest0[0] == '(');
                    assert(rest0[rest0.len() - 1] == ')');
                    let rest = spec_trim(rest0);
                    assert(rest == rest0) by {
                        assert(crate::text::spec_trim_front(rest0) == rest0);
                        assert(crate::text::spec_trim_back(rest0) == rest0);
                    }
                    assert(rest.len() >= 2);
                    assert(rest.subrange(1, rest.len() - 1) =~= r);
                    assert(spec_trim(r) == r);
                },
            }
        },
    }
}

/// Well-formed dependencies survive their textual forms unchanged.
proof fn lemma_deps_roundtrip(deps: Seq<DepV>)
    requires
        forall|i: int| 0 <= i < deps.len() ==> spec_dep_wf(#[trigger] deps[i]),
    ensures
        spec_deps_of(deps.map_values(|d: DepV| crate::dependency::spec_dep_string(d))) == deps,
    decreases deps.len(),
{
    let strs = deps.map_values(|d: DepV| crate::dependency::spec_dep_string(d));
    if deps.len() == 0 {
        assert(spec_deps_of(strs) =~= deps);
    } else {
        lemma_dep_roundtrip(deps.first());
        lemma_deps_roundtrip(deps.drop_first());
        assert(strs.first() == crate::dependency::spec_dep_string(deps.first()));
        assert(strs.drop_first() =~= deps.drop_first().map_values(
            |d: DepV| crate::dependency::spec_dep_string(d),
        ));
        assert(spec_deps_of(strs) =~= deps) by {
            assert(spec_deps_of(strs) == seq![deps.first()] + spec_deps_of(strs.drop_first()));
        }
    }
}

/// Law: a record written for a well-formed installed package and read
/// back reproduces the package exactly — its name, version and file
/// list among every other field.
pub proof fn lemma_record_roundtrip(p: PackageV)
    requires
        spec_package_wf(p),
    ensures
        spec_parse_record(spec_render_record(p)) == Some(p),
{
    let recl = spec_record_lines(p);
    let depstrs = p.dependencies.map_values(|d: DepV| crate::dependency::spec_dep_string(d));
    assert forall|i: int| 0 <= i < recl.len() implies spec_no_newline(#[trigger] recl[i]) by {
        lemma_record_lines_no_newline(p, i);
    }
    crate::text::lemma_split_of_render(recl);
    let lines = recl.push(Seq::<char>::empty());
    assert(crate::text::spec_split(spec_render_record(p), '\n') == lines);
    let nd = p.dependencies.len() as int;
    let nc = p.conflicts.len() as int;
    let np = p.provides.len() as int;
    let nr = p.replaces.len() as int;
    let nf = p.files.len() as int;
    assert(lines.len() == 18 + nd + nc + np + nr + nf);
    crate::text::lemma_u64_string_roundtrip(p.install_date as nat);
    crate::text::lemma_u64_string_roundtrip(p.size as nat);
    crate::text::lemma_u64_string_roundtrip(p.installed_size as nat);
    crate::text::lemma_u64_string_roundtrip(p.dependencies.len());
    crate::text::lemma_u64_string_roundtrip(p.conflicts.len());
    crate::text::lemma_u64_string_roundtrip(p.provides.len());
    crate::text::lemma_u64_string_roundtrip(p.replaces.len());
    crate::text::lemma_u64_string_roundtrip(p.files.len());
    assert(lines[4] == spec_u64_string(p.install_date as nat));
    assert(lines[5] == spec_u64_string(p.size as nat));
    assert(lines[6] == spec_u64_string(p.installed_size as nat));
    assert(lines[12] == spec_u64_string(p.dependencies.len()));
    assert(lines.subrange(13, 13 + nd) =~= depstrs);
    assert(spec_counted_block(lines, 12) == Some((depstrs, 13 + nd)));
    assert(lines[13 + nd] == spec_u64_string(p.conflicts.len()));
    assert(lines.subrange(14 + nd, 14 + nd + nc) =~= p.conflicts);
    assert(spec_counted_block(lines, 13 + nd) == Some((p.conflicts, 14 + nd + nc)));
    assert(lines[14 + nd + nc] == spec_u64_string(p.provides.len()));
    assert(lines.subrange(15 + nd + nc, 15 + nd + nc + np) =~= p.provides);
    assert(spec_counted_block(lines, 14 + nd + nc) == Some((p.provides, 15 + nd + nc + np)));
    assert(lines[15 + nd + nc + np] == spec_u64_string(p.replaces.len()));
    assert(lines.subrange(16 + nd + nc + np, 16 + nd + nc + np + nr) =~= p.replaces);
    assert(spec_counted_block(lines, 15 + nd + nc + np) == Some(
        (p.replaces, 16 + nd + nc + np + nr),
    ));
    assert(lines[16 + nd + nc + np + nr] == spec_u64_string(p.files.len()));
    assert(lines.subrange(17 + nd + nc + np + nr, 17 + nd + nc + np + nr + nf) =~= p.files);
    assert(spec_counted_block(lines, 16 + nd + nc + np + nr) == Some(
        (p.files, 17 + nd + nc + np + nr + nf),
    ));
    assert(lines[17 + nd + nc + np + nr + nf].len() == 0);
    lemma_deps_roundtrip(p.dependencies);
    assert(spec_parse_opt_line(spec_opt_line(p.homepage)) == p.homepage) by {
        reveal_strlit("-");
        reveal_strlit("+");
        match p.homepage {
            None => {},
            Some(h) => {
                assert(("+"@ + h).drop_first() =~= h);
            },
        }
    }
    match spec_parse_record_lines(lines) {
        None => {
            assert(false);
        },
        Some(q) => {
            assert(q == p);
        },
    }
}

/// Each line of a well-formed package's record is free of line
/// separators.
proof fn lemma_record_lines_no_newline(p: PackageV, i: int)
    requires
        spec_package_wf(p),
        0 <= i < spec_record_lines(p).len(),
    ensures
        spec_no_newline(spec_record_lines(p)[i]),
{
    let recl = spec_record_lines(p);
    let nd = p.dependencies.len() as int;
    let nc = p.conflicts.len() as int;
    let np = p.provides.len() as int;
    let nr = p.replaces.len() as int;
    crate::text::lemma_u64_string_roundtrip(p.install_date as nat);
    crate::text::lemma_u64_string_roundtrip(p.size as nat);
    crate::text::lemma_u64_string_roundtrip(p.installed_size as nat);
    crate::text::lemma_u64_string_roundtrip(p.dependencies.len());
    crate::text::lemma_u64_string_roundtrip(p.conflicts.len());
    crate::text::lemma_u64_string_roundtrip(p.provides.len());
    crate::text::lemma_u64_string_roundtrip(p.replaces.len());
    crate::text::lemma_u64_string_roundtrip(p.files.len());
    assert forall|s: Seq<char>|
        (forall|k: int| 0 <= k < s.len() ==> crate::text::is_digit(#[trigger] s[k]))
            implies spec_no_newline(s) by {
        assert forall|k: int| 0 <= k < s.len() implies s[k] != '\n' by {
            assert(crate::text::is_digit(s[k]));
        }
    }
    assert(spec_no_newline(spec_opt_line(p.homepage))) by {
        reveal_strlit("-");
        reveal_strlit("+");
        match p.homepage {
            None => {},
            Some(h) => {
                assert forall|k: int| 0 <= k < ("+"@ + h).len() implies ("+"@ + h)[k] != '\n' by {
                    if k >= 1 {
                        assert(("+"@ + h)[k] == h[k - 1]);
                    }
                }
            },
        }
    }
    if 13 <= i < 13 + nd {
        let d = p.dependencies[i - 13];
        assert(spec_dep_wf(d));
        let s = crate::dependency::spec_dep_string(d);
        assert(recl[i] == s);
        assert(spec_no_newline(s)) by {
            reveal_strlit(" (");
            reveal_strlit(")");
            match d.req {
                None => {},
                Some(r) => {
                    assert(s =~= d.name + seq![' ', '('] + r + seq![')']);
                    assert forall|k: int| 0 <= k < s.len() implies s[k] != '\n' by {
                        if k < d.name.len() {
                            assert(s[k] == d.name[k]);
                        } else if k < d.name.len() + 2 {
                        } else if k < d.name.len() + 2 + r.len() {
                            assert(s[k] == r[k - d.name.len() - 2]);
                        } else {
                        }
                    }
                },
            }
        }
    } else if 14 + nd <= i < 14 + nd + nc {
        assert(recl[i] == p.conflicts[i - 14 - nd]);
    } else if 15 + nd + nc <= i < 15 + nd + nc + np {
        assert(recl[i] == p.provides[i - 15 - nd - nc]);
    } else if 16 + nd + nc + np <= i < 16 + nd + nc + np + nr {
        assert(recl[i] == p.replaces[i - 16 - nd - nc - np]);
    } else if 17 + nd + nc + np + nr <= i {
        assert(recl[i] == p.files[i - 17 - nd - nc - np - nr]);
    }
}

} // verus!
