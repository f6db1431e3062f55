//! Repository entries and the repository list. A repository is a
//! metadata source: a validated base URL, an enabled flag, an integer
//! priority (higher wins), a distribution label, and its components and
//! architectures. URL validation and joining are delegated to the `url`
//! crate; everything else is verified here.

use vstd::prelude::*;

use crate::text::{spec_has_string, str_equal, vec_contains_string};

verus! {

/// What `url::Url::parse` makes of a string: its scheme and whether it
/// has a host, or `None` where parsing fails.
pub uninterp spec fn url_parts_of(s: Seq<char>) -> Option<(Seq<char>, bool)>;

/// Relies on `url::Url::parse`: the scheme and host presence of a URL
/// string, `None` exactly where the string is not a valid URL.
#[verifier::external_body]
fn parse_url_parts(s: &str) -> (r: Option<(String, bool)>)
    ensures
        match r {
            Some(p) => url_parts_of(s@) == Some((p.0@, p.1)),
            None => url_parts_of(s@) is None,
        },
{
    match url::Url::parse(s) {
        Ok(u) => Some((u.scheme().to_string(), u.host().is_some())),
        Err(_) => None,
    }
}

/// What joining `rel` against the URL `base` yields, or `None` where
/// `base` does not parse or the join fails.
pub uninterp spec fn url_join_of(base: Seq<char>, rel: Seq<char>) -> Option<Seq<char>>;

/// Relies on `url::Url::parse` and `url::Url::join`: the absolute URL
/// that `rel` denotes against `base`.
#[verifier::external_body]
fn join_url(base: &str, rel: &str) -> (r: Option<String>)
    ensures
        match r {
            Some(u) => url_join_of(base@, rel@) == Some(u@),
            None => url_join_of(base@, rel@) is None,
        },
{
    match url::Url::parse(base) {
        Ok(b) => match b.join(rel) {
            Ok(u) => Some(u.as_str().to_string()),
            Err(_) => None,
        },
        Err(_) => None,
    }
}

/// One repository entry.
#[derive(Debug)]
pub struct Repository {
    pub name: String,
    pub url: String,
    pub enabled: bool,
    pub priority: i32,
    pub distribution: String,
    pub components: Vec<String>,
    pub architectures: Vec<String>,
}

/// Mathematical image of a `Repository`.
pub ghost struct RepositoryV {
    pub name: Seq<char>,
    pub url: Seq<char>,
    pub enabled: bool,
    pub priority: i32,
    pub distribution: Seq<char>,
    pub components: Seq<Seq<char>>,
    pub architectures: Seq<Seq<char>>,
}

impl View for Repository {
    type V = RepositoryV;

    open spec fn view(&self) -> RepositoryV {
        RepositoryV {
            name: self.name@,
            url: self.url@,
            enabled: self.enabled,
            priority: self.priority,
            distribution: self.distribution@,
            components: self.components.deep_view(),
            architectures: self.architectures.deep_view(),
        }
    }
}

impl DeepView for Repository {
    type V = RepositoryV;

    open spec fn deep_view(&self) -> RepositoryV {
        self@
    }
}

impl Clone for Repository {
    /// A clone carries every field over unchanged.
    fn clone(&self) -> (r: Self)
        ensures
            r@ == self@,
    {
        Repository {
            name: self.name.clone(),
            url: self.url.clone(),
            enabled: self.enabled,
            priority: self.priority,
            distribution: self.distribution.clone(),
            components: crate::text::clone_strings(&self.components),
            architectures: crate::text::clone_strings(&self.architectures),
        }
    }
}

/// Whether the URL string is acceptable for a repository: it parses,
/// its scheme is `http` or `https`, and it has a host.
pub open spec fn spec_url_ok(s: Seq<char>) -> bool {
    match url_parts_of(s) {
        None => false,
        Some((scheme, has_host)) => (scheme == "http"@ || scheme == "https"@) && has_host,
    }
}

impl Repository {
    /// A repository over a validated base URL, enabled, at priority
    /// 100, for the `stable` distribution with the `main` component and
    /// the common architectures; an invalid URL is rejected with a
    /// message.
    pub fn new(name: String, url_str: &str) -> (r: Result<Self, String>)
        ensures
            match r {
                Ok(repo) => spec_url_ok(url_str@) && repo@ == (RepositoryV {
                    name: name@,
                    url: url_str@,
                    enabled: true,
                    priority: 100,
                    distribution: "stable"@,
                    components: seq!["main"@],
                    architectures: seq!["amd64"@, "i386"@],
                }),
                Err(_) => !spec_url_ok(url_str@),
            },
    {
        match parse_url_parts(url_str) {
            None => Err("Invalid URL".to_owned()),
            Some((scheme, has_host)) => {
                let http = str_equal(scheme.as_str(), "http");
                let https = str_equal(scheme.as_str(), "https");
                if !(http || https) {
                    return Err(
                        "Invalid URL scheme. Only http and https are supported".to_owned(),
                    );
                }
                if !has_host {
                    return Err("URL must have a host".to_owned());
                }
                let mut components: Vec<String> = Vec::new();
                components.push("main".to_owned());
                let mut architectures: Vec<String> = Vec::new();
                architectures.push("amd64".to_owned());
                architectures.push("i386".to_owned());
                let repo = Repository {
                    name,
                    url: url_str.to_owned(),
                    enabled: true,
                    priority: 100,
                    distribution: "stable".to_owned(),
                    components,
                    architectures,
                };
                proof {
                    assert(repo@.components =~= seq!["main"@]);
                    assert(repo@.architectures =~= seq!["amd64"@, "i386"@]);
                }
                Ok(repo)
            },
        }
    }

    /// Turns the repository on.
    pub fn enable(&mut self)
        ensures
            final(self)@ == (RepositoryV { enabled: true, ..old(self)@ }),
    {
        self.enabled = true;
    }

    /// Turns the repository off.
    pub fn disable(&mut self)
        ensures
            final(self)@ == (RepositoryV { enabled: false, ..old(self)@ }),
    {
        self.enabled = false;
    }

    /// Sets the repository's priority.
    pub fn set_priority(&mut self, priority: i32)
        ensures
            final(self)@ == (RepositoryV { priority, ..old(self)@ }),
    {
        self.priority = priority;
    }

    /// Appends a component unless an equal one is already listed.
    pub fn add_component(&mut self, component: String)
        ensures
            spec_has_string(old(self)@.components, component@) ==> final(self)@ == old(self)@,
            !spec_has_string(old(self)@.components, component@) ==> final(self)@ == (RepositoryV {
                components: old(self)@.components.push(component@),
                ..old(self)@
            }),
    {
        if !vec_contains_string(&self.components, component.as_str()) {
            let ghost c = component@;
            self.components.push(component);
            proof {
                assert(self@.components =~= old(self)@.components.push(c));
            }
        }
    }

    /// Drops every component equal to `component`.
    pub fn remove_component(&mut self, component: &str)
        ensures
            final(self)@ == (RepositoryV {
                components: old(self)@.components.filter(|c: Seq<char>| c != component@),
                ..old(self)@
            }),
    {
        self.components = crate::text::filter_strings_keep_ne(&self.components, component);
    }

    /// Appends an architecture unless an equal one is already listed.
    pub fn add_architecture(&mut self, arch: String)
        ensures
            spec_has_string(old(self)@.architectures, arch@) ==> final(self)@ == old(self)@,
            !spec_has_string(old(self)@.architectures, arch@) ==> final(self)@ == (RepositoryV {
                architectures: old(self)@.architectures.push(arch@),
                ..old(self)@
            }),
    {
        if !vec_contains_string(&self.architectures, arch.as_str()) {
            let ghost a = arch@;
            self.architectures.push(arch);
            proof {
                assert(self@.architectures =~= old(self)@.architectures.push(a));
            }
        }
    }

    /// Drops every architecture equal to `arch`.
    pub fn remove_architecture(&mut self, arch: &str)
        ensures
            final(self)@ == (RepositoryV {
                architectures: old(self)@.architectures.filter(|c: Seq<char>| c != arch@),
                ..old(self)@
            }),
    {
        self.architectures = crate::text::filter_strings_keep_ne(&self.architectures, arch);
    }

    /// The relative path of a component's package list:
    /// `dists/{distribution}/{component}/{arch}/Packages`.
    pub open spec fn spec_list_path(self_v: RepositoryV, component: Seq<char>, arch: Seq<char>) -> Seq<
        char,
    > {
        "dists/"@ + self_v.distribution + "/"@ + component + "/"@ + arch + "/Packages"@
    }

    /// The URL of a component's package list, joined against the base
    /// URL; an unjoinable pair is rejected with a message.
    pub fn get_package_list_url(&self, component: &str, arch: &str) -> (r: Result<String, String>)
        ensures
            match r {
                Ok(u) => url_join_of(self@.url, Self::spec_list_path(self@, component@, arch@))
                    == Some(u@),
                Err(_) => url_join_of(self@.url, Self::spec_list_path(self@, component@, arch@))
                    is None,
            },
    {
        let mut path = String::new();
        path.append("dists/");
        path.append(self.distribution.as_str());
        path.append("/");
        path.append(component);
        path.append("/");
        path.append(arch);
        path.append("/Packages");
        proof {
            assert(path@ =~= Self::spec_list_path(self@, component@, arch@));
        }
        match join_url(self.url.as_str(), path.as_str()) {
            Some(u) => Ok(u),
            None => Err("Failed to create package list URL".to_owned()),
        }
    }

    /// The relative path of the release document:
    /// `dists/{distribution}/Release`.
    pub open spec fn spec_release_path(self_v: RepositoryV) -> Seq<char> {
        "dists/"@ + self_v.distribution + "/Release"@
    }

    /// The URL of the release document, joined against the base URL.
    pub fn get_release_url(&self) -> (r: Result<String, String>)
        ensures
            match r {
                Ok(u) => url_join_of(self@.url, Self::spec_release_path(self@)) == Some(u@),
                Err(_) => url_join_of(self@.url, Self::spec_release_path(self@)) is None,
            },
    {
        let mut path = String::new();
        path.append("dists/");
        path.append(self.distribution.as_str());
        path.append("/Release");
        proof {
            assert(path@ =~= Self::spec_release_path(self@));
        }
        match join_url(self.url.as_str(), path.as_str()) {
            Some(u) => Ok(u),
            None => Err("Failed to create release URL".to_owned()),
        }
    }
}

/// Index of the first repository named `name`.
pub open spec fn spec_find_repo(s: Seq<RepositoryV>, name: Seq<char>) -> Option<int>
    decreases s.len(),
{
    if s.len() == 0 {
        None
    } else if s[0].name == name {
        Some(0)
    } else {
        match spec_find_repo(s.drop_first(), name) {
            None => None,
            Some(i) => Some(i + 1),
        }
    }
}

pub proof fn lemma_find_repo(s: Seq<RepositoryV>, name: Seq<char>)
    ensures
        match spec_find_repo(s, name) {
            None => forall|j: int| 0 <= j < s.len() ==> (#[trigger] s[j]).name != name,
            Some(i) => 0 <= i < s.len() && s[i].name == name && (forall|j: int|
                0 <= j < i ==> (#[trigger] s[j]).name != name),
        },
    decreases s.len(),
{
    if s.len() > 0 && s[0].name != name {
        lemma_find_repo(s.drop_first(), name);
        assert forall|j: int| 1 <= j < s.len() implies s[j] == s.drop_first()[j - 1] by {}
    }
}

/// The ordered list of configured repositories; persisting it to disk
/// is the caller's business.
#[derive(Debug)]
pub struct RepositoryManager {
    pub repositories: Vec<Repository>,
    pub config_path: String,
}

impl View for RepositoryManager {
    type V = Seq<RepositoryV>;

    open spec fn view(&self) -> Seq<RepositoryV> {
        self.repositories.deep_view()
    }
}

impl RepositoryManager {
    /// An empty list, remembering where it would be persisted.
    pub fn new(config_path: String) -> (r: Self)
        ensures
            r@ == Seq::<RepositoryV>::empty(),
            r.config_path@ == config_path@,
    {
        let r = RepositoryManager { repositories: Vec::new(), config_path };
        proof {
            assert(r@ =~= Seq::<RepositoryV>::empty());
        }
        r
    }

    /// Replaces the list with one loaded from persistent storage.
    pub fn set_repositories(&mut self, repos: Vec<Repository>)
        ensures
            final(self)@ == repos.deep_view(),
            final(self).config_path == old(self).config_path,
    {
        self.repositories = repos;
    }

    fn find_index(&self, name: &str) -> (r: Option<usize>)
        ensures
            match r {
                None => spec_find_repo(self@, name@) is None,
                Some(i) => spec_find_repo(self@, name@) == Some(i as int),
            },
    {
        let mut i: usize = 0;
        let n = self.repositories.len();
        proof {
            assert(self@.len() == n as int);
        }
        while i < n
            invariant
                0 <= i <= n,
                n == self.repositories.len(),
                self@.len() == n as int,
                forall|j: int| 0 <= j < i ==> (#[trigger] self@[j]).name != name@,
            decreases n - i,
        {
            proof {
                assert(self@[i as int] == self.repositories[i as int]@);
            }
            if str_equal(self.repositories[i].name.as_str(), name) {
                proof {
                    lemma_find_repo(self@, name@);
                }
                return Some(i);
            }
            i = i + 1;
        }
        proof {
            lemma_find_repo(self@, name@);
        }
        None
    }

    /// Adds a repository; a second repository under an existing name is
    /// rejected with a message.
    pub fn add_repository(&mut self, repo: Repository) -> (r: Result<(), String>)
        ensures
            match r {
                Ok(_) => spec_find_repo(old(self)@, repo@.name) is None && final(self)@ == old(
                    self,
                )@.push(repo@),
                Err(_) => spec_find_repo(old(self)@, repo@.name) is Some && final(self)@ == old(
                    self,
                )@,
            },
            final(self).config_path == old(self).config_path,
    {
        match self.find_index(repo.name.as_str()) {
            Some(_) => Err("Repository with this name already exists".to_owned()),
            None => {
                let ghost rv = repo@;
                self.repositories.push(repo);
                proof {
                    assert(self@ =~= old(self)@.push(rv));
                }
                Ok(())
            },
        }
    }

    /// Drops every repository named `name`; reports whether one
    /// existed.
    pub fn remove_repository(&mut self, name: &str) -> (r: bool)
        ensures
            final(self)@ == old(self)@.filter(|x: RepositoryV| x.name != name@),
            r == (spec_find_repo(old(self)@, name@) is Some),
            final(self).config_path == old(self).config_path,
    {
        let ghost pred = |x: RepositoryV| x.name != name@;
        let existed = self.find_index(name).is_some();
        let mut kept: Vec<Repository> = Vec::new();
        let mut i: usize = 0;
        let n = self.repositories.len();
        proof {
            lemma_find_repo(self@, name@);
            assert(self@.len() == n as int);
            assert(kept.deep_view() =~= self@.take(0).filter(pred));
        }
        while i < n
            invariant
                0 <= i <= n,
                n == self.repositories.len(),
                self@.len() == n as int,
                pred == (|x: RepositoryV| x.name != name@),
                kept.deep_view() == self@.take(i as int).filter(pred),
            decreases n - i,
        {
            proof {
                assert(self@[i as int] == self.repositories[i as int]@);
                assert(self@.take(i + 1) =~= self@.take(i as int) + seq![self@[i as int]]);
                Seq::filter_distributes_over_add(self@.take(i as int), seq![self@[i as int]], pred);
                reveal_with_fuel(Seq::filter, 2);
                assert(seq![self@[i as int]].drop_last() =~= Seq::<RepositoryV>::empty());
            }
            if !str_equal(self.repositories[i].name.as_str(), name) {
                let ghost pre = kept.deep_view();
                kept.push(self.repositories[i].clone());
                proof {
                    assert(kept.deep_view() =~= pre.push(self@[i as int]));
                }
            }
            i = i + 1;
        }
        proof {
            assert(self@.take(n as int) =~= self@);
        }
        self.repositories = kept;
        existed
    }

    /// The repository named `name`, if any.
    pub fn get_repository(&self, name: &str) -> (r: Option<&Repository>)
        ensures
            match spec_find_repo(self@, name@) {
                None => r is None,
                Some(i) => r matches Some(rep) && rep@ == self@[i],
            },
    {
        match self.find_index(name) {
            None => None,
            Some(i) => {
                proof {
                    lemma_find_repo(self@, name@);
                    assert(self@[i as int] == self.repositories[i as int]@);
                }
                Some(&self.repositories[i])
            },
        }
    }

    /// Every configured repository, in order.
    pub fn list_repositories(&self) -> (r: &Vec<Repository>)
        ensures
            r.deep_view() == self@,
    {
        &self.repositories
    }

    /// The enabled repositories, in order.
    pub fn list_enabled_repositories(&self) -> (r: Vec<Repository>)
        ensures
            r.deep_view() == self@.filter(|x: RepositoryV| x.enabled),
    {
        let ghost pred = |x: RepositoryV| x.enabled;
        let mut acc: Vec<Repository> = Vec::new();
        let mut i: usize = 0;
        let n = self.repositories.len();
        proof {
            assert(self@.len() == n as int);
            assert(acc.deep_view() =~= self@.take(0).filter(pred));
        }
        while i < n
            invariant
                0 <= i <= n,
                n == self.repositories.len(),
                self@.len() == n as int,
                pred == (|x: RepositoryV| x.enabled),
                acc.deep_view() == self@.take(i as int).filter(pred),
            decreases n - i,
        {
            proof {
                assert(self@[i as int] == self.repositories[i as int]@);
                assert(self@.take(i + 1) =~= self@.take(i as int) + seq![self@[i as int]]);
                Seq::filter_distributes_over_add(self@.take(i as int), seq![self@[i as int]], pred);
                reveal_with_fuel(Seq::filter, 2);
                assert(seq![self@[i as int]].drop_last() =~= Seq::<RepositoryV>::empty());
            }
            if self.repositories[i].enabled {
                let ghost pre = acc.deep_view();
                acc.push(self.repositories[i].clone());
                proof {
                    assert(acc.deep_view() =~= pre.push(self@[i as int]));
                }
            }
            i = i + 1;
        }
        proof {
            assert(self@.take(n as int) =~= self@);
        }
        acc
    }

    /// Turns the repository named `name` on; reports whether one
    /// existed.
    pub fn enable_repository(&mut self, name: &str) -> (r: bool)
        ensures
            match spec_find_repo(old(self)@, name@) {
                None => final(self)@ == old(self)@ && !r,
                Some(i) => final(self)@ == old(self)@.update(
                    i,
                    (RepositoryV { enabled: true, ..old(self)@[i] }),
                ) && r,
            },
            final(self).config_path == old(self).config_path,
    {
        self.set_enabled(name, true)
    }

    /// Turns the repository named `name` off; reports whether one
    /// existed.
    pub fn disable_repository(&mut self, name: &str) -> (r: bool)
        ensures
            match spec_find_repo(old(self)@, name@) {
                None => final(self)@ == old(self)@ && !r,
                Some(i) => final(self)@ == old(self)@.update(
                    i,
                    (RepositoryV { enabled: false, ..old(self)@[i] }),
                ) && r,
            },
            final(self).config_path == old(self).config_path,
    {
        self.set_enabled(name, false)
    }

    fn set_enabled(&mut self, name: &str, enabled: bool) -> (r: bool)
        ensures
            match spec_find_repo(old(self)@, name@) {
                None => final(self)@ == old(self)@ && !r,
                Some(i) => final(self)@ == old(self)@.update(
                    i,
                    (RepositoryV { enabled, ..old(self)@[i] }),
                ) && r,
            },
            final(self).config_path == old(self).config_path,
    {
        match self.find_index(name) {
            None => false,
            Some(i) => {
                proof {
                    lemma_find_repo(self@, name@);
                    assert(self@[i as int] == self.repositories[i as int]@);
                }
                let old_rep = self.repositories.remove(i);
                let new_rep = Repository { enabled, ..old_rep };
                self.repositories.insert(i, new_rep);
                proof {
                    assert(self@ =~= old(self)@.update(i as int, self@[i as int]));
                    assert(self@[i as int] == (RepositoryV { enabled, ..old(self)@[i as int] }));
                    assert(self@ =~= old(self)@.update(
                        i as int,
                        (RepositoryV { enabled, ..old(self)@[i as int] }),
                    ));
                }
                true
            },
        }
    }
}

} // verus!
