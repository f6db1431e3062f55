//! The package store: the registry of installed packages. One record
//! per package name at any time; `record` overwrites any prior entry for
//! the same name.

use vstd::prelude::*;

use crate::dependency::spec_dep_matches;
use crate::package::{Package, PackageV};
use crate::text::str_equal;

verus! {

/// The registry of installed packages.
#[derive(Debug)]
pub struct PackageStore {
    pub packages: Vec<Package>,
}

impl View for PackageStore {
    type V = Seq<PackageV>;

    open spec fn view(&self) -> Seq<PackageV> {
        self.packages.deep_view()
    }
}

/// Index of the first package named `name`.
pub open spec fn spec_find_pkg(s: Seq<PackageV>, name: Seq<char>) -> Option<int>
    decreases s.len(),
{
    if s.len() == 0 {
        None
    } else if s[0].name == name {
        Some(0)
    } else {
        match spec_find_pkg(s.drop_first(), name) {
            None => None,
            Some(i) => Some(i + 1),
        }
    }
}

pub proof fn lemma_find_pkg(s: Seq<PackageV>, name: Seq<char>)
    ensures
        match spec_find_pkg(s, name) {
            None => forall|j: int| 0 <= j < s.len() ==> s[j].name != name,
            Some(i) => 0 <= i < s.len() && s[i].name == name && (forall|j: int|
                0 <= j < i ==> s[j].name != name),
        },
    decreases s.len(),
{
    if s.len() > 0 && s[0].name != name {
        lemma_find_pkg(s.drop_first(), name);
        assert forall|j: int| 1 <= j < s.len() implies s[j] == s.drop_first()[j - 1] by {}
    }
}

/// What the store looks like after recording `p`: the entry of the same
/// name replaced, or `p` appended.
pub open spec fn spec_record(s: Seq<PackageV>, p: PackageV) -> Seq<PackageV> {
    match spec_find_pkg(s, p.name) {
        None => s.push(p),
        Some(i) => s.update(i, p),
    }
}

/// Whether an installed package satisfies a request for `name` under an
/// optional exact version pin and an optional constraint expression.
pub open spec fn spec_installed_sat(
    s: Seq<PackageV>,
    name: Seq<char>,
    pin: Option<Seq<char>>,
    req: Option<Seq<char>>,
) -> bool {
    match spec_find_pkg(s, name) {
        None => false,
        Some(i) => (match pin {
            None => true,
            Some(p) => s[i].version == p,
        }) && spec_dep_matches(req, s[i].version),
    }
}

/// The store after loading the given packages, in order, each replacing
/// any earlier entry of the same name.
pub open spec fn spec_load(s: Seq<PackageV>, pkgs: Seq<PackageV>) -> Seq<PackageV>
    decreases pkgs.len(),
{
    if pkgs.len() == 0 {
        s
    } else {
        spec_load(spec_record(s, pkgs.first()), pkgs.drop_first())
    }
}

/// The packages that a set of durable record documents denotes, in
/// order; unreadable documents are dropped.
pub open spec fn spec_parsed_docs(docs: Seq<Seq<char>>) -> Seq<PackageV>
    decreases docs.len(),
{
    if docs.len() == 0 {
        Seq::empty()
    } else {
        let rest = spec_parsed_docs(docs.drop_first());
        match crate::package::spec_parse_record(docs.first()) {
            None => rest,
            Some(p) => seq![p] + rest,
        }
    }
}

impl PackageStore {
    /// A store with no packages.
    pub fn new() -> (r: Self)
        ensures
            r@ == Seq::<PackageV>::empty(),
    {
        let r = PackageStore { packages: Vec::new() };
        proof {
            assert(r@ =~= Seq::<PackageV>::empty());
        }
        r
    }

    /// How many packages are installed.
    pub fn len(&self) -> (r: usize)
        ensures
            r == self@.len(),
    {
        proof {
            assert(self@.len() == self.packages@.len());
        }
        self.packages.len()
    }

    /// Index of the first package named `name`, exactly as
    /// `spec_find_pkg` gives it.
    fn find_index(&self, name: &str) -> (r: Option<usize>)
        ensures
            match r {
                None => spec_find_pkg(self@, name@) is None,
                Some(i) => spec_find_pkg(self@, name@) == Some(i as int),
            },
    {
        let mut i: usize = 0;
        let n = self.packages.len();
        proof {
            assert(self@.len() == n as int);
        }
        while i < n
            invariant
                0 <= i <= n,
                n == self@.len(),
                n == self.packages.len(),
                forall|j: int| 0 <= j < i ==> self@[j].name != name@,
            decreases n - i,
        {
            proof {
                assert(self@[i as int] == self.packages[i as int]@);
            }
            if str_equal(self.packages[i].name.as_str(), name) {
                proof {
                    lemma_find_pkg(self@, name@);
                }
                return Some(i);
            }
            i = i + 1;
        }
        proof {
            lemma_find_pkg(self@, name@);
        }
        None
    }

    /// Records `pkg`, overwriting any prior entry for the same name.
    pub fn record(&mut self, pkg: Package)
        ensures
            final(self)@ == spec_record(old(self)@, pkg@),
    {
        let ghost pv = pkg@;
        match self.find_index(pkg.name.as_str()) {
            None => {
                self.packages.push(pkg);
                proof {
                    assert(self@ =~= old(self)@.push(pv));
                }
            },
            Some(i) => {
                proof {
                    lemma_find_pkg(old(self)@, pv.name);
                }
                self.packages.set(i, pkg);
                proof {
                    assert(self@ =~= old(self)@.update(i as int, pv));
                }
            },
        }
    }

    /// Removes the entry named `name`; reports whether one existed.
    pub fn remove(&mut self, name: &str) -> (r: bool)
        ensures
            match spec_find_pkg(old(self)@, name@) {
                None => final(self)@ == old(self)@ && !r,
                Some(i) => final(self)@ == old(self)@.remove(i) && r,
            },
    {
        match self.find_index(name) {
            None => false,
            Some(i) => {
                proof {
                    lemma_find_pkg(self@, name@);
                    assert(self@.len() == self.packages@.len());
                }
                self.packages.remove(i);
                proof {
                    old(self)@.remove_ensures(i as int);
                    old(self).packages@.remove_ensures(i as int);
                    assert forall|j: int| 0 <= j < self@.len() implies self@[j] == old(
                        self,
                    )@.remove(i as int)[j] by {
                        assert(self@[j] == self.packages@[j].deep_view());
                        if j < i {
                            assert(self.packages@[j] == old(self).packages@[j]);
                        } else {
                            assert(self.packages@[j] == old(self).packages@[j + 1]);
                        }
                    }
                    assert(self@ =~= old(self)@.remove(i as int));
                }
                true
            },
        }
    }

    /// The installed package named `name`, if any.
    pub fn find(&self, name: &str) -> (r: Option<&Package>)
        ensures
            match spec_find_pkg(self@, name@) {
                None => r is None,
                Some(i) => r matches Some(p) && p@ == self@[i],
            },
    {
        match self.find_index(name) {
            None => None,
            Some(i) => {
                proof {
                    lemma_find_pkg(self@, name@);
                    assert(self@[i as int] == self.packages[i as int]@);
                }
                Some(&self.packages[i])
            },
        }
    }

    /// A store rebuilt from durable record documents, in order, later
    /// entries of a name replacing earlier ones; unreadable documents
    /// are dropped.
    pub fn load(documents: &Vec<String>) -> (r: PackageStore)
        ensures
            r@ == spec_load(Seq::empty(), spec_parsed_docs(documents.deep_view())),
    {
        let ghost docs = documents.deep_view();
        let mut store = PackageStore::new();
        let mut i: usize = 0;
        proof {
            assert(docs.skip(0) =~= docs);
        }
        while i < documents.len()
            invariant
                0 <= i <= documents.len(),
                docs == documents.deep_view(),
                docs.len() == documents.len(),
                spec_load(store@, spec_parsed_docs(docs.skip(i as int))) == spec_load(
                    Seq::empty(),
                    spec_parsed_docs(docs),
                ),
            decreases documents.len() - i,
        {
            proof {
                assert(docs.skip(i as int).first() == documents[i as int]@);
                assert(docs.skip(i as int).drop_first() =~= docs.skip(i + 1));
            }
            match Package::parse_record(documents[i].as_str()) {
                None => {},
                Some(p) => {
                    let ghost pv = p@;
                    let ghost parsed = spec_parsed_docs(docs.skip(i as int));
                    proof {
                        assert(parsed.first() == pv);
                        assert(parsed.drop_first() =~= spec_parsed_docs(docs.skip(i + 1)));
                    }
                    store.record(p);
                },
            }
            i = i + 1;
        }
        proof {
            assert(docs.skip(documents.len() as int) =~= Seq::<Seq<char>>::empty());
            assert(spec_parsed_docs(docs.skip(documents.len() as int)) =~= Seq::<PackageV>::empty());
        }
        store
    }

    /// Every installed package, in store order.
    pub fn all(&self) -> (r: &Vec<Package>)
        ensures
            r.deep_view() == self@,
    {
        &self.packages
    }

    /// Whether the installed package named `name`, if any, satisfies the
    /// given pin and constraint.
    pub fn installed_satisfies(&self, name: &str, pin: Option<&str>, req: Option<&str>) -> (r:
        bool)
        ensures
            r == spec_installed_sat(
                self@,
                name@,
                crate::index::spec_opt_str(pin),
                crate::index::spec_opt_str(req),
            ),
    {
        match self.find_index(name) {
            None => false,
            Some(i) => {
                proof {
                    lemma_find_pkg(self@, name@);
                    assert(self@[i as int] == self.packages[i as int]@);
                }
                let p = &self.packages[i];
                let pin_ok = match pin {
                    None => true,
                    Some(v) => str_equal(p.version.as_str(), v),
                };
                if !pin_ok {
                    return false;
                }
                match req {
                    None => true,
                    Some(rq) => crate::dependency::req_matches(rq, p.version.as_str()),
                }
            },
        }
    }
}

} // verus!
