//! The repository index: every package record of every enabled
//! repository, each entry carrying the repository it came from and that
//! repository's priority.
//!
//! Candidate selection is priority-first, version-second: among the
//! entries of one name that satisfy the constraints in play, the entry
//! from the repository of highest priority wins; on a priority tie the
//! higher parsed semantic version wins; on a full tie the earlier entry
//! (insertion order) wins.

use vstd::prelude::*;

use crate::dependency::{req_matches, spec_dep_matches};
use crate::package_info::{PackageInfo, PackageInfoV};
use crate::text::{spec_contains_sub, str_contains, str_equal};
use crate::version::{spec_vstr_better, vstr_better};

verus! {

/// One record of the index, with its source repository and priority.
#[derive(Debug)]
pub struct IndexEntry {
    pub record: PackageInfo,
    pub repo_name: String,
    pub priority: i32,
}

/// Mathematical image of an `IndexEntry`.
pub ghost struct IndexEntryV {
    pub record: PackageInfoV,
    pub repo_name: Seq<char>,
    pub priority: i32,
}

impl View for IndexEntry {
    type V = IndexEntryV;

    open spec fn view(&self) -> IndexEntryV {
        IndexEntryV { record: self.record@, repo_name: self.repo_name@, priority: self.priority }
    }
}

impl DeepView for IndexEntry {
    type V = IndexEntryV;

    open spec fn deep_view(&self) -> IndexEntryV {
        self@
    }
}

impl Clone for IndexEntry {
    /// A clone carries every field over unchanged.
    fn clone(&self) -> (r: Self)
        ensures
            r@ == self@,
    {
        IndexEntry {
            record: self.record.clone(),
            repo_name: self.repo_name.clone(),
            priority: self.priority,
        }
    }
}

/// The aggregated package records of all enabled repositories.
#[derive(Debug)]
pub struct RepositoryIndex {
    pub entries: Vec<IndexEntry>,
}

impl View for RepositoryIndex {
    type V = Seq<IndexEntryV>;

    open spec fn view(&self) -> Seq<IndexEntryV> {
        self.entries.deep_view()
    }
}

/// The index entries that one repository's records become.
pub open spec fn spec_entries_of(
    repo_name: Seq<char>,
    priority: i32,
    records: Seq<PackageInfoV>,
) -> Seq<IndexEntryV> {
    records.map_values(|r: PackageInfoV| IndexEntryV { record: r, repo_name, priority })
}

/// Whether `e` is a candidate for `name` under an optional exact version
/// pin and an optional constraint expression.
pub open spec fn spec_candidate_ok(
    e: IndexEntryV,
    name: Seq<char>,
    pin: Option<Seq<char>>,
    req: Option<Seq<char>>,
) -> bool {
    e.record.name == name && (match pin {
        None => true,
        Some(p) => e.record.version == p,
    }) && spec_dep_matches(req, e.record.version)
}

/// Whether entry `a` beats entry `b`: higher priority, or equal priority
/// and a better version string.
pub open spec fn spec_better_entry(a: IndexEntryV, b: IndexEntryV) -> bool {
    a.priority > b.priority || (a.priority == b.priority && spec_vstr_better(
        a.record.version,
        b.record.version,
    ))
}

/// Index of the best candidate among the first `k` entries; an earlier
/// entry wins a full tie.
pub open spec fn spec_pick_upto(
    entries: Seq<IndexEntryV>,
    k: int,
    name: Seq<char>,
    pin: Option<Seq<char>>,
    req: Option<Seq<char>>,
) -> Option<int>
    decreases k,
{
    if k <= 0 {
        None
    } else {
        let prev = spec_pick_upto(entries, k - 1, name, pin, req);
        if !spec_candidate_ok(entries[k - 1], name, pin, req) {
            prev
        } else {
            match prev {
                None => Some(k - 1),
                Some(j) => if spec_better_entry(entries[k - 1], entries[j]) {
                    Some(k - 1)
                } else {
                    Some(j)
                },
            }
        }
    }
}

/// Index of the best candidate of the whole index.
pub open spec fn spec_pick_best(
    entries: Seq<IndexEntryV>,
    name: Seq<char>,
    pin: Option<Seq<char>>,
    req: Option<Seq<char>>,
) -> Option<int> {
    spec_pick_upto(entries, entries.len() as int, name, pin, req)
}

/// What the pick means: a pick is a candidate; no pick means no
/// candidate exists.
pub proof fn lemma_pick_upto(
    entries: Seq<IndexEntryV>,
    k: int,
    name: Seq<char>,
    pin: Option<Seq<char>>,
    req: Option<Seq<char>>,
)
    requires
        k <= entries.len(),
    ensures
        match spec_pick_upto(entries, k, name, pin, req) {
            None => forall|i: int| 0 <= i < k ==> !spec_candidate_ok(entries[i], name, pin, req),
            Some(j) => 0 <= j < k && spec_candidate_ok(entries[j], name, pin, req),
        },
    decreases k,
{
    if k > 0 {
        lemma_pick_upto(entries, k - 1, name, pin, req);
    }
}

/// The view of an optional borrowed string.
pub open spec fn spec_opt_str(o: Option<&str>) -> Option<Seq<char>> {
    match o {
        None => None,
        Some(s) => Some(s@),
    }
}

fn candidate_ok(e: &IndexEntry, name: &str, pin: Option<&str>, req: Option<&str>) -> (r: bool)
    ensures
        r == spec_candidate_ok(e@, name@, spec_opt_str(pin), spec_opt_str(req)),
{
    if !str_equal(e.record.name.as_str(), name) {
        return false;
    }
    match pin {
        None => {},
        Some(p) => {
            if !str_equal(e.record.version.as_str(), p) {
                return false;
            }
        },
    }
    match req {
        None => true,
        Some(r) => req_matches(r, e.record.version.as_str()),
    }
}

impl RepositoryIndex {
    /// An index with no entries.
    pub fn new() -> (r: Self)
        ensures
            r@ == Seq::<IndexEntryV>::empty(),
    {
        let r = RepositoryIndex { entries: Vec::new() };
        proof {
            assert(r@ =~= Seq::<IndexEntryV>::empty());
        }
        r
    }

    /// Merges one repository's parsed records into the index, in order.
    pub fn add_records(&mut self, repo_name: &str, priority: i32, records: Vec<PackageInfo>)
        ensures
            final(self)@ == old(self)@ + spec_entries_of(
                repo_name@,
                priority,
                records.deep_view(),
            ),
    {
        let ghost recs = records.deep_view();
        let mut i: usize = 0;
        proof {
            assert(self@ =~= old(self)@ + spec_entries_of(repo_name@, priority, recs.take(0)));
        }
        while i < records.len()
            invariant
                0 <= i <= records.len(),
                recs == records.deep_view(),
                recs.len() == records.len(),
                self@ == old(self)@ + spec_entries_of(repo_name@, priority, recs.take(i as int)),
            decreases records.len() - i,
        {
            let entry = IndexEntry {
                record: records[i].clone(),
                repo_name: repo_name.to_owned(),
                priority,
            };
            let ghost pre = self@;
            self.entries.push(entry);
            proof {
                assert(recs.take(i + 1) =~= recs.take(i as int).push(recs[i as int]));
                assert(spec_entries_of(repo_name@, priority, recs.take(i + 1)) =~= spec_entries_of(
                    repo_name@,
                    priority,
                    recs.take(i as int),
                ).push(IndexEntryV { record: recs[i as int], repo_name: repo_name@, priority }));
                assert(self@ =~= pre.push(
                    IndexEntryV { record: recs[i as int], repo_name: repo_name@, priority },
                ));
                assert(self@ =~= old(self)@ + spec_entries_of(
                    repo_name@,
                    priority,
                    recs.take(i + 1),
                ));
            }
            i = i + 1;
        }
        proof {
            assert(recs.take(records.len() as int) =~= recs);
        }
    }

    /// How many entries the index holds.
    pub fn len(&self) -> (r: usize)
        ensures
            r == self@.len(),
    {
        proof {
            assert(self@.len() == self.entries@.len());
        }
        self.entries.len()
    }

    /// Index of the best candidate for `name` under the given pin and
    /// constraint, exactly as `spec_pick_best` gives it.
    pub fn pick_best(&self, name: &str, pin: Option<&str>, req: Option<&str>) -> (r: Option<usize>)
        ensures
            match r {
                None => spec_pick_best(self@, name@, spec_opt_str(pin), spec_opt_str(req)) is None,
                Some(j) => spec_pick_best(self@, name@, spec_opt_str(pin), spec_opt_str(req))
                    == Some(j as int),
            },
    {
        let ghost gname = name@;
        let ghost gpin = spec_opt_str(pin);
        let ghost greq = spec_opt_str(req);
        let mut best: Option<usize> = None;
        let mut i: usize = 0;
        while i < self.entries.len()
            invariant
                0 <= i <= self.entries.len(),
                self@.len() == self.entries.len(),
                gname == name@,
                gpin == spec_opt_str(pin),
                greq == spec_opt_str(req),
                match best {
                    None => spec_pick_upto(self@, i as int, gname, gpin, greq) is None,
                    Some(j) => spec_pick_upto(self@, i as int, gname, gpin, greq) == Some(j as int),
                },
            decreases self.entries.len() - i,
        {
            proof {
                assert(self@[i as int] == self.entries[i as int]@);
                lemma_pick_upto(self@, i as int, gname, gpin, greq);
            }
            if candidate_ok(&self.entries[i], name, pin, req) {
                match best {
                    None => {
                        best = Some(i);
                    },
                    Some(j) => {
                        proof {
                            assert(self@[j as int] == self.entries[j as int]@);
                        }
                        let better = {
                            let a = &self.entries[i];
                            let b = &self.entries[j];
                            a.priority > b.priority || (a.priority == b.priority && vstr_better(
                                a.record.version.as_str(),
                                b.record.version.as_str(),
                            ))
                        };
                        if better {
                            best = Some(i);
                        }
                    },
                }
            }
            i = i + 1;
        }
        best
    }

    /// The best candidate for `name`, optionally pinned to an exact
    /// version, cloned out of the index; `None` when no entry matches.
    pub fn find_package(&self, name: &str, pin: Option<&str>) -> (r: Option<IndexEntry>)
        ensures
            match spec_pick_best(self@, name@, spec_opt_str(pin), None) {
                None => r is None,
                Some(j) => r matches Some(e) && e@ == self@[j],
            },
    {
        let n = self.entries.len();
        proof {
            assert(self@.len() == n as int);
            lemma_pick_upto(self@, n as int, name@, spec_opt_str(pin), None);
        }
        match self.pick_best(name, pin, None) {
            None => None,
            Some(j) => {
                proof {
                    assert(spec_pick_best(self@, name@, spec_opt_str(pin), None) == Some(
                        j as int,
                    ));
                    assert(self@[j as int] == self.entries[j as int]@);
                }
                let e = self.entries[j].clone();
                proof {
                    assert(e@ == self@[j as int]);
                }
                Some(e)
            },
        }
    }

    /// Every entry whose record bears exactly the given name, in
    /// insertion order.
    pub fn lookup(&self, name: &str) -> (r: Vec<IndexEntry>)
        ensures
            r.deep_view() == self@.filter(|e: IndexEntryV| e.record.name == name@),
    {
        let ghost pred = |e: IndexEntryV| e.record.name == name@;
        let mut acc: Vec<IndexEntry> = Vec::new();
        let mut i: usize = 0;
        proof {
            assert(self@.take(0) =~= Seq::<IndexEntryV>::empty());
            assert(acc.deep_view() =~= self@.take(0).filter(pred));
        }
        while i < self.entries.len()
            invariant
                0 <= i <= self.entries.len(),
                self@.len() == self.entries.len(),
                pred == (|e: IndexEntryV| e.record.name == name@),
                acc.deep_view() == self@.take(i as int).filter(pred),
            decreases self.entries.len() - i,
        {
            proof {
                assert(self@[i as int] == self.entries[i as int]@);
                assert(self@.take(i + 1) =~= self@.take(i as int).push(self@[i as int]));
                assert(self@.take(i as int).push(self@[i as int]) =~= self@.take(i as int) + seq![
                    self@[i as int],
                ]);
                Seq::filter_distributes_over_add(self@.take(i as int), seq![self@[i as int]], pred);
                reveal_with_fuel(Seq::filter, 2);
                assert(seq![self@[i as int]].drop_last() =~= Seq::<IndexEntryV>::empty());
            }
            if str_equal(self.entries[i].record.name.as_str(), name) {
                let ghost pre = acc.deep_view();
                acc.push(self.entries[i].clone());
                proof {
                    assert(acc.deep_view() =~= pre.push(self@[i as int]));
                }
            }
            i = i + 1;
        }
        proof {
            assert(self@.take(self@.len() as int) =~= self@);
        }
        acc
    }

    /// Every record whose name holds `query` as a substring, in
    /// insertion order.
    pub fn search_packages(&self, query: &str) -> (r: Vec<PackageInfo>)
        ensures
            r.deep_view() == self@.map_values(|e: IndexEntryV| e.record).filter(
                |p: PackageInfoV| spec_contains_sub(p.name, query@),
            ),
    {
        let ghost pred = |p: PackageInfoV| spec_contains_sub(p.name, query@);
        let ghost recs = self@.map_values(|e: IndexEntryV| e.record);
        let mut acc: Vec<PackageInfo> = Vec::new();
        let mut i: usize = 0;
        proof {
            assert(recs.take(0) =~= Seq::<PackageInfoV>::empty());
            assert(acc.deep_view() =~= recs.take(0).filter(pred));
        }
        while i < self.entries.len()
            invariant
                0 <= i <= self.entries.len(),
                self@.len() == self.entries.len(),
                pred == (|p: PackageInfoV| spec_contains_sub(p.name, query@)),
                recs == self@.map_values(|e: IndexEntryV| e.record),
                recs.len() == self.entries.len(),
                acc.deep_view() == recs.take(i as int).filter(pred),
            decreases self.entries.len() - i,
        {
            proof {
                assert(self@[i as int] == self.entries[i as int]@);
                assert(recs[i as int] == self.entries[i as int]@.record);
                assert(recs.take(i + 1) =~= recs.take(i as int).push(recs[i as int]));
                assert(recs.take(i as int).push(recs[i as int]) =~= recs.take(i as int) + seq![
                    recs[i as int],
                ]);
                Seq::filter_distributes_over_add(recs.take(i as int), seq![recs[i as int]], pred);
                reveal_with_fuel(Seq::filter, 2);
                assert(seq![recs[i as int]].drop_last() =~= Seq::<PackageInfoV>::empty());
            }
            if str_contains(self.entries[i].record.name.as_str(), query) {
                let ghost pre = acc.deep_view();
                acc.push(self.entries[i].record.clone());
                proof {
                    assert(acc.deep_view() =~= pre.push(recs[i as int]));
                }
            }
            i = i + 1;
        }
        proof {
            assert(recs.take(recs.len() as int) =~= recs);
        }
        acc
    }
}

} // verus!
