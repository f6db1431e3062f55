//! The artifact cache: downloaded package artifacts keyed by name and
//! version, with age-based eviction by modification time.

use vstd::prelude::*;

use crate::text::str_equal;

verus! {

/// One cached artifact.
#[derive(Debug)]
pub struct CacheEntry {
    pub name: String,
    pub version: String,
    pub data: Vec<u8>,
    /// Last modification, in seconds since the epoch.
    pub mtime: u64,
}

/// Mathematical image of a `CacheEntry`.
pub ghost struct CacheEntryV {
    pub name: Seq<char>,
    pub version: Seq<char>,
    pub data: Seq<u8>,
    pub mtime: u64,
}

impl View for CacheEntry {
    type V = CacheEntryV;

    open spec fn view(&self) -> CacheEntryV {
        CacheEntryV {
            name: self.name@,
            version: self.version@,
            data: self.data@,
            mtime: self.mtime,
        }
    }
}

impl DeepView for CacheEntry {
    type V = CacheEntryV;

    open spec fn deep_view(&self) -> CacheEntryV {
        self@
    }
}

/// The artifact cache.
#[derive(Debug)]
pub struct CacheSystem {
    pub cache_dir: String,
    /// Age bound for expiry-based eviction, in seconds.
    pub max_age: u64,
    pub entries: Vec<CacheEntry>,
}

impl View for CacheSystem {
    type V = Seq<CacheEntryV>;

    open spec fn view(&self) -> Seq<CacheEntryV> {
        self.entries.deep_view()
    }
}

/// Index of the first entry keyed by `name` and `version`.
pub open spec fn spec_find_entry(
    s: Seq<CacheEntryV>,
    name: Seq<char>,
    version: Seq<char>,
) -> Option<int>
    decreases s.len(),
{
    if s.len() == 0 {
        None
    } else if s[0].name == name && s[0].version == version {
        Some(0)
    } else {
        match spec_find_entry(s.drop_first(), name, version) {
            None => None,
            Some(i) => Some(i + 1),
        }
    }
}

pub proof fn lemma_find_entry(s: Seq<CacheEntryV>, name: Seq<char>, version: Seq<char>)
    ensures
        match spec_find_entry(s, name, version) {
            None => forall|j: int|
                0 <= j < s.len() ==> !((#[trigger] s[j]).name == name && s[j].version == version),
            Some(i) => 0 <= i < s.len() && s[i].name == name && s[i].version == version && (forall|
                j: int,
            | 0 <= j < i ==> !((#[trigger] s[j]).name == name && s[j].version == version)),
        },
    decreases s.len(),
{
    if s.len() > 0 && !(s[0].name == name && s[0].version == version) {
        lemma_find_entry(s.drop_first(), name, version);
        assert forall|j: int| 1 <= j < s.len() implies s[j] == s.drop_first()[j - 1] by {}
    }
}

/// Whether the entry has outlived `max_age` at time `now`.
pub open spec fn spec_expired(e: CacheEntryV, now: u64, max_age: u64) -> bool {
    e.mtime + max_age <= now
}

/// Total bytes held by the entries.
pub open spec fn spec_total_size(s: Seq<CacheEntryV>) -> nat
    decreases s.len(),
{
    if s.len() == 0 {
        0
    } else {
        s.first().data.len() + spec_total_size(s.drop_first())
    }
}

/// Default age bound: seven days, in seconds.
pub const DEFAULT_MAX_AGE: u64 = 604800;

impl CacheSystem {
    /// An empty cache over the given directory, with the default
    /// seven-day age bound.
    pub fn new(cache_dir: String) -> (r: Self)
        ensures
            r@ == Seq::<CacheEntryV>::empty(),
            r.cache_dir@ == cache_dir@,
            r.max_age == DEFAULT_MAX_AGE,
    {
        let r = CacheSystem { cache_dir, max_age: DEFAULT_MAX_AGE, entries: Vec::new() };
        proof {
            assert(r@ =~= Seq::<CacheEntryV>::empty());
        }
        r
    }

    /// The artifact's deterministic file name under the cache directory:
    /// `dir/name_version.pkg`.
    pub fn get_package_path(&self, package_name: &str, version: &str) -> (r: String)
        ensures
            r@ == self.cache_dir@ + "/"@ + package_name@ + "_"@ + version@ + ".pkg"@,
    {
        let mut s = self.cache_dir.clone();
        s.append("/");
        s.append(package_name);
        s.append("_");
        s.append(version);
        s.append(".pkg");
        s
    }

    fn find_index(&self, package_name: &str, version: &str) -> (r: Option<usize>)
        ensures
            match r {
                None => spec_find_entry(self@, package_name@, version@) is None,
                Some(i) => spec_find_entry(self@, package_name@, version@) == Some(i as int),
            },
    {
        let mut i: usize = 0;
        let n = self.entries.len();
        proof {
            assert(self@.len() == n as int);
        }
        while i < n
            invariant
                0 <= i <= n,
                n == self.entries.len(),
                self@.len() == n as int,
                forall|j: int|
                    0 <= j < i ==> !((#[trigger] self@[j]).name == package_name@ && self@[j].version
                        == version@),
            decreases n - i,
        {
            proof {
                assert(self@[i as int] == self.entries[i as int]@);
            }
            if str_equal(self.entries[i].name.as_str(), package_name) && str_equal(
                self.entries[i].version.as_str(),
                version,
            ) {
                proof {
                    lemma_find_entry(self@, package_name@, version@);
                }
                return Some(i);
            }
            i = i + 1;
        }
        proof {
            lemma_find_entry(self@, package_name@, version@);
        }
        None
    }

    /// Whether an artifact for `package_name` at `version` is cached.
    pub fn package_exists(&self, package_name: &str, version: &str) -> (r: bool)
        ensures
            r == (spec_find_entry(self@, package_name@, version@) is Some),
    {
        self.find_index(package_name, version).is_some()
    }

    /// Caches the artifact bytes under `(package_name, version)`,
    /// replacing any entry already there; `now` becomes the entry's
    /// modification time.
    pub fn store_package(&mut self, package_name: &str, version: &str, data: &[u8], now: u64)
        ensures
            match spec_find_entry(old(self)@, package_name@, version@) {
                None => final(self)@ == old(self)@.push(
                    (CacheEntryV {
                        name: package_name@,
                        version: version@,
                        data: data@,
                        mtime: now,
                    }),
                ),
                Some(i) => final(self)@ == old(self)@.update(
                    i,
                    (CacheEntryV {
                        name: package_name@,
                        version: version@,
                        data: data@,
                        mtime: now,
                    }),
                ),
            },
            final(self).cache_dir == old(self).cache_dir,
            final(self).max_age == old(self).max_age,
    {
        let entry = CacheEntry {
            name: package_name.to_owned(),
            version: version.to_owned(),
            data: vstd::slice::slice_to_vec(data),
            mtime: now,
        };
        let ghost ev = entry@;
        match self.find_index(package_name, version) {
            None => {
                self.entries.push(entry);
                proof {
                    assert(self@ =~= old(self)@.push(ev));
                }
            },
            Some(i) => {
                proof {
                    lemma_find_entry(old(self)@, package_name@, version@);
                }
                self.entries.set(i, entry);
                proof {
                    assert(self@ =~= old(self)@.update(i as int, ev));
                }
            },
        }
    }

    /// The exact bytes cached under `(package_name, version)`, if any.
    pub fn get_package(&self, package_name: &str, version: &str) -> (r: Option<Vec<u8>>)
        ensures
            match spec_find_entry(self@, package_name@, version@) {
                None => r is None,
                Some(i) => r matches Some(d) && d@ == self@[i].data,
            },
    {
        match self.find_index(package_name, version) {
            None => None,
            Some(i) => {
                proof {
                    lemma_find_entry(self@, package_name@, version@);
                    assert(self@[i as int] == self.entries[i as int]@);
                }
                Some(crate::text::clone_bytes(&self.entries[i].data))
            },
        }
    }

    /// Drops every entry whose age at time `now` has reached `max_age`;
    /// returns how many were dropped. With a `max_age` of zero every
    /// entry (none dated after `now`) is dropped.
    pub fn clean_older_than(&mut self, now: u64, max_age: u64) -> (r: usize)
        ensures
            final(self)@ == old(self)@.filter(|e: CacheEntryV| !spec_expired(e, now, max_age)),
            r == old(self)@.len() - final(self)@.len(),
            final(self).cache_dir == old(self).cache_dir,
            final(self).max_age == old(self).max_age,
    {
        let ghost pred = |e: CacheEntryV| !spec_expired(e, now, max_age);
        let mut kept: Vec<CacheEntry> = Vec::new();
        let mut i: usize = 0;
        let n = self.entries.len();
        proof {
            assert(self@.len() == n as int);
            assert(self@.take(0) =~= Seq::<CacheEntryV>::empty());
            assert(kept.deep_view() =~= self@.take(0).filter(pred));
        }
        while i < n
            invariant
                0 <= i <= n,
                n == self.entries.len(),
                self@.len() == n as int,
                pred == (|e: CacheEntryV| !spec_expired(e, now, max_age)),
                kept.deep_view() == self@.take(i as int).filter(pred),
                kept.len() == kept.deep_view().len(),
            decreases n - i,
        {
            proof {
                assert(self@[i as int] == self.entries[i as int]@);
                assert(self@.take(i + 1) =~= self@.take(i as int) + seq![self@[i as int]]);
                Seq::filter_distributes_over_add(self@.take(i as int), seq![self@[i as int]], pred);
                reveal_with_fuel(Seq::filter, 2);
                assert(seq![self@[i as int]].drop_last() =~= Seq::<CacheEntryV>::empty());
            }
            let e = &self.entries[i];
            let keep = !(e.mtime <= now && now - e.mtime >= max_age);
            proof {
                assert(keep == !spec_expired(self@[i as int], now, max_age));
            }
            if keep {
                let ghost pre = kept.deep_view();
                let copied = CacheEntry {
                    name: e.name.clone(),
                    version: e.version.clone(),
                    data: crate::text::clone_bytes(&e.data),
                    mtime: e.mtime,
                };
                proof {
                    assert(copied@ == self@[i as int]);
                }
                kept.push(copied);
                proof {
                    assert(kept.deep_view() =~= pre.push(self@[i as int]));
                }
            }
            i = i + 1;
        }
        proof {
            assert(self@.take(n as int) =~= self@);
            old(self)@.lemma_filter_len(pred);
        }
        let removed = n - kept.len();
        self.entries = kept;
        removed
    }

    /// Drops every entry older than the cache's own age bound at time
    /// `now`; returns how many were dropped.
    pub fn clean_old_packages(&mut self, now: u64) -> (r: usize)
        ensures
            final(self)@ == old(self)@.filter(
                |e: CacheEntryV| !spec_expired(e, now, old(self).max_age),
            ),
            r == old(self)@.len() - final(self)@.len(),
            final(self).cache_dir == old(self).cache_dir,
            final(self).max_age == old(self).max_age,
    {
        let max_age = self.max_age;
        self.clean_older_than(now, max_age)
    }

    /// Drops every entry; returns how many there were.
    pub fn clean_all(&mut self) -> (r: usize)
        ensures
            final(self)@ == Seq::<CacheEntryV>::empty(),
            r == old(self)@.len(),
            final(self).cache_dir == old(self).cache_dir,
            final(self).max_age == old(self).max_age,
    {
        let n = self.entries.len();
        proof {
            assert(self@.len() == n as int);
        }
        self.entries = Vec::new();
        proof {
            assert(self@ =~= Seq::<CacheEntryV>::empty());
        }
        n
    }

    /// Total bytes held, saturating at the machine's limit.
    pub fn get_cache_size(&self) -> (r: u64)
        ensures
            spec_total_size(self@) <= u64::MAX ==> r == spec_total_size(self@),
            spec_total_size(self@) > u64::MAX ==> r == u64::MAX,
    {
        let mut acc: u64 = 0;
        let mut i: usize = 0;
        let n = self.entries.len();
        proof {
            assert(self@.len() == n as int);
            assert(self@.skip(0) =~= self@);
        }
        while i < n
            invariant
                0 <= i <= n,
                n == self.entries.len(),
                self@.len() == n as int,
                (acc == u64::MAX && spec_total_size(self@) > u64::MAX) || acc + spec_total_size(
                    self@.skip(i as int),
                ) == spec_total_size(self@),
            decreases n - i,
        {
            proof {
                assert(self@[i as int] == self.entries[i as int]@);
                assert(self@.skip(i as int).first() == self@[i as int]);
                assert(self@.skip(i as int).drop_first() =~= self@.skip(i + 1));
            }
            let len = self.entries[i].data.len();
            proof {
                assert(len as nat == self@[i as int].data.len());
            }
            if acc as u64 > u64::MAX - (len as u64) {
                acc = u64::MAX;
            } else {
                acc = acc + (len as u64);
            }
            i = i + 1;
        }
        proof {
            assert(self@.skip(n as int) =~= Seq::<CacheEntryV>::empty());
        }
        acc
    }
}

} // verus!
