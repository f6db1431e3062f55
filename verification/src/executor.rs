//! The transaction executor: walks a plan step by step through
//! `Pending -> Downloading -> Verifying -> Extracting -> Committed`,
//! consulting the cache before any fetch, validating checksums before
//! extraction, and recording an installed package only after both
//! succeeded. A failed step aborts every later step (they become
//! `Skipped`) but never rolls back steps already committed.
//!
//! Fetching and unpacking are outside work: the caller fetches bytes
//! and unpacks archives, and reports the outcome through
//! `provide_download`, `fetch_failed`, `extraction_done` and
//! `extraction_failed`; every decision in between is made here.

use vstd::prelude::*;

use crate::cache::{spec_find_entry, CacheEntryV, CacheSystem};
use crate::package::{Package, PackageV};
use crate::plan::{Step, StepV, TransactionPlan};
use crate::security::{sha256_of, spec_hex_of, SecurityVerifier};
use crate::store::{spec_record, PackageStore};
use crate::text::{spec_u64_string, u64_to_string};

verus! {

/// Why a step failed.
#[derive(Clone, Copy, Debug, PartialEq, Eq, Structural)]
pub enum FailReason {
    FetchFailed,
    ChecksumMismatch,
    UntrustedSignature,
    ExtractFailed,
}

/// Where a step stands.
#[derive(Clone, Copy, Debug, PartialEq, Eq, Structural)]
pub enum StepStatus {
    Pending,
    Downloading,
    Verifying,
    Extracting,
    Committed,
    Failed(FailReason),
    Skipped,
}

/// Mathematical image of a `TransactionExecutor`.
pub ghost struct ExecV {
    pub plan: Seq<StepV>,
    pub status: Seq<StepStatus>,
    pub cursor: int,
    pub cache: Seq<CacheEntryV>,
    pub keys: Seq<Seq<char>>,
    pub store: Seq<PackageV>,
    pub pending: Option<Seq<u8>>,
}

/// The transaction executor.
#[derive(Debug)]
pub struct TransactionExecutor {
    pub plan: TransactionPlan,
    pub status: Vec<StepStatus>,
    pub cursor: usize,
    pub cache: CacheSystem,
    pub verifier: SecurityVerifier,
    pub store: PackageStore,
    pub pending_data: Option<Vec<u8>>,
}

impl View for TransactionExecutor {
    type V = ExecV;

    open spec fn view(&self) -> ExecV {
        ExecV {
            plan: self.plan@,
            status: self.status@,
            cursor: self.cursor as int,
            cache: self.cache@,
            keys: self.verifier@,
            store: self.store@,
            pending: match self.pending_data {
                Some(ref d) => Some(d@),
                None => None,
            },
        }
    }
}

/// A status no step leaves again.
pub open spec fn spec_terminal(s: StepStatus) -> bool {
    s is Committed || s is Failed || s is Skipped
}

/// Steps execute in plan order: everything before the cursor is
/// settled, everything after it still untouched (or skipped after a
/// failure).
pub open spec fn spec_exec_wf(e: ExecV) -> bool {
    e.status.len() == e.plan.len() && 0 <= e.cursor <= e.plan.len() && (forall|i: int|
        0 <= i < e.cursor ==> spec_terminal(#[trigger] e.status[i])) && (forall|i: int|
        e.cursor < i < e.plan.len() ==> ((#[trigger] e.status[i]) is Pending || e.status[i]
            is Skipped))
}

/// The statuses after a failure at the cursor: the cursor step bears the
/// reason and every later step is skipped.
pub open spec fn spec_abort_statuses(
    status: Seq<StepStatus>,
    cursor: int,
    reason: FailReason,
) -> Seq<StepStatus> {
    Seq::new(
        status.len(),
        |k: int|
            if k == cursor {
                StepStatus::Failed(reason)
            } else if k > cursor {
                StepStatus::Skipped
            } else {
                status[k]
            },
    )
}

/// How many steps are committed.
pub open spec fn spec_count_committed(s: Seq<StepStatus>) -> nat
    decreases s.len(),
{
    if s.len() == 0 {
        0
    } else {
        spec_count_committed(s.drop_last()) + (if s.last() == StepStatus::Committed {
            1nat
        } else {
            0nat
        })
    }
}

/// How many steps failed.
pub open spec fn spec_count_failed(s: Seq<StepStatus>) -> nat
    decreases s.len(),
{
    if s.len() == 0 {
        0
    } else {
        spec_count_failed(s.drop_last()) + (if s.last() is Failed {
            1nat
        } else {
            0nat
        })
    }
}

/// How many steps were skipped.
pub open spec fn spec_count_skipped(s: Seq<StepStatus>) -> nat
    decreases s.len(),
{
    if s.len() == 0 {
        0
    } else {
        spec_count_skipped(s.drop_last()) + (if s.last() == StepStatus::Skipped {
            1nat
        } else {
            0nat
        })
    }
}

/// The counts never exceed the number of steps.
pub proof fn lemma_counts_le(s: Seq<StepStatus>)
    ensures
        spec_count_committed(s) <= s.len(),
        spec_count_failed(s) <= s.len(),
        spec_count_skipped(s) <= s.len(),
    decreases s.len(),
{
    if s.len() > 0 {
        lemma_counts_le(s.drop_last());
    }
}

impl TransactionExecutor {
    /// Everything is in order to run the plan from its first step.
    pub open spec fn wf(&self) -> bool {
        spec_exec_wf(self@)
    }

    /// An executor at the head of the plan, every step pending.
    pub fn new(
        plan: TransactionPlan,
        cache: CacheSystem,
        verifier: SecurityVerifier,
        store: PackageStore,
    ) -> (r: Self)
        ensures
            r.wf(),
            r@.plan == plan@,
            r@.cursor == 0,
            r@.cache == cache@,
            r@.keys == verifier@,
            r@.store == store@,
            r@.pending is None,
            forall|i: int| 0 <= i < r@.status.len() ==> (#[trigger] r@.status[i]) is Pending,
    {
        let n = plan.steps.len();
        proof {
            assert(plan@.len() == n as int);
        }
        let mut status: Vec<StepStatus> = Vec::new();
        let mut i: usize = 0;
        while i < n
            invariant
                0 <= i <= n,
                status@.len() == i as int,
                forall|k: int| 0 <= k < i ==> (#[trigger] status@[k]) is Pending,
            decreases n - i,
        {
            status.push(StepStatus::Pending);
            i = i + 1;
        }
        TransactionExecutor { plan, status, cursor: 0, cache, verifier, store, pending_data: None }
    }

    /// The step the executor stands at, if any is left.
    pub fn current(&self) -> (r: Option<&Step>)
        ensures
            self@.cursor < self@.plan.len() ==> (r matches Some(s) && s@
                == self@.plan[self@.cursor]),
            self@.cursor >= self@.plan.len() ==> r is None,
    {
        if self.cursor < self.plan.steps.len() {
            proof {
                assert(self@.plan[self@.cursor] == self.plan.steps[self.cursor as int]@);
            }
            Some(&self.plan.steps[self.cursor])
        } else {
            proof {
                assert(self@.plan.len() == self.plan.steps@.len());
            }
            None
        }
    }

    /// Marks the cursor step failed and every later step skipped; the
    /// cursor moves past the end, so no further step runs.
    fn abort(&mut self, reason: FailReason)
        requires
            old(self).wf(),
            old(self)@.cursor < old(self)@.plan.len(),
        ensures
            final(self).wf(),
            final(self)@ == (ExecV {
                status: spec_abort_statuses(old(self)@.status, old(self)@.cursor, reason),
                cursor: old(self)@.plan.len() as int,
                pending: None,
                ..old(self)@
            }),
    {
        let ghost goal = spec_abort_statuses(old(self)@.status, old(self)@.cursor, reason);
        let n = self.status.len();
        proof {
            assert(self@.status.len() == n as int);
        }
        self.status.set(self.cursor, StepStatus::Failed(reason));
        let mut k = self.cursor + 1;
        proof {
            assert forall|j: int| 0 <= j < k implies self@.status[j] == goal[j] by {}
        }
        while k < n
            invariant
                old(self).cursor < k <= n,
                n == self.status.len(),
                self@.status.len() == n as int,
                goal == spec_abort_statuses(old(self)@.status, old(self)@.cursor, reason),
                goal.len() == n as int,
                self.cursor == old(self).cursor,
                self.plan == old(self).plan,
                self.cache == old(self).cache,
                self.verifier == old(self).verifier,
                self.store == old(self).store,
                self.pending_data == old(self).pending_data,
                forall|j: int| 0 <= j < k ==> #[trigger] self@.status[j] == goal[j],
                forall|j: int| k <= j < n ==> #[trigger] self@.status[j] == old(self)@.status[j],
            decreases n - k,
        {
            self.status.set(k, StepStatus::Skipped);
            k = k + 1;
        }
        self.cursor = n;
        self.pending_data = None;
        proof {
            assert(self@.status =~= goal);
        }
    }

    /// Starts the cursor step's download: on a cache hit the cached
    /// bytes become the artifact at once and the step moves straight to
    /// `Verifying`; on a miss the step waits in `Downloading` for the
    /// caller's fetch.
    pub fn begin_download(&mut self) -> (r: Option<Vec<u8>>)
        requires
            old(self).wf(),
            old(self)@.cursor < old(self)@.plan.len(),
            old(self)@.status[old(self)@.cursor] is Pending,
            old(self)@.plan[old(self)@.cursor] matches StepV::Install(c),
        ensures
            final(self).wf(),
            ({
                let c = old(self)@.plan[old(self)@.cursor]->Install_0;
                match spec_find_entry(old(self)@.cache, c.record.name, c.record.version) {
                    Some(i) => r matches Some(d) && d@ == old(self)@.cache[i].data && final(self)@
                        == (ExecV {
                        status: old(self)@.status.update(
                            old(self)@.cursor,
                            StepStatus::Verifying,
                        ),
                        pending: Some(old(self)@.cache[i].data),
                        ..old(self)@
                    }),
                    None => r is None && final(self)@ == (ExecV {
                        status: old(self)@.status.update(
                            old(self)@.cursor,
                            StepStatus::Downloading,
                        ),
                        ..old(self)@
                    }),
                }
            }),
    {
        let step = &self.plan.steps[self.cursor];
        proof {
            assert(self@.plan[self@.cursor] == self.plan.steps[self.cursor as int]@);
        }
        let (name, version) = match step {
            Step::Install(c) => (c.record.name.clone(), c.record.version.clone()),
            Step::Remove(_) => {
                proof {
                    assert(false);
                }
                (String::new(), String::new())
            },
        };
        match self.cache.get_package(name.as_str(), version.as_str()) {
            Some(data) => {
                self.status.set(self.cursor, StepStatus::Verifying);
                self.pending_data = Some(crate::text::clone_bytes(&data));
                proof {
                    assert(self@.status =~= old(self)@.status.update(
                        old(self)@.cursor,
                        StepStatus::Verifying,
                    ));
                }
                Some(data)
            },
            None => {
                self.status.set(self.cursor, StepStatus::Downloading);
                proof {
                    assert(self@.status =~= old(self)@.status.update(
                        old(self)@.cursor,
                        StepStatus::Downloading,
                    ));
                }
                None
            },
        }
    }

    /// Takes the bytes the caller fetched: they are cached under the
    /// step's name and version with modification time `now`, and the
    /// step moves to `Verifying`.
    pub fn provide_download(&mut self, data: Vec<u8>, now: u64)
        requires
            old(self).wf(),
            old(self)@.cursor < old(self)@.plan.len(),
            old(self)@.status[old(self)@.cursor] is Downloading,
            old(self)@.plan[old(self)@.cursor] matches StepV::Install(c),
        ensures
            final(self).wf(),
            ({
                let c = old(self)@.plan[old(self)@.cursor]->Install_0;
                let entry = (CacheEntryV {
                    name: c.record.name,
                    version: c.record.version,
                    data: data@,
                    mtime: now,
                });
                final(self)@ == (ExecV {
                    status: old(self)@.status.update(old(self)@.cursor, StepStatus::Verifying),
                    cache: match spec_find_entry(
                        old(self)@.cache,
                        c.record.name,
                        c.record.version,
                    ) {
                        None => old(self)@.cache.push(entry),
                        Some(i) => old(self)@.cache.update(i, entry),
                    },
                    pending: Some(data@),
                    ..old(self)@
                })
            }),
    {
        let step = &self.plan.steps[self.cursor];
        proof {
            assert(self@.plan[self@.cursor] == self.plan.steps[self.cursor as int]@);
        }
        let (name, version) = match step {
            Step::Install(c) => (c.record.name.clone(), c.record.version.clone()),
            Step::Remove(_) => {
                proof {
                    assert(false);
                }
                (String::new(), String::new())
            },
        };
        self.cache.store_package(name.as_str(), version.as_str(), data.as_slice(), now);
        self.status.set(self.cursor, StepStatus::Verifying);
        self.pending_data = Some(data);
        proof {
            assert(self@.status =~= old(self)@.status.update(
                old(self)@.cursor,
                StepStatus::Verifying,
            ));
        }
    }

    /// The caller's fetch failed: the step fails with `FetchFailed` and
    /// the rest of the plan is skipped.
    pub fn fetch_failed(&mut self)
        requires
            old(self).wf(),
            old(self)@.cursor < old(self)@.plan.len(),
            old(self)@.status[old(self)@.cursor] is Downloading,
        ensures
            final(self).wf(),
            final(self)@ == (ExecV {
                status: spec_abort_statuses(
                    old(self)@.status,
                    old(self)@.cursor,
                    FailReason::FetchFailed,
                ),
                cursor: old(self)@.plan.len() as int,
                pending: None,
                ..old(self)@
            }),
    {
        self.abort(FailReason::FetchFailed);
    }

    /// Validates the artifact: its checksum must match the record's
    /// declared SHA-256 (an empty declaration passes), and a signature,
    /// when one is given, must carry a trusted key. On success the step
    /// moves to `Extracting`; on failure the step fails and the rest of
    /// the plan is skipped.
    pub fn verify_step(&mut self, signature: Option<&Vec<u8>>, key_id: Option<&str>) -> (r: bool)
        requires
            old(self).wf(),
            old(self)@.cursor < old(self)@.plan.len(),
            old(self)@.status[old(self)@.cursor] is Verifying,
            old(self)@.pending is Some,
            old(self)@.plan[old(self)@.cursor] matches StepV::Install(c),
        ensures
            final(self).wf(),
            ({
                let c = old(self)@.plan[old(self)@.cursor]->Install_0;
                let data = old(self)@.pending->0;
                let sum_ok = c.record.sha256.len() == 0 || spec_hex_of(sha256_of(data))
                    == c.record.sha256;
                let sig_ok = match key_id {
                    None => true,
                    Some(k) => crate::text::spec_has_string(old(self)@.keys, k@),
                };
                if !sum_ok {
                    !r && final(self)@ == (ExecV {
                        status: spec_abort_statuses(
                            old(self)@.status,
                            old(self)@.cursor,
                            FailReason::ChecksumMismatch,
                        ),
                        cursor: old(self)@.plan.len() as int,
                        pending: None,
                        ..old(self)@
                    })
                } else if !sig_ok {
                    !r && final(self)@ == (ExecV {
                        status: spec_abort_statuses(
                            old(self)@.status,
                            old(self)@.cursor,
                            FailReason::UntrustedSignature,
                        ),
                        cursor: old(self)@.plan.len() as int,
                        pending: None,
                        ..old(self)@
                    })
                } else {
                    r && final(self)@ == (ExecV {
                        status: old(self)@.status.update(old(self)@.cursor, StepStatus::Extracting),
                        ..old(self)@
                    })
                }
            }),
    {
        let step = &self.plan.steps[self.cursor];
        proof {
            assert(self@.plan[self@.cursor] == self.plan.steps[self.cursor as int]@);
        }
        let expected = match step {
            Step::Install(c) => c.record.sha256.clone(),
            Step::Remove(_) => {
                proof {
                    assert(false);
                }
                String::new()
            },
        };
        let mut sum_ok = true;
        if expected.as_str().unicode_len() != 0 {
            match &self.pending_data {
                Some(d) => {
                    sum_ok = self.verifier.verify_checksum(d.as_slice(), expected.as_str());
                },
                None => {
                    proof {
                        assert(false);
                    }
                },
            }
        }
        if !sum_ok {
            self.abort(FailReason::ChecksumMismatch);
            return false;
        }
        let sig_ok = match key_id {
            None => true,
            Some(k) => {
                let _ = signature;
                self.verifier.is_key_trusted(k)
            },
        };
        if !sig_ok {
            self.abort(FailReason::UntrustedSignature);
            return false;
        }
        self.status.set(self.cursor, StepStatus::Extracting);
        proof {
            assert(self@.status =~= old(self)@.status.update(
                old(self)@.cursor,
                StepStatus::Extracting,
            ));
        }
        true
    }

    /// The caller unpacked the artifact under `install_path` and found
    /// the given files: the installed package is recorded in the store
    /// (file list = archive contents, timestamp `now`), the artifact is
    /// dropped, and the cursor moves on. Commits happen strictly in
    /// plan order.
    pub fn extraction_done(&mut self, files: Vec<String>, install_path: String, now: u64)
        requires
            old(self).wf(),
            old(self)@.cursor < old(self)@.plan.len(),
            old(self)@.status[old(self)@.cursor] is Extracting,
            old(self)@.plan[old(self)@.cursor] matches StepV::Install(c),
        ensures
            final(self).wf(),
            ({
                let c = old(self)@.plan[old(self)@.cursor]->Install_0;
                let pkg = (PackageV {
                    name: c.record.name,
                    version: c.record.version,
                    architecture: c.record.architecture,
                    description: c.record.description,
                    dependencies: crate::package::spec_deps_of(c.record.dependencies),
                    conflicts: c.record.conflicts,
                    provides: c.record.provides,
                    replaces: c.record.replaces,
                    install_path: install_path@,
                    files: files.deep_view(),
                    install_date: now,
                    size: c.record.size,
                    installed_size: c.record.installed_size,
                    maintainer: c.record.maintainer,
                    homepage: c.record.homepage,
                    section: c.record.section,
                    priority: c.record.priority,
                });
                final(self)@ == (ExecV {
                    status: old(self)@.status.update(old(self)@.cursor, StepStatus::Committed),
                    cursor: old(self)@.cursor + 1,
                    store: spec_record(old(self)@.store, pkg),
                    pending: None,
                    ..old(self)@
                })
            }),
    {
        let step = &self.plan.steps[self.cursor];
        proof {
            assert(self@.plan[self@.cursor] == self.plan.steps[self.cursor as int]@);
        }
        let record = match step {
            Step::Install(c) => c.record.clone(),
            Step::Remove(_) => {
                proof {
                    assert(false);
                }
                crate::package_info::PackageInfo::new(
                    String::new(),
                    String::new(),
                    String::new(),
                    String::new(),
                )
            },
        };
        let mut pkg = Package::new(record, install_path, now);
        pkg.files = files;
        self.store.record(pkg);
        self.status.set(self.cursor, StepStatus::Committed);
        let n = self.plan.steps.len();
        proof {
            assert(self@.plan.len() == n as int);
            assert(self.cursor < n);
        }
        self.cursor = self.cursor + 1;
        self.pending_data = None;
        proof {
            assert(self@.status =~= old(self)@.status.update(
                old(self)@.cursor,
                StepStatus::Committed,
            ));
        }
    }

    /// The caller's unpacking failed: the step fails with
    /// `ExtractFailed` and the rest of the plan is skipped.
    pub fn extraction_failed(&mut self)
        requires
            old(self).wf(),
            old(self)@.cursor < old(self)@.plan.len(),
            old(self)@.status[old(self)@.cursor] is Extracting,
        ensures
            final(self).wf(),
            final(self)@ == (ExecV {
                status: spec_abort_statuses(
                    old(self)@.status,
                    old(self)@.cursor,
                    FailReason::ExtractFailed,
                ),
                cursor: old(self)@.plan.len() as int,
                pending: None,
                ..old(self)@
            }),
    {
        self.abort(FailReason::ExtractFailed);
    }

    /// Runs a `Remove` step: the named package leaves the store (a name
    /// not present changes nothing) and the step commits.
    pub fn execute_remove(&mut self) -> (r: bool)
        requires
            old(self).wf(),
            old(self)@.cursor < old(self)@.plan.len(),
            old(self)@.status[old(self)@.cursor] is Pending,
            old(self)@.plan[old(self)@.cursor] matches StepV::Remove(n),
        ensures
            final(self).wf(),
            ({
                let n = old(self)@.plan[old(self)@.cursor]->Remove_0;
                final(self)@ == (ExecV {
                    status: old(self)@.status.update(old(self)@.cursor, StepStatus::Committed),
                    cursor: old(self)@.cursor + 1,
                    store: match crate::store::spec_find_pkg(old(self)@.store, n) {
                        None => old(self)@.store,
                        Some(i) => old(self)@.store.remove(i),
                    },
                    ..old(self)@
                }) && r == (crate::store::spec_find_pkg(old(self)@.store, n) is Some)
            }),
    {
        let step = &self.plan.steps[self.cursor];
        proof {
            assert(self@.plan[self@.cursor] == self.plan.steps[self.cursor as int]@);
        }
        let name = match step {
            Step::Remove(n) => n.clone(),
            Step::Install(_) => {
                proof {
                    assert(false);
                }
                String::new()
            },
        };
        let r = self.store.remove(name.as_str());
        self.status.set(self.cursor, StepStatus::Committed);
        let n = self.plan.steps.len();
        proof {
            assert(self@.plan.len() == n as int);
            assert(self.cursor < n);
        }
        self.cursor = self.cursor + 1;
        proof {
            assert(self@.status =~= old(self)@.status.update(
                old(self)@.cursor,
                StepStatus::Committed,
            ));
        }
        r
    }

    /// How many steps are committed, failed, and skipped.
    pub fn summary(&self) -> (r: (usize, usize, usize))
        ensures
            r.0 == spec_count_committed(self@.status),
            r.1 == spec_count_failed(self@.status),
            r.2 == spec_count_skipped(self@.status),
    {
        let mut nc: usize = 0;
        let mut nf: usize = 0;
        let mut ns: usize = 0;
        let mut i: usize = 0;
        let n = self.status.len();
        proof {
            assert(self@.status.take(0) =~= Seq::<StepStatus>::empty());
        }
        while i < n
            invariant
                0 <= i <= n,
                n == self.status.len(),
                self@.status.len() == n as int,
                nc == spec_count_committed(self@.status.take(i as int)),
                nf == spec_count_failed(self@.status.take(i as int)),
                ns == spec_count_skipped(self@.status.take(i as int)),
                nc <= i && nf <= i && ns <= i,
            decreases n - i,
        {
            proof {
                assert(self@.status.take(i + 1).drop_last() =~= self@.status.take(i as int));
                assert(self@.status.take(i + 1).last() == self@.status[i as int]);
                assert(self@.status[i as int] == self.status[i as int]);
            }
            let s = self.status[i];
            match s {
                StepStatus::Committed => {
                    nc = nc + 1;
                },
                StepStatus::Failed(_) => {
                    nf = nf + 1;
                },
                StepStatus::Skipped => {
                    ns = ns + 1;
                },
                _ => {},
            }
            i = i + 1;
        }
        proof {
            assert(self@.status.take(n as int) =~= self@.status);
        }
        (nc, nf, ns)
    }

    /// The partial-failure report: how many of the plan's steps
    /// committed, as `"N of M steps completed"`.
    pub fn progress_message(&self) -> (r: String)
        ensures
            r@ == spec_u64_string(spec_count_committed(self@.status)) + " of "@ + spec_u64_string(
                self@.status.len() as nat,
            ) + " steps completed"@,
    {
        let (nc, _, _) = self.summary();
        proof {
            lemma_counts_le(self@.status);
        }
        let mut s = u64_to_string(nc as u64);
        s.append(" of ");
        let total = u64_to_string(self.status.len() as u64);
        s.append(total.as_str());
        s.append(" steps completed");
        s
    }
}

} // verus!
