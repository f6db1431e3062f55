//! Resolution and execution scenarios.

use persianpkt::executor::{FailReason, StepStatus, TransactionExecutor};
use persianpkt::index::RepositoryIndex;
use persianpkt::package::Package;
use persianpkt::package_info::PackageInfo;
use persianpkt::plan::Step;
use persianpkt::cache::CacheSystem;
use persianpkt::resolver::{parse_request, DependencyResolver, Request, ResolveError};
use persianpkt::security::SecurityVerifier;
use persianpkt::store::PackageStore;

fn record(name: &str, version: &str, deps: &[&str]) -> PackageInfo {
    let mut info = PackageInfo::new(
        name.to_string(),
        version.to_string(),
        "amd64".to_string(),
        format!("the {} package", name),
    );
    for d in deps {
        info.add_dependency(d.to_string());
    }
    info
}

fn request(name: &str) -> Request {
    Request { name: name.to_string(), pin: None }
}

fn install_names(plan: &persianpkt::plan::TransactionPlan) -> Vec<(String, String)> {
    plan.steps
        .iter()
        .map(|s| match s {
            Step::Install(c) => (c.record.name.clone(), c.record.version.clone()),
            Step::Remove(n) => (n.clone(), String::new()),
        })
        .collect()
}

#[test]
fn resolves_single_package() {
    let mut index = RepositoryIndex::new();
    index.add_records("main", 100, vec![record("foo", "1.0.0", &[])]);
    let resolver = DependencyResolver::new();
    let plan = resolver
        .resolve_dependencies(&vec![request("foo")], &index)
        .expect("resolution must succeed");
    assert_eq!(install_names(&plan), vec![("foo".to_string(), "1.0.0".to_string())]);
}

#[test]
fn priority_wins_over_version_order() {
    // foo 1.0.0 from a priority-50 repository, foo 2.0.0 from priority 100:
    // the unpinned request selects 2.0.0.
    let mut index = RepositoryIndex::new();
    index.add_records("old", 50, vec![record("foo", "1.0.0", &[])]);
    index.add_records("new", 100, vec![record("foo", "2.0.0", &[])]);
    let resolver = DependencyResolver::new();
    let plan = resolver
        .resolve_dependencies(&vec![request("foo")], &index)
        .expect("resolution must succeed");
    assert_eq!(install_names(&plan), vec![("foo".to_string(), "2.0.0".to_string())]);
}

#[test]
fn pin_overrides_priority() {
    let mut index = RepositoryIndex::new();
    index.add_records("old", 50, vec![record("foo", "1.0.0", &[])]);
    index.add_records("new", 100, vec![record("foo", "2.0.0", &[])]);
    let resolver = DependencyResolver::new();
    let req = Request { name: "foo".to_string(), pin: Some("1.0.0".to_string()) };
    let plan = resolver
        .resolve_dependencies(&vec![req], &index)
        .expect("resolution must succeed");
    assert_eq!(install_names(&plan), vec![("foo".to_string(), "1.0.0".to_string())]);
}

#[test]
fn constraint_selects_middle_version() {
    // app depends on lib (>=1.0.0, <2.0.0); lib 0.9.0, 1.5.0 and 2.0.0
    // exist; resolution must select lib 1.5.0, and install it before app.
    let mut index = RepositoryIndex::new();
    index.add_records(
        "main",
        100,
        vec![
            record("lib", "0.9.0", &[]),
            record("lib", "1.5.0", &[]),
            record("lib", "2.0.0", &[]),
            record("app", "1.0.0", &["lib (>=1.0.0, <2.0.0)"]),
        ],
    );
    let resolver = DependencyResolver::new();
    let plan = resolver
        .resolve_dependencies(&vec![request("app")], &index)
        .expect("resolution must succeed");
    assert_eq!(
        install_names(&plan),
        vec![
            ("lib".to_string(), "1.5.0".to_string()),
            ("app".to_string(), "1.0.0".to_string()),
        ]
    );
}

#[test]
fn dependencies_precede_dependents() {
    let mut index = RepositoryIndex::new();
    index.add_records(
        "main",
        100,
        vec![
            record("c", "1.0.0", &[]),
            record("b", "1.0.0", &["c"]),
            record("a", "1.0.0", &["b", "c"]),
        ],
    );
    let resolver = DependencyResolver::new();
    let plan = resolver
        .resolve_dependencies(&vec![request("a")], &index)
        .expect("resolution must succeed");
    let names: Vec<String> = install_names(&plan).into_iter().map(|p| p.0).collect();
    let pos = |n: &str| names.iter().position(|x| x == n).unwrap();
    assert!(pos("c") < pos("b"));
    assert!(pos("b") < pos("a"));
    assert!(pos("c") < pos("a"));
}

#[test]
fn resolving_twice_gives_identical_plans() {
    let mut index = RepositoryIndex::new();
    index.add_records(
        "main",
        100,
        vec![record("lib", "1.5.0", &[]), record("app", "1.0.0", &["lib"])],
    );
    let resolver = DependencyResolver::new();
    let reqs = vec![request("app")];
    let p1 = resolver.resolve_dependencies(&reqs, &index).expect("first resolution");
    let p2 = resolver.resolve_dependencies(&reqs, &index).expect("second resolution");
    assert_eq!(install_names(&p1), install_names(&p2));
}

#[test]
fn cycle_is_detected() {
    // A depends on B and B depends on A: resolution must fail with
    // CyclicDependency and must terminate.
    let mut index = RepositoryIndex::new();
    index.add_records(
        "main",
        100,
        vec![record("a", "1.0.0", &["b"]), record("b", "1.0.0", &["a"])],
    );
    let resolver = DependencyResolver::new();
    match resolver.resolve_dependencies(&vec![request("a")], &index) {
        Err(ResolveError::CyclicDependency { path }) => {
            assert!(path.contains(&"a".to_string()));
            assert!(path.contains(&"b".to_string()));
        }
        other => panic!("expected a cycle failure, got {:?}", other),
    }
}

#[test]
fn conflict_fails_in_either_request_order() {
    let mut a = record("a", "1.0.0", &[]);
    a.conflicts.push("b".to_string());
    let b = record("b", "1.0.0", &[]);
    let mut index = RepositoryIndex::new();
    index.add_records("main", 100, vec![a, b]);
    let resolver = DependencyResolver::new();
    for order in [vec![request("a"), request("b")], vec![request("b"), request("a")]] {
        match resolver.resolve_dependencies(&order, &index) {
            Err(ResolveError::ConflictDetected { first, second }) => {
                let mut pair = vec![first, second];
                pair.sort();
                assert_eq!(pair, vec!["a".to_string(), "b".to_string()]);
            }
            other => panic!("expected a conflict failure, got {:?}", other),
        }
    }
}

#[test]
fn conflict_through_provides_is_detected() {
    let mut a = record("a", "1.0.0", &[]);
    a.conflicts.push("virtual-x".to_string());
    let mut b = record("b", "1.0.0", &[]);
    b.provides.push("virtual-x".to_string());
    let mut index = RepositoryIndex::new();
    index.add_records("main", 100, vec![a, b]);
    let resolver = DependencyResolver::new();
    assert!(matches!(
        resolver.resolve_dependencies(&vec![request("a"), request("b")], &index),
        Err(ResolveError::ConflictDetected { .. })
    ));
}

#[test]
fn missing_package_is_unsatisfiable() {
    let index = RepositoryIndex::new();
    let resolver = DependencyResolver::new();
    match resolver.resolve_dependencies(&vec![request("ghost")], &index) {
        Err(ResolveError::UnsatisfiableConstraint { name, .. }) => assert_eq!(name, "ghost"),
        other => panic!("expected an unsatisfiable failure, got {:?}", other),
    }
}

#[test]
fn unsatisfiable_constraint_names_the_specs() {
    let mut index = RepositoryIndex::new();
    index.add_records(
        "main",
        100,
        vec![record("lib", "0.9.0", &[]), record("app", "1.0.0", &["lib (>=1.0.0)"])],
    );
    let resolver = DependencyResolver::new();
    match resolver.resolve_dependencies(&vec![request("app")], &index) {
        Err(ResolveError::UnsatisfiableConstraint { name, constraints }) => {
            assert_eq!(name, "lib");
            assert_eq!(constraints, vec![">=1.0.0".to_string()]);
        }
        other => panic!("expected an unsatisfiable failure, got {:?}", other),
    }
}

#[test]
fn installed_package_needs_no_step() {
    let mut index = RepositoryIndex::new();
    index.add_records("main", 100, vec![record("foo", "1.0.0", &[])]);
    let mut resolver = DependencyResolver::new();
    let installed = Package::new(record("foo", "1.0.0", &[]), "/opt/foo".to_string(), 7);
    resolver.load_installed_packages(vec![installed]);
    let plan = resolver
        .resolve_dependencies(&vec![request("foo")], &index)
        .expect("resolution must succeed");
    assert_eq!(plan.len(), 0);
}

#[test]
fn installed_at_wrong_version_is_replaced() {
    let mut index = RepositoryIndex::new();
    index.add_records(
        "main",
        100,
        vec![record("lib", "2.0.0", &[]), record("app", "1.0.0", &["lib (>=2.0.0)"])],
    );
    let mut resolver = DependencyResolver::new();
    resolver.load_installed_packages(vec![Package::new(
        record("lib", "1.0.0", &[]),
        "/opt/lib".to_string(),
        7,
    )]);
    let plan = resolver
        .resolve_dependencies(&vec![request("app")], &index)
        .expect("resolution must succeed");
    assert_eq!(
        install_names(&plan),
        vec![
            ("lib".to_string(), "2.0.0".to_string()),
            ("app".to_string(), "1.0.0".to_string()),
        ]
    );
}

#[test]
fn removal_is_blocked_by_dependents() {
    let mut resolver = DependencyResolver::new();
    resolver.load_installed_packages(vec![
        Package::new(record("lib", "1.0.0", &[]), "/opt/lib".to_string(), 7),
        Package::new(record("app", "1.0.0", &["lib"]), "/opt/app".to_string(), 7),
    ]);
    match resolver.resolve_removal(&vec!["lib".to_string()], false) {
        Err(ResolveError::DependentsBlockRemoval { name, dependents }) => {
            assert_eq!(name, "lib");
            assert_eq!(dependents, vec!["app".to_string()]);
        }
        other => panic!("expected a blocked removal, got {:?}", other),
    }
}

#[test]
fn forced_removal_removes_dependents_first() {
    let mut resolver = DependencyResolver::new();
    resolver.load_installed_packages(vec![
        Package::new(record("lib", "1.0.0", &[]), "/opt/lib".to_string(), 7),
        Package::new(record("app", "1.0.0", &["lib"]), "/opt/app".to_string(), 7),
    ]);
    let plan = resolver
        .resolve_removal(&vec!["lib".to_string()], true)
        .expect("forced removal must succeed");
    let names: Vec<String> = plan
        .steps
        .iter()
        .map(|s| match s {
            Step::Remove(n) => n.clone(),
            Step::Install(_) => panic!("no install steps in a removal plan"),
        })
        .collect();
    assert_eq!(names, vec!["app".to_string(), "lib".to_string()]);
}

#[test]
fn check_conflicts_names_both_sides() {
    let mut a = record("a", "1.0.0", &[]);
    a.conflicts.push("b".to_string());
    let b = record("b", "1.0.0", &[]);
    let c = record("c", "1.0.0", &[]);
    let resolver = DependencyResolver::new();
    let names = resolver.check_conflicts(&vec![a, b, c]);
    assert_eq!(names, vec!["a".to_string(), "b".to_string()]);
}

#[test]
fn reverse_dependencies_are_found() {
    let mut resolver = DependencyResolver::new();
    resolver.load_installed_packages(vec![
        Package::new(record("lib", "1.0.0", &[]), "/opt/lib".to_string(), 7),
        Package::new(record("app", "1.0.0", &["lib"]), "/opt/app".to_string(), 7),
        Package::new(record("tool", "1.0.0", &[]), "/opt/tool".to_string(), 7),
    ]);
    let deps = resolver.find_reverse_dependencies("lib");
    assert_eq!(deps.len(), 1);
    assert_eq!(deps[0].name, "app");
}

#[test]
fn parse_request_splits_name_and_pin() {
    let r = parse_request("foo@1.2.3");
    assert_eq!(r.name, "foo");
    assert_eq!(r.pin, Some("1.2.3".to_string()));
    let r2 = parse_request("bar");
    assert_eq!(r2.name, "bar");
    assert_eq!(r2.pin, None);
}

fn plan_for(records: Vec<PackageInfo>, wanted: &str) -> persianpkt::plan::TransactionPlan {
    let mut index = RepositoryIndex::new();
    index.add_records("main", 100, records);
    let resolver = DependencyResolver::new();
    resolver
        .resolve_dependencies(&vec![request(wanted)], &index)
        .expect("resolution must succeed")
}

#[test]
fn executor_walks_a_step_to_commit() {
    let mut rec = record("foo", "1.0.0", &[]);
    let verifier = SecurityVerifier::new();
    let payload = b"artifact-bytes".to_vec();
    rec.sha256 = verifier.calculate_checksum(&payload);
    let plan = plan_for(vec![rec], "foo");
    let mut exec = TransactionExecutor::new(
        plan,
        CacheSystem::new("/tmp/cache".to_string()),
        verifier,
        PackageStore::new(),
    );
    // Cache miss: the caller must fetch.
    assert!(exec.begin_download().is_none());
    exec.provide_download(payload, 1000);
    assert!(exec.verify_step(None, None));
    exec.extraction_done(
        vec!["usr/bin/foo".to_string()],
        "/opt/foo".to_string(),
        1001,
    );
    assert_eq!(exec.status[0], StepStatus::Committed);
    let stored = exec.store.find("foo").expect("committed package must be recorded");
    assert_eq!(stored.version, "1.0.0");
    assert_eq!(stored.files, vec!["usr/bin/foo".to_string()]);
    assert_eq!(stored.install_date, 1001);
    assert_eq!(exec.progress_message(), "1 of 1 steps completed");
}

#[test]
fn executor_uses_the_cache_on_a_hit() {
    let rec = record("foo", "1.0.0", &[]);
    let plan = plan_for(vec![rec], "foo");
    let mut cache = CacheSystem::new("/tmp/cache".to_string());
    cache.store_package("foo", "1.0.0", b"cached-bytes", 500);
    let mut exec =
        TransactionExecutor::new(plan, cache, SecurityVerifier::new(), PackageStore::new());
    let hit = exec.begin_download().expect("the cache must answer");
    assert_eq!(hit, b"cached-bytes".to_vec());
    assert_eq!(exec.status[0], StepStatus::Verifying);
}

#[test]
fn checksum_mismatch_aborts_the_rest() {
    let mut bad = record("bad", "1.0.0", &[]);
    bad.sha256 = "0000000000000000000000000000000000000000000000000000000000000000".to_string();
    let other = record("other", "1.0.0", &[]);
    let mut index = RepositoryIndex::new();
    index.add_records("main", 100, vec![bad, other]);
    let resolver = DependencyResolver::new();
    let plan = resolver
        .resolve_dependencies(&vec![request("bad"), request("other")], &index)
        .expect("resolution must succeed");
    assert_eq!(plan.len(), 2);
    let mut exec = TransactionExecutor::new(
        plan,
        CacheSystem::new("/tmp/cache".to_string()),
        SecurityVerifier::new(),
        PackageStore::new(),
    );
    assert!(exec.begin_download().is_none());
    exec.provide_download(b"whatever".to_vec(), 1000);
    assert!(!exec.verify_step(None, None));
    assert_eq!(exec.status[0], StepStatus::Failed(FailReason::ChecksumMismatch));
    assert_eq!(exec.status[1], StepStatus::Skipped);
    let (committed, failed, skipped) = exec.summary();
    assert_eq!((committed, failed, skipped), (0, 1, 1));
    assert_eq!(exec.progress_message(), "0 of 2 steps completed");
}

#[test]
fn untrusted_signature_fails_closed() {
    let rec = record("foo", "1.0.0", &[]);
    let plan = plan_for(vec![rec], "foo");
    let mut exec = TransactionExecutor::new(
        plan,
        CacheSystem::new("/tmp/cache".to_string()),
        SecurityVerifier::new(),
        PackageStore::new(),
    );
    assert!(exec.begin_download().is_none());
    exec.provide_download(b"payload".to_vec(), 1000);
    let signature = b"sig".to_vec();
    assert!(!exec.verify_step(Some(&signature), Some("nobody")));
    assert_eq!(exec.status[0], StepStatus::Failed(FailReason::UntrustedSignature));
}

#[test]
fn failed_fetch_skips_the_rest() {
    let mut index = RepositoryIndex::new();
    index.add_records("main", 100, vec![record("a", "1.0.0", &[]), record("b", "1.0.0", &[])]);
    let resolver = DependencyResolver::new();
    let plan = resolver
        .resolve_dependencies(&vec![request("a"), request("b")], &index)
        .expect("resolution must succeed");
    let mut exec = TransactionExecutor::new(
        plan,
        CacheSystem::new("/tmp/cache".to_string()),
        SecurityVerifier::new(),
        PackageStore::new(),
    );
    assert!(exec.begin_download().is_none());
    exec.fetch_failed();
    assert_eq!(exec.status[0], StepStatus::Failed(FailReason::FetchFailed));
    assert_eq!(exec.status[1], StepStatus::Skipped);
    assert!(exec.current().is_none());
}

#[test]
fn failed_extraction_fails_the_step() {
    let rec = record("foo", "1.0.0", &[]);
    let plan = plan_for(vec![rec], "foo");
    let mut exec = TransactionExecutor::new(
        plan,
        CacheSystem::new("/tmp/cache".to_string()),
        SecurityVerifier::new(),
        PackageStore::new(),
    );
    assert!(exec.begin_download().is_none());
    exec.provide_download(b"not really an archive".to_vec(), 1000);
    assert!(exec.verify_step(None, None));
    exec.extraction_failed();
    assert_eq!(exec.status[0], StepStatus::Failed(FailReason::ExtractFailed));
    assert!(exec.store.find("foo").is_none());
}

#[test]
fn executor_runs_remove_steps() {
    let mut store = PackageStore::new();
    store.record(Package::new(record("foo", "1.0.0", &[]), "/opt/foo".to_string(), 7));
    let plan = persianpkt::plan::TransactionPlan { steps: vec![Step::Remove("foo".to_string())] };
    let mut exec = TransactionExecutor::new(
        plan,
        CacheSystem::new("/tmp/cache".to_string()),
        SecurityVerifier::new(),
        store,
    );
    assert!(exec.execute_remove());
    assert_eq!(exec.status[0], StepStatus::Committed);
    assert!(exec.store.find("foo").is_none());
}
