//! Store, cache and security scenarios.

use persianpkt::cache::CacheSystem;
use persianpkt::package::Package;
use persianpkt::package_info::PackageInfo;
use persianpkt::security::SecurityVerifier;
use persianpkt::store::PackageStore;

fn sample_package() -> Package {
    let mut info = PackageInfo::new(
        "foo".to_string(),
        "1.2.3".to_string(),
        "amd64".to_string(),
        "a sample".to_string(),
    );
    info.add_dependency("lib (>=1.0.0, <2.0.0)".to_string());
    info.add_dependency("tool".to_string());
    info.conflicts.push("bar".to_string());
    info.provides.push("virtual-foo".to_string());
    info.set_size(2048);
    info.set_installed_size(4096);
    info.set_maintainer("someone".to_string());
    info.set_homepage("https://example.com".to_string());
    info.set_section("utils".to_string());
    info.set_priority("optional".to_string());
    let mut p = Package::new(info, "/opt/foo".to_string(), 12345);
    p.add_file("usr/bin/foo".to_string());
    p.add_file("usr/share/doc/foo".to_string());
    p
}

#[test]
fn record_round_trips_through_its_document() {
    // A record written by a commit and reloaded reproduces the same
    // name, version and file list (and every other field).
    let p = sample_package();
    let doc = p.render_record();
    let q = Package::parse_record(&doc).expect("the rendered record must parse");
    assert_eq!(q.name, p.name);
    assert_eq!(q.version, p.version);
    assert_eq!(q.files, p.files);
    assert_eq!(q.architecture, p.architecture);
    assert_eq!(q.description, p.description);
    assert_eq!(q.install_path, p.install_path);
    assert_eq!(q.install_date, p.install_date);
    assert_eq!(q.size, p.size);
    assert_eq!(q.installed_size, p.installed_size);
    assert_eq!(q.maintainer, p.maintainer);
    assert_eq!(q.homepage, p.homepage);
    assert_eq!(q.section, p.section);
    assert_eq!(q.priority, p.priority);
    assert_eq!(q.conflicts, p.conflicts);
    assert_eq!(q.provides, p.provides);
    assert_eq!(q.dependencies.len(), p.dependencies.len());
    for (a, b) in q.dependencies.iter().zip(p.dependencies.iter()) {
        assert_eq!(a.name, b.name);
        assert_eq!(a.version_req, b.version_req);
    }
}

#[test]
fn mangled_record_is_rejected() {
    assert!(Package::parse_record("just one line").is_none());
}

#[test]
fn store_loads_rendered_documents() {
    let p = sample_package();
    let doc = p.render_record();
    let store = PackageStore::load(&vec![doc, "garbage".to_string()]);
    assert_eq!(store.len(), 1);
    let found = store.find("foo").expect("foo must be loaded");
    assert_eq!(found.version, "1.2.3");
}

#[test]
fn is_installed_checks_name_and_version() {
    let mut store = PackageStore::new();
    let p = sample_package();
    store.record(p.clone());
    assert!(p.is_installed(&store));
    let mut newer = sample_package();
    newer.version = "9.9.9".to_string();
    assert!(!newer.is_installed(&store));
    store.remove("foo");
    assert!(!p.is_installed(&store));
}

#[test]
fn store_overwrites_by_name_and_removes() {
    let mut store = PackageStore::new();
    let p1 = sample_package();
    let mut p2 = sample_package();
    p2.version = "2.0.0".to_string();
    store.record(p1);
    assert_eq!(store.len(), 1);
    store.record(p2);
    assert_eq!(store.len(), 1);
    assert_eq!(store.find("foo").unwrap().version, "2.0.0");
    assert!(store.remove("foo"));
    assert!(!store.remove("foo"));
    assert!(store.find("foo").is_none());
    assert_eq!(store.all().len(), 0);
}

#[test]
fn cache_returns_the_exact_bytes_stored() {
    // A get after a put returns the exact bytes; eviction with a zero
    // age bound removes every entry and reports the count.
    let mut cache = CacheSystem::new("/var/cache/pkts".to_string());
    let payload = vec![0u8, 1, 2, 250, 255];
    cache.store_package("foo", "1.0.0", &payload, 1_000);
    cache.store_package("bar", "2.0.0", b"other", 2_000);
    assert!(cache.package_exists("foo", "1.0.0"));
    assert!(!cache.package_exists("foo", "9.9.9"));
    assert_eq!(cache.get_package("foo", "1.0.0"), Some(payload));
    assert_eq!(cache.get_package("ghost", "1.0.0"), None);
    assert_eq!(cache.get_cache_size(), 5 + 5);
    let removed = cache.clean_older_than(3_000, 0);
    assert_eq!(removed, 2);
    assert!(!cache.package_exists("foo", "1.0.0"));
    assert_eq!(cache.get_cache_size(), 0);
}

#[test]
fn cache_eviction_respects_the_age_bound() {
    let mut cache = CacheSystem::new("/var/cache/pkts".to_string());
    cache.store_package("old", "1.0.0", b"x", 1_000);
    cache.store_package("new", "1.0.0", b"y", 9_000);
    // At time 10_000 with a bound of 5_000 only the older entry goes.
    let removed = cache.clean_older_than(10_000, 5_000);
    assert_eq!(removed, 1);
    assert!(!cache.package_exists("old", "1.0.0"));
    assert!(cache.package_exists("new", "1.0.0"));
    assert_eq!(cache.clean_all(), 1);
    assert!(!cache.package_exists("new", "1.0.0"));
}

#[test]
fn cache_put_overwrites_the_same_key() {
    let mut cache = CacheSystem::new("/c".to_string());
    cache.store_package("foo", "1.0.0", b"first", 1);
    cache.store_package("foo", "1.0.0", b"second", 2);
    assert_eq!(cache.get_package("foo", "1.0.0"), Some(b"second".to_vec()));
    assert_eq!(cache.clean_all(), 1);
}

#[test]
fn cache_paths_are_deterministic() {
    let cache = CacheSystem::new("/var/cache/pkts".to_string());
    assert_eq!(
        cache.get_package_path("foo", "1.2.3"),
        "/var/cache/pkts/foo_1.2.3.pkg"
    );
}

#[test]
fn checksum_has_its_known_value() {
    let verifier = SecurityVerifier::new();
    // The SHA-256 of "abc", a published test vector.
    assert_eq!(
        verifier.calculate_checksum(b"abc"),
        "ba7816bf8f01cfea414140de5dae2223b00361a396177a9cb410ff61f20015ad"
    );
    assert_eq!(
        verifier.calculate_checksum(b""),
        "e3b0c44298fc1c149afbf4c8996fb92427ae41e4649b934ca495991b7852b855"
    );
}

#[test]
fn checksum_verification_matches_exactly() {
    let verifier = SecurityVerifier::new();
    let sum = verifier.calculate_checksum(b"payload");
    assert!(verifier.verify_checksum(b"payload", &sum));
    assert!(!verifier.verify_checksum(b"payload!", &sum));
}

#[test]
fn trust_list_membership_drives_signatures() {
    let mut verifier = SecurityVerifier::new();
    assert!(!verifier.is_key_trusted("alice"));
    verifier.add_trusted_key("alice");
    verifier.add_trusted_key("alice");
    assert_eq!(verifier.trusted_keys.len(), 1);
    assert!(verifier.is_key_trusted("alice"));
    // Fails closed for an untrusted key.
    assert!(!verifier.verify_signature(b"data", b"sig", "mallory"));
    assert!(verifier.verify_package(b"data", b"sig", "alice"));
    assert!(verifier.remove_trusted_key("alice"));
    assert!(!verifier.remove_trusted_key("alice"));
    assert!(!verifier.is_key_trusted("alice"));
}

#[test]
fn trusted_keys_load_from_a_document() {
    let mut verifier = SecurityVerifier::new();
    verifier.load_trusted_keys("alice\n\n  bob  \n\ncarol\n");
    assert_eq!(
        verifier.trusted_keys,
        vec!["alice".to_string(), "bob".to_string(), "carol".to_string()]
    );
}
