//! Index-document parsing and dependency-constraint scenarios.

use persianpkt::dependency::PackageDependency;
use persianpkt::parser::{get_field, parse_packages_file, parse_release_file};
use persianpkt::version::parse_version;

const DOC: &str = "Package: foo\n\
Version: 1.2.3\n\
Architecture: amd64\n\
Description: a test package\n\
 with a continuation line\n\
Depends: lib (>=1.0.0, <2.0.0), tool\n\
Conflicts: bar\n\
Provides: virtual-foo\n\
Size: 2048\n\
Installed-Size: 10\n\
Maintainer: someone\n\
Homepage: https://example.com/foo\n\
Section: utils\n\
Priority: optional\n\
Filename: pool/foo_1.2.3_amd64.deb\n\
SHA256: abc123\n\
\n\
Package: bare\n\
Version: 0.1.0\n\
Architecture: all\n\
\n\
Version: 9.9.9\n\
Architecture: none\n";

#[test]
fn parses_stanzas_into_records() {
    let records = parse_packages_file(DOC);
    // The third stanza has no Package field and is dropped.
    assert_eq!(records.len(), 2);
    let foo = &records[0];
    assert_eq!(foo.name, "foo");
    assert_eq!(foo.version, "1.2.3");
    assert_eq!(foo.architecture, "amd64");
    assert_eq!(foo.description, "a test package");
    assert_eq!(
        foo.dependencies,
        vec!["lib (>=1.0.0, <2.0.0)".to_string(), "tool".to_string()]
    );
    assert_eq!(foo.conflicts, vec!["bar".to_string()]);
    assert_eq!(foo.provides, vec!["virtual-foo".to_string()]);
    assert_eq!(foo.size, 2048);
    // Installed-Size is kilobytes in the source format.
    assert_eq!(foo.installed_size, 10 * 1024);
    assert_eq!(foo.maintainer, "someone");
    assert_eq!(foo.homepage, Some("https://example.com/foo".to_string()));
    assert_eq!(foo.section, "utils");
    assert_eq!(foo.priority, "optional");
    assert_eq!(foo.filename, "pool/foo_1.2.3_amd64.deb");
    assert_eq!(foo.sha256, "abc123");
    assert_eq!(records[1].name, "bare");
    assert_eq!(records[1].homepage, None);
}

#[test]
fn parses_crlf_documents() {
    let doc = "Package: a\r\nVersion: 1.0.0\r\nArchitecture: all\r\n\r\n";
    let records = parse_packages_file(doc);
    assert_eq!(records.len(), 1);
    assert_eq!(records[0].name, "a");
    assert_eq!(records[0].version, "1.0.0");
}

#[test]
fn later_field_wins_on_a_repeat() {
    let doc = "Package: a\nVersion: 1.0.0\nVersion: 2.0.0\nArchitecture: all\n";
    let records = parse_packages_file(doc);
    assert_eq!(records.len(), 1);
    assert_eq!(records[0].version, "2.0.0");
}

#[test]
fn overlong_installed_size_counts_as_absent() {
    let doc = "Package: a\nVersion: 1.0.0\nArchitecture: all\nInstalled-Size: 99999999999999999999\n";
    let records = parse_packages_file(doc);
    assert_eq!(records[0].installed_size, 0);
}

#[test]
fn release_file_yields_pairs() {
    let doc = "Origin: Debian\nSuite: stable\nnot a field line\nDate: someday\n";
    let pairs = parse_release_file(doc);
    assert_eq!(pairs.len(), 3);
    assert_eq!(pairs[0].key, "Origin");
    assert_eq!(pairs[0].value, "Debian");
    assert_eq!(get_field(&pairs, "Suite"), Some("stable".to_string()));
    assert_eq!(get_field(&pairs, "Component"), None);
}

#[test]
fn constraint_matches_the_window() {
    let dep = PackageDependency::with_version_req(
        "lib".to_string(),
        ">=1.0.0, <2.0.0".to_string(),
    );
    assert!(dep.satisfies("1.5.0"));
    assert!(dep.satisfies("1.0.0"));
    assert!(!dep.satisfies("2.0.0"));
    assert!(!dep.satisfies("0.9.0"));
}

#[test]
fn malformed_version_never_satisfies_a_constraint() {
    let dep = PackageDependency::with_version_req("lib".to_string(), ">=1.0.0".to_string());
    assert!(!dep.satisfies("not-a-version"));
    let free = PackageDependency::new("lib".to_string());
    assert!(free.satisfies("anything-at-all"));
}

#[test]
fn comparators_have_their_meanings() {
    let cases = [
        (">1.0.0", "1.0.1", true),
        (">1.0.0", "1.0.0", false),
        ("<1.0.0", "0.9.9", true),
        ("<1.0.0", "1.0.0", false),
        ("=1.2.3", "1.2.3", true),
        ("=1.2.3", "1.2.4", false),
        ("1.2.3", "1.2.3", true),
        ("<=1.0.0", "1.0.0", true),
        (">=1.0.0", "1.0.0", true),
    ];
    for (req, version, expected) in cases {
        let dep = PackageDependency::with_version_req("x".to_string(), req.to_string());
        assert_eq!(dep.satisfies(version), expected, "{} vs {}", req, version);
    }
}

#[test]
fn dependency_from_string_and_back() {
    let dep = PackageDependency::from_string("lib (>=1.0.0, <2.0.0)").unwrap();
    assert_eq!(dep.name, "lib");
    assert_eq!(dep.version_req, Some(">=1.0.0, <2.0.0".to_string()));
    assert!(!dep.is_optional);
    assert_eq!(dep.to_string(), "lib (>=1.0.0, <2.0.0)");

    let bare = PackageDependency::from_string("  tool  ").unwrap();
    assert_eq!(bare.name, "tool");
    assert_eq!(bare.version_req, None);
    assert_eq!(bare.to_string(), "tool");

    assert!(PackageDependency::from_string("   ").is_none());
}

#[test]
fn dependency_without_parentheses_still_parses() {
    let dep = PackageDependency::from_string("lib >=1.0.0").unwrap();
    assert_eq!(dep.name, "lib");
    assert_eq!(dep.version_req, Some(">=1.0.0".to_string()));
}

#[test]
fn optional_flag_is_carried() {
    let dep = PackageDependency::new("extra".to_string()).optional();
    assert!(dep.is_optional);
}

#[test]
fn semantic_versions_parse_to_components() {
    let v = parse_version("1.2.3").unwrap();
    assert_eq!((v.major, v.minor, v.patch), (1, 2, 3));
    assert!(parse_version("1.2").is_none());
    assert!(parse_version("nonsense").is_none());
}
