//! Repository, index, mirror, configuration and codec scenarios.

use persianpkt::compression::{compress_data, decompress_data, CompressionFormat};
use persianpkt::config::Config;
use persianpkt::index::RepositoryIndex;
use persianpkt::mirror::{Mirror, MirrorSelector};
use persianpkt::package_info::PackageInfo;
use persianpkt::paths::ConfigPaths;
use persianpkt::repository::{Repository, RepositoryManager};
use persianpkt::text::{parse_u64, u64_to_string};

fn record(name: &str, version: &str) -> PackageInfo {
    PackageInfo::new(
        name.to_string(),
        version.to_string(),
        "amd64".to_string(),
        String::new(),
    )
}

#[test]
fn repository_validates_its_url() {
    let repo = Repository::new("main".to_string(), "https://mirror.example.com/debian/")
        .expect("a https URL is accepted");
    assert!(repo.enabled);
    assert_eq!(repo.priority, 100);
    assert_eq!(repo.distribution, "stable");
    assert_eq!(repo.components, vec!["main".to_string()]);
    assert!(Repository::new("bad".to_string(), "ftp://mirror.example.com/").is_err());
    assert!(Repository::new("bad".to_string(), "not a url").is_err());
    assert!(Repository::new("bad".to_string(), "https://").is_err());
}

#[test]
fn repository_builds_its_urls() {
    let repo = Repository::new("main".to_string(), "https://mirror.example.com/debian/")
        .expect("a https URL is accepted");
    assert_eq!(
        repo.get_package_list_url("main", "amd64").unwrap(),
        "https://mirror.example.com/debian/dists/stable/main/amd64/Packages"
    );
    assert_eq!(
        repo.get_release_url().unwrap(),
        "https://mirror.example.com/debian/dists/stable/Release"
    );
}

#[test]
fn repository_component_lists_deduplicate() {
    let mut repo = Repository::new("main".to_string(), "https://m.example.com/")
        .expect("a https URL is accepted");
    repo.add_component("contrib".to_string());
    repo.add_component("contrib".to_string());
    assert_eq!(repo.components, vec!["main".to_string(), "contrib".to_string()]);
    repo.remove_component("main");
    assert_eq!(repo.components, vec!["contrib".to_string()]);
    repo.add_architecture("armhf".to_string());
    repo.remove_architecture("i386");
    assert_eq!(repo.architectures, vec!["amd64".to_string(), "armhf".to_string()]);
    repo.set_priority(42);
    repo.disable();
    assert!(!repo.enabled);
    repo.enable();
    assert!(repo.enabled);
}

#[test]
fn manager_keeps_names_unique() {
    let mut mgr = RepositoryManager::new("/etc/pkts/repositories.json".to_string());
    let a = Repository::new("a".to_string(), "https://a.example.com/").unwrap();
    let a2 = Repository::new("a".to_string(), "https://a2.example.com/").unwrap();
    let b = Repository::new("b".to_string(), "https://b.example.com/").unwrap();
    assert!(mgr.add_repository(a).is_ok());
    assert!(mgr.add_repository(a2).is_err());
    assert!(mgr.add_repository(b).is_ok());
    assert_eq!(mgr.list_repositories().len(), 2);
    assert!(mgr.get_repository("a").is_some());
    assert!(mgr.get_repository("c").is_none());
    assert!(mgr.disable_repository("a"));
    assert!(!mgr.disable_repository("c"));
    let enabled = mgr.list_enabled_repositories();
    assert_eq!(enabled.len(), 1);
    assert_eq!(enabled[0].name, "b");
    assert!(mgr.enable_repository("a"));
    assert_eq!(mgr.list_enabled_repositories().len(), 2);
    assert!(mgr.remove_repository("a"));
    assert!(!mgr.remove_repository("a"));
    assert_eq!(mgr.list_repositories().len(), 1);
}

#[test]
fn index_finds_the_best_candidate() {
    let mut index = RepositoryIndex::new();
    index.add_records("low", 50, vec![record("foo", "3.0.0")]);
    index.add_records("high", 100, vec![record("foo", "1.0.0"), record("foo", "2.5.0")]);
    // Priority beats version ...
    let best = index.find_package("foo", None).expect("foo exists");
    assert_eq!(best.record.version, "2.5.0");
    assert_eq!(best.repo_name, "high");
    // ... and a pin restricts to the exact version.
    let pinned = index.find_package("foo", Some("3.0.0")).expect("pinned foo exists");
    assert_eq!(pinned.repo_name, "low");
    assert!(index.find_package("foo", Some("9.9.9")).is_none());
    assert!(index.find_package("missing", None).is_none());
}

#[test]
fn index_lookup_and_search() {
    let mut index = RepositoryIndex::new();
    index.add_records(
        "main",
        100,
        vec![record("foo", "1.0.0"), record("foobar", "1.0.0"), record("tool", "1.0.0")],
    );
    let hits = index.lookup("foo");
    assert_eq!(hits.len(), 1);
    assert_eq!(hits[0].record.name, "foo");
    let found = index.search_packages("foo");
    let names: Vec<String> = found.into_iter().map(|p| p.name).collect();
    assert_eq!(names, vec!["foo".to_string(), "foobar".to_string()]);
    assert_eq!(index.search_packages("zzz").len(), 0);
}

#[test]
fn fastest_available_mirror_wins() {
    let mk = |name: &str, speed: Option<u64>, up: bool| Mirror {
        url: format!("https://{}.example.com/", name),
        name: name.to_string(),
        country: "de".to_string(),
        speed,
        last_check: Some(1000),
        is_available: up,
    };
    let selector = MirrorSelector::new();
    let mirrors = vec![
        mk("slow", Some(900), true),
        mk("fast", Some(80), true),
        mk("down", Some(10), false),
        mk("unmeasured", None, true),
    ];
    let best = selector.select_fastest_mirror(&mirrors).expect("one qualifies");
    assert_eq!(best.name, "fast");
    assert!(selector.select_fastest_mirror(&vec![mk("down", Some(10), false)]).is_none());
    // A mirror slower than the one-minute cutoff never qualifies.
    assert!(selector.select_fastest_mirror(&vec![mk("glacial", Some(70_000), true)]).is_none());
}

#[test]
fn mirrors_filter_by_country_and_report_status() {
    let mk = |name: &str, country: &str, up: bool| Mirror {
        url: format!("https://{}.example.com/", name),
        name: name.to_string(),
        country: country.to_string(),
        speed: Some(100),
        last_check: None,
        is_available: up,
    };
    let selector = MirrorSelector::new();
    let mirrors = vec![mk("a", "DE", true), mk("b", "de", false), mk("c", "fr", true)];
    let german = selector.get_mirrors_by_country(&mirrors, "de");
    assert_eq!(german.len(), 1);
    assert_eq!(german[0].name, "a");
    let status = selector.get_mirror_status(&mirrors);
    assert_eq!(status.len(), 3);
    assert_eq!(status[1].name, "b");
    assert!(!status[1].is_available);
}

#[test]
fn config_defaults_are_fixed() {
    let config = Config::new();
    assert_eq!(config.repositories_file, "/etc/persianpkt/repositories.json");
    assert_eq!(config.cache_dir, "/var/cache/persianpkt");
    assert_eq!(config.packages_dir, "/var/lib/persianpkt/packages");
    assert_eq!(config.keys_dir, "/etc/persianpkt/keys");
    assert_eq!(config.architecture, "amd64");
    assert_eq!(config.default_mirrors.len(), 3);
    assert!(config.auto_clean);
    assert!(!config.verbose);
    assert!(!config.default_yes);
    assert_eq!(config.max_cache_size, 1024 * 1024 * 1024);
}

#[test]
fn config_builders_and_mirror_list() {
    let mut config = Config::new()
        .with_architecture("arm64".to_string())
        .with_verbose(true)
        .with_auto_clean(false)
        .with_max_cache_size(512)
        .with_default_yes(true);
    assert_eq!(config.architecture, "arm64");
    assert!(config.verbose);
    assert!(!config.auto_clean);
    assert_eq!(config.max_cache_size, 512);
    assert!(config.default_yes);
    let n = config.default_mirrors.len();
    config.add_default_mirror("https://m.example.com/".to_string());
    config.add_default_mirror("https://m.example.com/".to_string());
    assert_eq!(config.default_mirrors.len(), n + 1);
    config.remove_default_mirror("https://m.example.com/");
    assert_eq!(config.default_mirrors.len(), n);
}

#[test]
fn paths_derive_from_their_bases() {
    let paths = ConfigPaths::with_dirs(
        "/home/u/.config/pkts".to_string(),
        "/home/u/.cache/pkts".to_string(),
        "/home/u/.local/share/pkts".to_string(),
    );
    assert_eq!(paths.base_dir(), "/home/u/.config/pkts");
    assert_eq!(paths.config_file(), "/home/u/.config/pkts/config.toml");
    assert_eq!(paths.repositories_file(), "/home/u/.config/pkts/repositories.json");
    assert_eq!(paths.mirrors_file(), "/home/u/.config/pkts/mirrors.json");
    assert_eq!(paths.keys_dir(), "/home/u/.config/pkts/keys");
    assert_eq!(paths.cache_dir(), "/home/u/.cache/pkts");
    assert_eq!(paths.packages_dir(), "/home/u/.local/share/pkts/packages");
    assert_eq!(paths.logs_dir(), "/home/u/.local/share/pkts/logs");
    assert_eq!(paths.temp_dir(), "/home/u/.cache/pkts/temp");
}

#[test]
fn formats_follow_the_extension() {
    assert_eq!(CompressionFormat::from_extension("a.tar.gz"), CompressionFormat::Gzip);
    assert_eq!(CompressionFormat::from_extension("a.tar.xz"), CompressionFormat::Xz);
    assert_eq!(CompressionFormat::from_extension("a.tar"), CompressionFormat::Plain);
    assert_eq!(CompressionFormat::from_extension("nodot"), CompressionFormat::Plain);
}

#[test]
fn codecs_round_trip() {
    let data = b"some repeated bytes some repeated bytes some repeated bytes".to_vec();
    for format in [CompressionFormat::Gzip, CompressionFormat::Xz, CompressionFormat::Plain] {
        let packed = compress_data(&data, format);
        let unpacked = decompress_data(&packed, format).expect("own output must decode");
        assert_eq!(unpacked, data);
    }
    assert!(decompress_data(b"definitely not gzip", CompressionFormat::Gzip).is_none());
}

#[test]
fn decimal_numbers_round_trip() {
    assert_eq!(u64_to_string(0), "0");
    assert_eq!(u64_to_string(90210), "90210");
    assert_eq!(parse_u64("90210"), Some(90210));
    assert_eq!(parse_u64(&u64_to_string(u64::MAX)), Some(u64::MAX));
    assert_eq!(parse_u64(""), None);
    assert_eq!(parse_u64("12a"), None);
    // One past the largest u64 must overflow, exactly.
    assert_eq!(parse_u64("18446744073709551615"), Some(u64::MAX));
    assert_eq!(parse_u64("18446744073709551616"), None);
}
