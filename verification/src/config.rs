//! The session settings: the well-known locations, the default mirrors,
//! and the knobs a command invocation consumes. Reading and writing the
//! settings document is the caller's business.

use vstd::prelude::*;

use crate::paths::ConfigPaths;
use crate::text::{spec_has_string, vec_contains_string};

verus! {

/// One session's settings.
#[derive(Debug)]
pub struct Config {
    pub repositories_file: String,
    pub cache_dir: String,
    pub packages_dir: String,
    pub keys_dir: String,
    pub default_mirrors: Vec<String>,
    pub architecture: String,
    pub mirrors_file: String,
    pub verbose: bool,
    pub auto_clean: bool,
    pub max_cache_size: u64,
    pub default_yes: bool,
}

/// Mathematical image of a `Config`.
pub ghost struct ConfigV {
    pub repositories_file: Seq<char>,
    pub cache_dir: Seq<char>,
    pub packages_dir: Seq<char>,
    pub keys_dir: Seq<char>,
    pub default_mirrors: Seq<Seq<char>>,
    pub architecture: Seq<char>,
    pub mirrors_file: Seq<char>,
    pub verbose: bool,
    pub auto_clean: bool,
    pub max_cache_size: u64,
    pub default_yes: bool,
}

impl View for Config {
    type V = ConfigV;

    open spec fn view(&self) -> ConfigV {
        ConfigV {
            repositories_file: self.repositories_file@,
            cache_dir: self.cache_dir@,
            packages_dir: self.packages_dir@,
            keys_dir: self.keys_dir@,
            default_mirrors: self.default_mirrors.deep_view(),
            architecture: self.architecture@,
            mirrors_file: self.mirrors_file@,
            verbose: self.verbose,
            auto_clean: self.auto_clean,
            max_cache_size: self.max_cache_size,
            default_yes: self.default_yes,
        }
    }
}

/// One gibibyte: the default cache budget.
pub const DEFAULT_MAX_CACHE_SIZE: u64 = 1073741824;

/// The settings a fresh installation gets under the given locations.
pub open spec fn spec_default_config(paths: crate::paths::ConfigPathsV) -> ConfigV {
    ConfigV {
        repositories_file: paths.base_dir + "/repositories.json"@,
        cache_dir: paths.cache_base,
        packages_dir: paths.data_base + "/packages"@,
        keys_dir: paths.base_dir + "/keys"@,
        default_mirrors: seq![
            "https://mirror.iran-server.com/debian/"@,
            "https://debian.iranserver.com/debian/"@,
            "https://mirror.arvancloud.com/debian/"@,
        ],
        architecture: "amd64"@,
        mirrors_file: paths.base_dir + "/mirrors.json"@,
        verbose: false,
        auto_clean: true,
        max_cache_size: DEFAULT_MAX_CACHE_SIZE,
        default_yes: false,
    }
}

impl Config {
    /// The default settings under the given locations.
    pub fn from_paths(paths: &ConfigPaths) -> (r: Self)
        ensures
            r@ == spec_default_config(paths@),
    {
        let mut default_mirrors: Vec<String> = Vec::new();
        default_mirrors.push("https://mirror.iran-server.com/debian/".to_owned());
        default_mirrors.push("https://debian.iranserver.com/debian/".to_owned());
        default_mirrors.push("https://mirror.arvancloud.com/debian/".to_owned());
        let r = Config {
            repositories_file: paths.repositories_file(),
            cache_dir: paths.cache_dir(),
            packages_dir: paths.packages_dir(),
            keys_dir: paths.keys_dir(),
            default_mirrors,
            architecture: "amd64".to_owned(),
            mirrors_file: paths.mirrors_file(),
            verbose: false,
            auto_clean: true,
            max_cache_size: DEFAULT_MAX_CACHE_SIZE,
            default_yes: false,
        };
        proof {
            assert(r@.default_mirrors =~= spec_default_config(paths@).default_mirrors);
        }
        r
    }

    /// The default settings under the traditional system base
    /// directory.
    pub fn new() -> (r: Self)
        ensures
            r@ == spec_default_config(
                (crate::paths::ConfigPathsV {
                    base_dir: "/etc/persianpkt"@,
                    cache_base: "/var/cache/persianpkt"@,
                    data_base: "/var/lib/persianpkt"@,
                }),
            ),
    {
        let paths = ConfigPaths::with_base_dir("/etc/persianpkt".to_owned());
        Self::from_paths(&paths)
    }

    /// The same settings for another architecture.
    pub fn with_architecture(self, architecture: String) -> (r: Self)
        ensures
            r@ == (ConfigV { architecture: architecture@, ..self@ }),
    {
        Config { architecture, ..self }
    }

    /// The same settings with verbosity chosen.
    pub fn with_verbose(self, verbose: bool) -> (r: Self)
        ensures
            r@ == (ConfigV { verbose, ..self@ }),
    {
        Config { verbose, ..self }
    }

    /// The same settings with automatic cache cleaning chosen.
    pub fn with_auto_clean(self, auto_clean: bool) -> (r: Self)
        ensures
            r@ == (ConfigV { auto_clean, ..self@ }),
    {
        Config { auto_clean, ..self }
    }

    /// The same settings with another cache budget.
    pub fn with_max_cache_size(self, max_cache_size: u64) -> (r: Self)
        ensures
            r@ == (ConfigV { max_cache_size, ..self@ }),
    {
        Config { max_cache_size, ..self }
    }

    /// The same settings with confirmation prompts suppressed or not.
    pub fn with_default_yes(self, default_yes: bool) -> (r: Self)
        ensures
            r@ == (ConfigV { default_yes, ..self@ }),
    {
        Config { default_yes, ..self }
    }

    /// Appends a mirror unless an equal one is already listed.
    pub fn add_default_mirror(&mut self, mirror: String)
        ensures
            spec_has_string(old(self)@.default_mirrors, mirror@) ==> final(self)@ == old(self)@,
            !spec_has_string(old(self)@.default_mirrors, mirror@) ==> final(self)@ == (ConfigV {
                default_mirrors: old(self)@.default_mirrors.push(mirror@),
                ..old(self)@
            }),
    {
        if !vec_contains_string(&self.default_mirrors, mirror.as_str()) {
            let ghost m = mirror@;
            self.default_mirrors.push(mirror);
            proof {
                assert(self@.default_mirrors =~= old(self)@.default_mirrors.push(m));
            }
        }
    }

    /// Drops every mirror equal to `mirror`.
    pub fn remove_default_mirror(&mut self, mirror: &str)
        ensures
            final(self)@ == (ConfigV {
                default_mirrors: old(self)@.default_mirrors.filter(|m: Seq<char>| m != mirror@),
                ..old(self)@
            }),
    {
        self.default_mirrors = crate::text::filter_strings_keep_ne(&self.default_mirrors, mirror);
    }
}

} // verus!
