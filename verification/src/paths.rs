//! The well-known file locations, derived from three base directories.
//! Where the platform's standard directories should be used, the caller
//! supplies them through `with_dirs`; `with_base_dir` falls back to the
//! traditional system paths for the cache and data bases.

use vstd::prelude::*;

verus! {

/// The configuration, cache and data locations.
#[derive(Debug)]
pub struct ConfigPaths {
    pub base_dir: String,
    pub cache_base: String,
    pub data_base: String,
}

/// Mathematical image of a `ConfigPaths`.
pub ghost struct ConfigPathsV {
    pub base_dir: Seq<char>,
    pub cache_base: Seq<char>,
    pub data_base: Seq<char>,
}

impl View for ConfigPaths {
    type V = ConfigPathsV;

    open spec fn view(&self) -> ConfigPathsV {
        ConfigPathsV {
            base_dir: self.base_dir@,
            cache_base: self.cache_base@,
            data_base: self.data_base@,
        }
    }
}

impl ConfigPaths {
    /// Locations under explicit configuration, cache and data bases.
    pub fn with_dirs(base_dir: String, cache_base: String, data_base: String) -> (r: Self)
        ensures
            r@ == (ConfigPathsV {
                base_dir: base_dir@,
                cache_base: cache_base@,
                data_base: data_base@,
            }),
    {
        ConfigPaths { base_dir, cache_base, data_base }
    }

    /// Locations under the given configuration base, with the
    /// traditional system paths for cache and data.
    pub fn with_base_dir(base_dir: String) -> (r: Self)
        ensures
            r@ == (ConfigPathsV {
                base_dir: base_dir@,
                cache_base: "/var/cache/persianpkt"@,
                data_base: "/var/lib/persianpkt"@,
            }),
    {
        ConfigPaths {
            base_dir,
            cache_base: "/var/cache/persianpkt".to_owned(),
            data_base: "/var/lib/persianpkt".to_owned(),
        }
    }

    /// The configuration base directory.
    pub fn base_dir(&self) -> (r: String)
        ensures
            r@ == self@.base_dir,
    {
        self.base_dir.clone()
    }

    fn under_base(&self, rel: &str) -> (r: String)
        ensures
            r@ == self@.base_dir + rel@,
    {
        let mut s = self.base_dir.clone();
        s.append(rel);
        s
    }

    /// The settings document.
    pub fn config_file(&self) -> (r: String)
        ensures
            r@ == self@.base_dir + "/config.toml"@,
    {
        self.under_base("/config.toml")
    }

    /// The repository-list document.
    pub fn repositories_file(&self) -> (r: String)
        ensures
            r@ == self@.base_dir + "/repositories.json"@,
    {
        self.under_base("/repositories.json")
    }

    /// The mirror-list document.
    pub fn mirrors_file(&self) -> (r: String)
        ensures
            r@ == self@.base_dir + "/mirrors.json"@,
    {
        self.under_base("/mirrors.json")
    }

    /// The trusted-keys directory.
    pub fn keys_dir(&self) -> (r: String)
        ensures
            r@ == self@.base_dir + "/keys"@,
    {
        self.under_base("/keys")
    }

    /// The artifact-cache directory.
    pub fn cache_dir(&self) -> (r: String)
        ensures
            r@ == self@.cache_base,
    {
        self.cache_base.clone()
    }

    /// The installed-packages directory.
    pub fn packages_dir(&self) -> (r: String)
        ensures
            r@ == self@.data_base + "/packages"@,
    {
        let mut s = self.data_base.clone();
        s.append("/packages");
        s
    }

    /// The log directory.
    pub fn logs_dir(&self) -> (r: String)
        ensures
            r@ == self@.data_base + "/logs"@,
    {
        let mut s = self.data_base.clone();
        s.append("/logs");
        s
    }

    /// The staging directory for in-flight downloads.
    pub fn temp_dir(&self) -> (r: String)
        ensures
            r@ == self@.cache_base + "/temp"@,
    {
        let mut s = self.cache_base.clone();
        s.append("/temp");
        s
    }
}

} // verus!
