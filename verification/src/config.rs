//! The configuration values the engine consumes. Loading them from a file
//! is an outer concern; the library only holds the values and their
//! defaults.

use vstd::prelude::*;
use vstd::string::StringExecFns;
use crate::logger::LogLevel;

verus! {

/// Everything configurable, by area.
pub struct Config {
    pub app: AppConfig,
    pub aniyomi: AniyomiConfig,
    pub zip: ZipConfig,
}

/// Which capabilities run, and how loud the log is.
pub struct AppConfig {
    pub features: Vec<String>,
    pub log_level: LogLevel,
}

/// How the metadata sidecar is written.
pub struct AniyomiConfig {
    pub description: Option<String>,
    pub rename: bool,
}

/// Whether archives are built, and what happens to the originals.
pub struct ZipConfig {
    pub delete_original: bool,
}

impl Default for AppConfig {
    /// Every capability except the configuration loader itself, at the
    /// default log level.
    fn default() -> (r: Self)
        ensures
            r.features@.map_values(|s: String| s@) == seq!["aniyomi"@, "zip"@, "cli"@],
            r.log_level == LogLevel::Info,
    {
        let mut features: Vec<String> = Vec::new();
        features.push(String::from_str("aniyomi"));
        features.push(String::from_str("zip"));
        features.push(String::from_str("cli"));
        proof {
            assert(features@.map_values(|s: String| s@) =~= seq!["aniyomi"@, "zip"@, "cli"@]);
        }
        AppConfig { features, log_level: LogLevel::Info }
    }
}

impl Default for AniyomiConfig {
    fn default() -> (r: Self)
        ensures
            r.description is None,
            !r.rename,
    {
        AniyomiConfig { description: None, rename: false }
    }
}

impl Default for ZipConfig {
    fn default() -> (r: Self)
        ensures
            !r.delete_original,
    {
        ZipConfig { delete_original: false }
    }
}

impl Default for Config {
    fn default() -> (r: Self)
        ensures
            r.app.features@.map_values(|s: String| s@) == seq!["aniyomi"@, "zip"@, "cli"@],
            r.app.log_level == LogLevel::Info,
            r.aniyomi.description is None,
            !r.aniyomi.rename,
            !r.zip.delete_original,
    {
        Config {
            app: AppConfig::default(),
            aniyomi: AniyomiConfig::default(),
            zip: ZipConfig::default(),
        }
    }
}

} // verus!
