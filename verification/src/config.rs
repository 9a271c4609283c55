//! Configuration of a raft log: its WAL and its payload cache.
//!
//! Optional settings are `Option`s here; their defaults are applied when a
//! getter is called.

use chunked_wal::Config as WalConfig;
use vstd::prelude::*;

verus! {

#[verifier::external_type_specification]
#[verifier::external_body]
pub struct ExWalConfig(WalConfig);

/// `Clone` of a WAL configuration; nothing is claimed of the copy, whose
/// fields the library does not read.
pub assume_specification[ <WalConfig as Clone>::clone ](c: &WalConfig) -> WalConfig;

/// A WAL configuration for directory `dir`, with every other setting left
/// to its default.
///
/// Calls `chunked_wal::Config::new`; nothing is claimed of the result, whose
/// fields the library does not read.
#[verifier::external_body]
fn wal_config_new(dir: &str) -> WalConfig {
    WalConfig::new(dir)
}

pub open spec fn default_log_cache_max_items() -> usize {
    100_000
}

pub open spec fn default_log_cache_capacity() -> usize {
    0x4000_0000
}

/// Configuration for a raft log.
#[derive(Clone, Debug, Default)]
pub struct Config {
    /// WAL storage configuration.
    pub wal: WalConfig,
    /// Maximum number of items in the log cache.
    pub log_cache_max_items: Option<usize>,
    /// Maximum bytes of payload in the log cache.
    pub log_cache_capacity: Option<usize>,
}

impl Config {
    /// A configuration for the directory `dir`, with every other setting
    /// left to its default.
    pub fn new(dir: &str) -> (r: Self)
        ensures
            r.log_cache_max_items is None,
            r.log_cache_capacity is None,
    {
        Config { wal: wal_config_new(dir), log_cache_max_items: None, log_cache_capacity: None }
    }

    /// The maximum number of items in the log cache; 100,000 by default.
    pub fn log_cache_max_items(&self) -> (r: usize)
        ensures
            r == match self.log_cache_max_items {
                Some(n) => n,
                None => default_log_cache_max_items(),
            },
    {
        match self.log_cache_max_items {
            Some(n) => n,
            None => 100_000,
        }
    }

    /// The maximum bytes of payload in the log cache; 1 GiB by default.
    pub fn log_cache_capacity(&self) -> (r: usize)
        ensures
            r == match self.log_cache_capacity {
                Some(n) => n,
                None => default_log_cache_capacity(),
            },
    {
        match self.log_cache_capacity {
            Some(n) => n,
            None => 1024 * 1024 * 1024,
        }
    }
}

} // verus!
