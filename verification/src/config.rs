//! The configuration the indexing core consumes. Only the recognised
//! options are modelled; reading them from disk belongs to the
//! surrounding application.

use vstd::prelude::*;

verus! {

/// Where the store's database lives.
#[derive(Debug, Clone, PartialEq)]
pub struct DatabaseConfig {
    pub sqlite_path: String,
    pub max_connections: u32,
}

impl Default for DatabaseConfig {
    /// A local database file with a small pool.
    fn default() -> (r: Self)
        ensures
            r.sqlite_path@ == "gitx.db"@,
            r.max_connections == 10,
    {
        DatabaseConfig { sqlite_path: String::from_str("gitx.db"), max_connections: 10 }
    }
}

/// How the version-control backend is driven.
#[derive(Debug, Clone, PartialEq)]
pub struct GitConfig {
    pub ssh_key_path: Option<String>,
    pub fetch_timeout_secs: u64,
}

impl Default for GitConfig {
    /// No explicit key, a five-minute fetch budget.
    fn default() -> (r: Self)
        ensures
            r.ssh_key_path is None,
            r.fetch_timeout_secs == 300,
    {
        GitConfig { ssh_key_path: Option::None, fetch_timeout_secs: 300 }
    }
}

/// How the scheduler paces and bounds indexing.
#[derive(Debug, Clone, PartialEq)]
pub struct IndexerConfig {
    pub enabled: bool,
    pub interval_secs: u64,
    pub max_commits_per_branch: usize,
    pub worker_threads: usize,
}

impl Default for IndexerConfig {
    /// Enabled, five-minute cycles, two thousand commits per branch.
    fn default() -> (r: Self)
        ensures
            r.enabled,
            r.interval_secs == 300,
            r.max_commits_per_branch == 2000,
            r.worker_threads == 4,
    {
        IndexerConfig {
            enabled: true,
            interval_secs: 300,
            max_commits_per_branch: 2000,
            worker_threads: 4,
        }
    }
}

/// How the response cache is bounded.
#[derive(Debug, Clone, PartialEq)]
pub struct CacheConfig {
    pub max_capacity: u64,
    pub ttl_secs: u64,
}

impl Default for CacheConfig {
    /// Ten thousand entries, an hour each.
    fn default() -> (r: Self)
        ensures
            r.max_capacity == 10000,
            r.ttl_secs == 3600,
    {
        CacheConfig { max_capacity: 10000, ttl_secs: 3600 }
    }
}

/// One project: a base directory and the relative paths scanned under it.
#[derive(Debug, Clone, PartialEq)]
pub struct ProjectConfig {
    pub name: String,
    pub base_path: String,
    pub scan_paths: Vec<String>,
    pub branches: Vec<BranchCompareConfig>,
}

/// One preset branch comparison.
#[derive(Debug, Clone, PartialEq)]
pub struct BranchCompareConfig {
    pub name: String,
    pub from_branch: String,
    pub to_branch: String,
}

} // verus!
