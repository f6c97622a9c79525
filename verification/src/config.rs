//! What a cleanup run is told to do.

use crate::size_spec::{Percent, SizeSpec, Size};
use crate::decimal::Decimal;
use vstd::prelude::*;

verus! {

/// Application configuration parameters.
#[derive(Debug, Clone)]
pub struct Config {
    /// Root directory of the disk cache.
    pub path: Vec<u8>,
    /// Minimum free disk space to keep.
    pub min_free_space: SizeSpec,
    /// Minimum free inodes to keep.
    pub min_free_inodes: SizeSpec,
    /// Jobs to run simultaneously.
    pub jobs: usize,
}

impl Config {
    /// The configuration can be run: it asks for at least one job.
    pub open spec fn is_valid(&self) -> bool {
        self.jobs > 0
    }

    /// Whether the configuration can be run, see [`Config::is_valid`].
    pub fn check(&self) -> (valid: bool)
        ensures
            valid == self.is_valid(),
    {
        self.jobs > 0
    }

    /// The free disk space that is kept if nothing else is asked for: 10 %.
    pub fn default_min_free_space() -> (limit: SizeSpec)
        ensures
            limit@ == Size::Percentage(Decimal { mantissa: 10, scale: 0 }),
    {
        SizeSpec::Percentage(Percent::whole(10))
    }

    /// The free inodes that are kept if nothing else is asked for: 5 %.
    pub fn default_min_free_inodes() -> (limit: SizeSpec)
        ensures
            limit@ == Size::Percentage(Decimal { mantissa: 5, scale: 0 }),
    {
        SizeSpec::Percentage(Percent::whole(5))
    }

    /// The configuration for the cache at `path` with `jobs` jobs and the
    /// limits that are kept if nothing else is asked for.
    pub fn new(path: Vec<u8>, jobs: usize) -> (config: Config)
        ensures
            config.path@ == path@,
            config.jobs == jobs,
            config.min_free_space@ == Size::Percentage(Decimal { mantissa: 10, scale: 0 }),
            config.min_free_inodes@ == Size::Percentage(Decimal { mantissa: 5, scale: 0 }),
    {
        Config {
            path,
            min_free_space: Config::default_min_free_space(),
            min_free_inodes: Config::default_min_free_inodes(),
            jobs,
        }
    }
}

} // verus!
