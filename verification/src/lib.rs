//! Core of a disk-cache janitor for an HTTP server cache.
//!
//! The library holds the decisions of the janitor as verified functions on
//! plain values: how a size limit is read and evaluated, how a cache header is
//! decoded, in which order cache entries are evicted, how much pressure the
//! filesystem is under, and what is done with each directory entry. Reading
//! directories, deleting files and running threads is left to the caller.

pub mod apache_cache;
pub mod cache_file_info;
pub mod cache_priority_queue;
pub mod config;
pub mod decimal;
pub mod evict;
pub mod job_count;
pub mod order;
pub mod paths;
pub mod scan;
pub mod size_spec;
pub mod stats;
pub mod stem_set;
pub mod timestamp;
pub mod usage;

pub use cache_file_info::CacheFileInfo;
pub use cache_priority_queue::CachePriorityQueue;
pub use config::Config;
pub use evict::{process_folder_parallel, process_header_file, MAX_DELETE_COUNT};
pub use scan::{delete_file_if_not_recent, process_folder, scan_folder};
pub use size_spec::SizeSpec;
pub use stats::Stats;
pub use usage::calculate_usage;
