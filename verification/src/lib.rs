//! Runner resolution and per-directory selection cache.
//!
//! A *runner* is a named shell command with an exit policy. Runners come from
//! two layered configuration sources (defaults and user overrides) that are
//! merged and deduplicated by name; a chosen runner is remembered per working
//! directory in a cache that tolerates a corrupted cache file by falling back
//! to a read-only mode.

pub mod cache;
pub mod config;
pub mod runner;
pub mod select;

pub use cache::CacheEntry;
pub use cache::RunnerCache;
pub use config::Config;
pub use config::baseline_config;
pub use config::get_runners_from_config;
pub use config::load_runners;
pub use runner::Runner;
pub use runner::RunnerConfigEntry;
pub use select::CacheFileRead;
pub use select::CacheState;
pub use select::cached_choice;
pub use select::complete_selection;
pub use select::resolve_selection;
