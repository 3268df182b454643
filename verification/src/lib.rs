//! An in-memory key-value store whose entries carry a time-to-live, together
//! with the task bookkeeping, configuration, and string utilities that are
//! built around it.
//!
//! Every entry of the cache remembers the instant it was written; a read
//! reports the value only while the elapsed time since that write is strictly
//! below the configured time-to-live.  Reads never evict: expired entries
//! stay in storage until an explicit sweep removes them.

pub mod assoc;
pub mod cache;
pub mod decimal;
pub mod shims;
pub mod service;
pub mod strmap;
pub mod tasks;
pub mod utils;
