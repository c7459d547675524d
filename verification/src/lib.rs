//! Verified core of a bulk filesystem watcher: merging of debounced filesystem
//! events, bookkeeping of path registrations, and the small telemetry and
//! crash-reporting surfaces that sit beside it.

pub mod collections;
pub mod events;
pub mod registration;
pub mod external;
pub mod crash_reporting;
pub mod telemetry;
