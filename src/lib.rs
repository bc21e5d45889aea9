//! Snapshots of a key-value store's key namespace, and the difference
//! between two snapshots.

pub mod keys;
pub mod diff;
pub mod scan;
pub mod snapshot;
pub mod report;
pub mod config;
