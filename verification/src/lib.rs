//! Per-owner disk-usage statistics.
//!
//! The library aggregates filesystem entries (owner id, device/inode
//! identity, sizes) into per-owner counts of distinct files, extra
//! hardlinks and bytes, deduplicating hardlinks by their identity, and
//! renders the resulting report.  A driver walks the filesystem and
//! feeds each entry in as plain values; everything that decides or
//! computes lives here, with its contract.

pub mod wrap;
pub mod strfmt;
pub mod counter;
pub mod walker;
pub mod stats;
pub mod report;
pub mod laws;
