//! Storage-engine core: chunks, tombstones, deduplicating compaction,
//! persistence windows and the two-phase persist protocol, with the
//! database states that exercise them.
pub mod readiness;
pub mod service;
pub mod row;
pub mod tombstone;
pub mod compaction;
pub mod windows;
pub mod chunk;
pub mod partition;
pub mod scenarios;
pub mod library;
