//! Duplicate-file detection: filtering of walked entries, size bucketing,
//! confirmation by content digest and ordering of the confirmed groups.

pub mod assemble;
pub mod bucket;
pub mod config;
pub mod confirm;
pub mod key;
pub mod laws;
pub mod walk;
