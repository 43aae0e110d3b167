//! Rewrite engine that converts eligible C global and static variable
//! declarations into thread-local declarations.
//!
//! The engine discovers candidate declarations from a C front end's
//! declaration tree, computes one zero-length insertion edit per surviving
//! candidate, shards the input file list across parallel workers, merges the
//! workers' raw edits while detecting conflicting proposals, and applies each
//! file's finalized edit list in a single left-to-right pass.

pub mod analyze;
pub mod condense;
pub mod edit;
pub mod options;
pub mod paths;
pub mod prefix;
pub mod shard;
