//! Assembles a runnable game-server distribution from three layered
//! configuration sources: a base server package, a gamemode overlay with a
//! version-pinned plugin set, and a realm overlay with per-instance naming
//! and attributes.
//!
//! The library holds the decisions and proves them: the versioned plugin
//! resolver with its deterministic fallback chain, the layered composition
//! of the output tree with its overwrite precedence, the placeholder
//! substitution engine with its merged replacement namespace, and the
//! non-blocking rebuild lock with the supervisor's transition table.
//! Callers hand it plain values, such as configuration fields, filesystem
//! snapshots and file texts, and carry out the reads, copies and process
//! spawns that its results direct.

pub mod errors;
pub mod fsview;
pub mod gamemode;
pub mod namespace;
pub mod realm;
pub mod supervisor;
pub mod text;
pub mod tree;
