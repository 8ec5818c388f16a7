//! Planning core for mirroring a project's local dependency overrides to a
//! remote build host.
//!
//! The library parses a dependency manifest's patch sections, extracts the
//! overrides that point at local filesystem paths, resolves and deduplicates
//! those paths, filters out paths already inside the primary project tree,
//! and plans deterministic remote destinations for the remaining external
//! trees.  All filesystem access (reading manifests, canonicalizing paths,
//! running the transfers) is left to the caller; the library works on plain
//! byte strings and is verified.

pub mod bytes;
pub mod commands;
pub mod manifest;
pub mod plan;
pub mod resolve;
