//! Fetch-cache-execute pipeline for a downloadable installer artifact.
//!
//! The library resolves the latest installer URL from version metadata,
//! decides how a single-slot local cache must change to hold that artifact,
//! and builds the child-process invocation that runs the installer.

pub mod cache;
pub mod cli;
pub mod resolver;
pub mod supervisor;
