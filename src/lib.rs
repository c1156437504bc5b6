//! A version-aware migration engine: given the constructs of a project's
//! source files, each resolved to the declaration it refers to, and a table of
//! what changed between two versions of a library (renamed methods, fields and
//! enum variants, and custom hooks), it computes for every file the patch that
//! rewrites its call sites to the new version.
//!
//! - `versioning`: semantic versions, their parsing and precedence.
//! - `syntax`: the constructs that rules act on.
//! - `rules`: rename maps, hooks and the per-version rule table.
//! - `preload`: the declarations of the upgraded library and its peers.
//! - `edits`: the per-file edit buffer and the patches it yields.
//! - `runner`: version selection, gating, dispatch and the whole run.

pub mod edits;
pub mod versioning;
pub mod syntax;
pub mod rules;
pub mod preload;
pub mod runner;
