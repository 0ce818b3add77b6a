//! Decisions of a personal backup run: where each source lands in the staging
//! tree, which steps a mirror walk takes, how the archive and its encrypted
//! sibling are named, and what is kept or removed after each stage.
//!
//! The library never touches the filesystem. A caller performs each requested
//! action and reports back what happened.

pub mod path;
pub mod mirror;
pub mod walk_laws;
pub mod walk_end;
pub mod archive;
pub mod encrypt;
pub mod config;
pub mod run;
