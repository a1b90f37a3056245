//! A verified core for a small build-target manager.
//!
//! A per-workspace configuration document names three catalogs of external
//! commands (configure, build, run) and one selected target shared by all
//! three.  This crate holds the document model, its persisted JSON format,
//! the catalog lookup, the selection update, and the dispatch decisions;
//! the surrounding process (file access, standard input, spawning the
//! commands) stays outside.

pub mod codec;
pub mod control;
pub mod dispatch;
pub mod doc;
