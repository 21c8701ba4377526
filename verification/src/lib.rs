//! Mirrors the remote references of a markdown text into a local asset
//! store: reference extraction, the content-type acceptance policy, the
//! collision-resistant storage layout, the per-target fetch decisions, and
//! the partial-failure-tolerant rewrite. The network fan-out and the file
//! writes stay with the caller; everything the pipeline decides is here,
//! and verified.
pub mod classify;
pub mod extract;
pub mod fetch;
pub mod locate;
pub mod markdown_processor;
pub mod models;
pub mod text;
