//! Topbase engine: decide which trailing commits of a "current" branch are not
//! yet reflected in an upstream branch's content, and build the rewrite
//! commands that replay exactly those commits on top of upstream.
//!
//! Commit identity is content-based (blob hashes), not ancestry-based, so the
//! decision survives history rewrites that preserve file content.

pub mod content;
pub mod executor;
pub mod rebase;
pub mod topbase;
