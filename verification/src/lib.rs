//! A verified core for a local version-control client.
//!
//! The engines that keep HEAD, the staging index and the working tree
//! consistent (`add`, `commit`, `status`, `reset`) and the tree-listing
//! engine (`ls-tree`) operate on an explicit repository model: a
//! content-addressed object store, a reference store, an ordered index
//! and a working-tree mirror. Content hashing is delegated to the
//! `gix` object library; everything else is verified.

pub mod bytes;
pub mod errors;
pub mod objects;
pub mod hashing;
pub mod index;
pub mod ls_tree;
pub mod oid;
pub mod refs;
pub mod reset;
pub mod commit;
pub mod describe;
pub mod parsers;
pub mod progress;
pub mod show;
pub mod repo;
pub mod revision;
pub mod staging;
pub mod status;
pub mod worktree;
pub mod trees;
