//! Core of a read-only virtual filesystem that projects a REST-style
//! service into a hierarchical namespace.
//!
//! The crate has three layers, leaves first:
//!
//! * [`table`] — the in-memory inode table: a tree of directories and
//!   files rooted at inode 1, with verified structural invariants
//!   (unique inodes, acyclic parent/child links, no orphans).
//! * [`pipeline`] — the adapter capability (precommit / postcommit /
//!   notify hooks, identity by default) and the exclusive boundary that
//!   every hook call must hold.
//! * [`dispatcher`] — the filesystem protocol surface (`lookup`,
//!   `getattr`, `read`, `readdir`) and the two halves of a pipeline
//!   run that surround the caller-performed transport exchange.
//!
//! The kernel mount and the HTTP transport themselves are I/O and live
//! with the embedding program; this crate receives their results as
//! plain values and decides everything else.

pub mod dispatcher;
pub mod node;
pub mod pipeline;
pub mod table;
