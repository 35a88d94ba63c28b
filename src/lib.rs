//! Consistency engine for AI programs: four ordered segments of records that
//! refer to each other by position, kept consistent across insertions and
//! deletions, and a tree view derived from the child references.

pub mod auto;
pub mod laws;
pub mod naming;
pub mod program;
pub mod rename;
pub mod tree;
