//! Query and matching engine over a generic attributed tree.
//!
//! Nodes carry ordered lists of named, typed attributes that may nest further
//! attributes, expose struct fields as attributes, or reference lazily
//! openable byte content.  The engine finds nodes by name, by dotted
//! attribute name, by attribute name and value, or by content search, extracts
//! a time-ordered view of timestamp attributes, and combines match results
//! with a small boolean algebra.
use vstd::prelude::*;

pub mod attribute;
pub mod data;
pub mod filter;
pub mod timeline;
pub mod tree;

verus! {

/// Errors reported before any node evaluation starts.
#[derive(Debug, Clone, Copy, PartialEq, Eq, Structural)]
pub enum QueryError {
    /// A match pattern did not compile.
    InvalidPattern,
    /// A scoped path did not resolve to a node.
    InvalidPath,
}

} // verus!
