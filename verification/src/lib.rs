//! Core engine of a conflict-free replicated document model: an interning
//! cache with a canonical (replica-independent) ordering, the identifier
//! vocabulary for operations, and a positional query over an operation tree
//! with visibility resolution for overwrites, deletions and counters.

pub mod indexed_cache;
pub mod nth;
pub mod op_tree;
pub mod query;
pub mod types;

pub use types::{AutomergeError, ElemId, Key, ObjId, OpId, Prop};
