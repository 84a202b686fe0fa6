//! A labeled property graph kept as a triple store.
//!
//! Nodes and edges carry properties. An edge is a triple of subject,
//! predicate and object, each a 128-bit identifier, and the store holds
//! every edge in three indexes, ordered by subject, by predicate and by
//! object first, so that one run over one index answers any pattern that
//! fixes some components of a triple.
//!
//! - [`triple`]: triples, index orders and index keys.
//! - [`codec`]: identifiers and index keys as bytes.
//! - [`ordered_map`]: the ordered map that every index is built from.
//! - [`mem`]: the store in memory, with its operations.
//! - [`query`]: triple patterns and queries.
//! - [`mergeable`]: values that can absorb one another, and the maps
//!   that the set operations result in.
//! - [`persistent`] and [`error`]: what a store that keeps its maps in a
//!   key-value store decides for itself, and its errors.
//! - [`laws`]: laws that relate the operations to one another.

pub mod codec;
pub mod error;
pub mod laws;
pub mod mem;
pub mod mergeable;
pub mod ordered_map;
pub mod persistent;
pub mod prelude;
pub mod query;
pub mod triple;
