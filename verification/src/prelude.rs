//! The names that most users of the library need.

pub use crate::error::Error;
pub use crate::mem::MemTripleStore;
pub use crate::mergeable::Mergeable;
pub use crate::query::{Pattern, Query};
pub use crate::triple::{EdgeOrder, PropsTriple, Triple};
