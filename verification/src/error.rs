//! The errors of a store that keeps its maps in a key-value store.

use vstd::prelude::*;

verus! {

/// What can go wrong in a store that keeps its maps in a key-value store
/// and its property values as bytes. `Backend` is the error of the
/// key-value store and `Codec` that of the codec for property values;
/// both are carried as they came.
#[derive(Debug)]
pub enum Error<Backend, Codec> {
    /// The key-value store failed.
    SledError(Backend),
    /// A property value could not be turned into bytes, or bytes into a
    /// property value.
    SerializationError(Codec),
    /// A stored key does not have the length of a key.
    KeySizeError,
    /// An index entry points at properties that are not there.
    MissingPropertyData,
    /// A set operation failed.
    SetOpsFailure,
}

} // verus!
