//! Values that can absorb another value of the same type.

use vstd::prelude::*;

verus! {

/// A value that can absorb another value of its own type.
///
/// The store calls `merge` wherever two stores hold properties under the
/// same key and the operation asks for a combination rather than for one
/// of the two sides.
pub trait Mergeable: Sized {
    /// The value that `self` holds after it has absorbed `other`.
    spec fn merged(self, other: Self) -> Self;

    /// Absorbs `other` into `self`.
    fn merge(&mut self, other: Self)
        ensures
            *final(self) == old(self).merged(other),
    ;
}

impl Mergeable for () {
    open spec fn merged(self, other: Self) -> Self {
        ()
    }

    fn merge(&mut self, _other: Self) {
    }
}

/// The merge of two maps: a key that both hold gets the value of the
/// first after it has absorbed the value of the second; every other key
/// keeps the value it has.
pub open spec fn merge_maps<K, V: Mergeable>(a: Map<K, V>, b: Map<K, V>) -> Map<K, V> {
    Map::new(
        |k: K| a.contains_key(k) || b.contains_key(k),
        |k: K|
            if a.contains_key(k) && b.contains_key(k) {
                a[k].merged(b[k])
            } else if a.contains_key(k) {
                a[k]
            } else {
                b[k]
            },
    )
}

/// The intersection of two maps: the keys that both hold, each with the
/// value of the first after it has absorbed the value of the second.
pub open spec fn intersect_maps<K, V: Mergeable>(a: Map<K, V>, b: Map<K, V>) -> Map<K, V> {
    Map::new(|k: K| a.contains_key(k) && b.contains_key(k), |k: K| a[k].merged(b[k]))
}

/// The difference of two maps: the entries of the first whose key the
/// second does not hold.
pub open spec fn subtract_maps<K, V>(a: Map<K, V>, b: Map<K, V>) -> Map<K, V> {
    a.remove_keys(b.dom())
}

/// The symmetric difference of two maps: the entries of either whose key
/// the other does not hold.
pub open spec fn exclusive_maps<K, V>(a: Map<K, V>, b: Map<K, V>) -> Map<K, V> {
    Map::new(
        |k: K| a.contains_key(k) != b.contains_key(k),
        |k: K|
            if a.contains_key(k) {
                a[k]
            } else {
                b[k]
            },
    )
}

} // verus!
