//! Triples, the three orders in which they are indexed, and index keys.

use crate::ordered_map::OrderedKey;
use vstd::prelude::*;

verus! {

/// A directed edge: subject, predicate and object, each a 128-bit
/// identifier.
#[derive(Debug, Clone, Copy, PartialEq, Eq, Hash, Structural)]
pub struct Triple {
    pub sub: u128,
    pub pred: u128,
    pub obj: u128,
}

/// The order in which an index holds the components of its triples.
#[derive(Debug, Clone, Copy, PartialEq, Eq, Hash, Structural)]
pub enum EdgeOrder {
    /// Subject, predicate, object.
    SPO,
    /// Predicate, object, subject.
    POS,
    /// Object, subject, predicate.
    OSP,
}

/// A triple with the properties of its three components.
#[derive(Debug, PartialEq, Eq)]
pub struct PropsTriple<Properties> {
    pub sub: (u128, Properties),
    pub pred: (u128, Properties),
    pub obj: (u128, Properties),
}

/// The key of a triple in one index: its components in the order of that
/// index. Keys sort by their first component, then by the second, then by
/// the third.
#[derive(Debug, Clone, Copy, PartialEq, Eq, Hash, Structural)]
pub struct IndexKey {
    pub first: u128,
    pub second: u128,
    pub third: u128,
}

/// The number of values that one component of a key can take.
pub open spec fn component_span() -> int {
    0x1_0000_0000_0000_0000_0000_0000_0000_0000int
}

impl OrderedKey for IndexKey {
    open spec fn rank(self) -> int {
        (self.first as int * component_span() + self.second as int) * component_span()
            + self.third as int
    }

    proof fn rank_is_injective(a: Self, b: Self) {
    }

    fn precedes(&self, other: &Self) -> (r: bool) {
        self.first < other.first || (self.first == other.first && (self.second < other.second || (
        self.second == other.second && self.third < other.third)))
    }
}

impl Triple {
    /// The key of the triple in the index of the given order.
    pub open spec fn key_spec(self, order: EdgeOrder) -> IndexKey {
        match order {
            EdgeOrder::SPO => IndexKey { first: self.sub, second: self.pred, third: self.obj },
            EdgeOrder::POS => IndexKey { first: self.pred, second: self.obj, third: self.sub },
            EdgeOrder::OSP => IndexKey { first: self.obj, second: self.sub, third: self.pred },
        }
    }

    /// The key of the triple in the index of the given order.
    pub fn key(&self, order: EdgeOrder) -> (k: IndexKey)
        ensures
            k == self.key_spec(order),
            k.triple_spec(order) == *self,
    {
        match order {
            EdgeOrder::SPO => IndexKey { first: self.sub, second: self.pred, third: self.obj },
            EdgeOrder::POS => IndexKey { first: self.pred, second: self.obj, third: self.sub },
            EdgeOrder::OSP => IndexKey { first: self.obj, second: self.sub, third: self.pred },
        }
    }

    /// Whether `id` is the subject, the predicate or the object.
    pub open spec fn mentions(self, id: u128) -> bool {
        self.sub == id || self.pred == id || self.obj == id
    }
}

impl IndexKey {
    /// The triple whose key in the index of the given order this is.
    pub open spec fn triple_spec(self, order: EdgeOrder) -> Triple {
        match order {
            EdgeOrder::SPO => Triple { sub: self.first, pred: self.second, obj: self.third },
            EdgeOrder::POS => Triple { sub: self.third, pred: self.first, obj: self.second },
            EdgeOrder::OSP => Triple { sub: self.second, pred: self.third, obj: self.first },
        }
    }

    /// The triple whose key in the index of the given order this is.
    pub fn triple(&self, order: EdgeOrder) -> (t: Triple)
        ensures
            t == self.triple_spec(order),
            t.key_spec(order) == *self,
    {
        match order {
            EdgeOrder::SPO => Triple { sub: self.first, pred: self.second, obj: self.third },
            EdgeOrder::POS => Triple { sub: self.third, pred: self.first, obj: self.second },
            EdgeOrder::OSP => Triple { sub: self.second, pred: self.third, obj: self.first },
        }
    }
}

} // verus!
