//! Triple patterns and the closed set of queries.

use crate::ordered_map::OrderedKey;
use crate::triple::{EdgeOrder, IndexKey, Triple};
use vstd::prelude::*;

verus! {

/// A triple pattern: for each component either the value that a triple
/// must have there, or nothing where any value will do.
#[derive(Debug, Clone, Copy, PartialEq, Eq, Structural)]
pub struct Pattern {
    pub sub: Option<u128>,
    pub pred: Option<u128>,
    pub obj: Option<u128>,
}

/// Whether a component fits what the pattern asks of it.
pub open spec fn fits(want: Option<u128>, have: u128) -> bool {
    want is None || want->Some_0 == have
}

/// The value that the pattern asks of a component, or `otherwise` where
/// it asks nothing.
pub open spec fn value_or(want: Option<u128>, otherwise: u128) -> u128 {
    if want is Some {
        want->Some_0
    } else {
        otherwise
    }
}

fn pick(want: Option<u128>, otherwise: u128) -> (v: u128)
    ensures
        v == value_or(want, otherwise),
{
    match want {
        Some(v) => v,
        None => otherwise,
    }
}

impl Pattern {
    /// Whether the triple has the components that the pattern asks for.
    pub open spec fn matches(self, t: Triple) -> bool {
        fits(self.sub, t.sub) && fits(self.pred, t.pred) && fits(self.obj, t.obj)
    }

    /// What the pattern asks of the first, second and third component of
    /// a key of the given index.
    pub open spec fn in_order(self, order: EdgeOrder) -> (
        Option<u128>,
        Option<u128>,
        Option<u128>,
    ) {
        match order {
            EdgeOrder::SPO => (self.sub, self.pred, self.obj),
            EdgeOrder::POS => (self.pred, self.obj, self.sub),
            EdgeOrder::OSP => (self.obj, self.sub, self.pred),
        }
    }

    /// Whether the index of the given order answers the pattern by a key
    /// prefix alone: the components that the pattern fixes come first in
    /// the keys of that index.
    pub open spec fn covered_by(self, order: EdgeOrder) -> bool {
        let (first, second, third) = self.in_order(order);
        (second is Some ==> first is Some) && (third is Some ==> second is Some)
    }

    /// The index that serves the pattern.
    pub open spec fn best_order_spec(self) -> EdgeOrder {
        if self.sub is Some {
            if self.pred is None && self.obj is Some {
                EdgeOrder::OSP
            } else {
                EdgeOrder::SPO
            }
        } else if self.pred is Some {
            EdgeOrder::POS
        } else if self.obj is Some {
            EdgeOrder::OSP
        } else {
            EdgeOrder::SPO
        }
    }

    /// The smallest key of the given index that a matching triple can
    /// have.
    pub open spec fn lowest_key_spec(self, order: EdgeOrder) -> IndexKey {
        let (first, second, third) = self.in_order(order);
        IndexKey {
            first: value_or(first, 0),
            second: value_or(second, 0),
            third: value_or(third, 0),
        }
    }

    /// The largest key of the given index that a matching triple can
    /// have.
    pub open spec fn highest_key_spec(self, order: EdgeOrder) -> IndexKey {
        let (first, second, third) = self.in_order(order);
        IndexKey {
            first: value_or(first, u128::MAX),
            second: value_or(second, u128::MAX),
            third: value_or(third, u128::MAX),
        }
    }

    /// The index that serves the pattern: the one whose keys begin with
    /// the components that the pattern fixes.
    pub fn best_order(&self) -> (order: EdgeOrder)
        ensures
            order == self.best_order_spec(),
            self.covered_by(order),
    {
        match (self.sub, self.pred, self.obj) {
            (Some(_), None, Some(_)) => EdgeOrder::OSP,
            (Some(_), _, _) => EdgeOrder::SPO,
            (None, Some(_), _) => EdgeOrder::POS,
            (None, None, Some(_)) => EdgeOrder::OSP,
            (None, None, None) => EdgeOrder::SPO,
        }
    }

    /// Whether the index of the given order answers the pattern by a key
    /// prefix alone.
    pub fn is_covered_by(&self, order: EdgeOrder) -> (r: bool)
        ensures
            r == self.covered_by(order),
    {
        let (first, second, third) = match order {
            EdgeOrder::SPO => (self.sub, self.pred, self.obj),
            EdgeOrder::POS => (self.pred, self.obj, self.sub),
            EdgeOrder::OSP => (self.obj, self.sub, self.pred),
        };
        (second.is_none() || first.is_some()) && (third.is_none() || second.is_some())
    }

    /// The smallest key of the given index that a matching triple can
    /// have: the fixed components, then zeros.
    pub fn lowest_key(&self, order: EdgeOrder) -> (k: IndexKey)
        ensures
            k == self.lowest_key_spec(order),
    {
        let (first, second, third) = match order {
            EdgeOrder::SPO => (self.sub, self.pred, self.obj),
            EdgeOrder::POS => (self.pred, self.obj, self.sub),
            EdgeOrder::OSP => (self.obj, self.sub, self.pred),
        };
        IndexKey { first: pick(first, 0), second: pick(second, 0), third: pick(third, 0) }
    }

    /// The largest key of the given index that a matching triple can
    /// have: the fixed components, then the largest values.
    pub fn highest_key(&self, order: EdgeOrder) -> (k: IndexKey)
        ensures
            k == self.highest_key_spec(order),
    {
        let (first, second, third) = match order {
            EdgeOrder::SPO => (self.sub, self.pred, self.obj),
            EdgeOrder::POS => (self.pred, self.obj, self.sub),
            EdgeOrder::OSP => (self.obj, self.sub, self.pred),
        };
        IndexKey {
            first: pick(first, u128::MAX),
            second: pick(second, u128::MAX),
            third: pick(third, u128::MAX),
        }
    }

    /// In an index that covers the pattern, the triples that match are
    /// those whose key lies between the smallest and the largest key of
    /// the pattern.
    pub proof fn lemma_prefix_bounds(self, order: EdgeOrder, t: Triple)
        requires
            self.covered_by(order),
        ensures
            self.matches(t) <==> self.lowest_key_spec(order).rank() <= t.key_spec(order).rank()
                <= self.highest_key_spec(order).rank(),
    {
    }
}

/// A query: one of eight shapes, each with the values to look for.
#[derive(Debug, PartialEq, Eq)]
pub enum Query {
    /// The properties of the given nodes.
    NodeProperty(Vec<u128>),
    /// The properties of the given edges: subject, predicate, object.
    EdgeProperty(Vec<(u128, u128, u128)>),
    /// The edges with one of the given objects.
    O(Vec<u128>),
    /// The edges with one of the given subjects.
    S(Vec<u128>),
    /// The edges with one of the given predicates.
    P(Vec<u128>),
    /// The edges with one of the given pairs of predicate and object.
    PO(Vec<(u128, u128)>),
    /// The edges with one of the given pairs of subject and object.
    SO(Vec<(u128, u128)>),
    /// The edges with one of the given pairs of subject and predicate.
    SP(Vec<(u128, u128)>),
}

impl Query {
    /// The nodes whose properties the query asks for.
    pub open spec fn node_ids(self) -> Seq<u128> {
        match self {
            Query::NodeProperty(ids) => ids@,
            _ => Seq::empty(),
        }
    }

    /// The triple patterns that the query asks for, one for each of its
    /// values.
    pub open spec fn patterns(self) -> Seq<Pattern> {
        match self {
            Query::NodeProperty(_) => Seq::empty(),
            Query::EdgeProperty(v) => Seq::new(
                v@.len(),
                |i: int| Pattern { sub: Some(v@[i].0), pred: Some(v@[i].1), obj: Some(v@[i].2) },
            ),
            Query::O(v) => Seq::new(
                v@.len(),
                |i: int| Pattern { sub: None, pred: None, obj: Some(v@[i]) },
            ),
            Query::S(v) => Seq::new(
                v@.len(),
                |i: int| Pattern { sub: Some(v@[i]), pred: None, obj: None },
            ),
            Query::P(v) => Seq::new(
                v@.len(),
                |i: int| Pattern { sub: None, pred: Some(v@[i]), obj: None },
            ),
            Query::PO(v) => Seq::new(
                v@.len(),
                |i: int| Pattern { sub: None, pred: Some(v@[i].0), obj: Some(v@[i].1) },
            ),
            Query::SO(v) => Seq::new(
                v@.len(),
                |i: int| Pattern { sub: Some(v@[i].0), pred: None, obj: Some(v@[i].1) },
            ),
            Query::SP(v) => Seq::new(
                v@.len(),
                |i: int| Pattern { sub: Some(v@[i].0), pred: Some(v@[i].1), obj: None },
            ),
        }
    }

    /// Whether the query asks for the properties of the node.
    pub open spec fn selects_node(self, node: u128) -> bool {
        self.node_ids().contains(node)
    }

    /// Whether the query asks for the edge.
    pub open spec fn selects_edge(self, t: Triple) -> bool {
        exists|i: int| 0 <= i < self.patterns().len() && (#[trigger] self.patterns()[i]).matches(t)
    }

    /// The number of nodes that the query names.
    pub fn node_id_count(&self) -> (n: usize)
        ensures
            n == self.node_ids().len(),
    {
        match self {
            Query::NodeProperty(ids) => ids.len(),
            _ => 0,
        }
    }

    /// The node at a position among those that the query names.
    pub(crate) fn node_id_at(&self, i: usize) -> (node: u128)
        requires
            i < self.node_ids().len(),
        ensures
            node == self.node_ids()[i as int],
    {
        match self {
            Query::NodeProperty(ids) => ids[i],
            _ => 0,
        }
    }

    /// The number of triple patterns of the query.
    pub fn pattern_count(&self) -> (n: usize)
        ensures
            n == self.patterns().len(),
    {
        match self {
            Query::NodeProperty(_) => 0,
            Query::EdgeProperty(v) => v.len(),
            Query::O(v) => v.len(),
            Query::S(v) => v.len(),
            Query::P(v) => v.len(),
            Query::PO(v) => v.len(),
            Query::SO(v) => v.len(),
            Query::SP(v) => v.len(),
        }
    }

    /// The triple pattern at a position among those of the query.
    pub(crate) fn pattern_at(&self, i: usize) -> (p: Pattern)
        requires
            i < self.patterns().len(),
        ensures
            p == self.patterns()[i as int],
    {
        match self {
            Query::NodeProperty(_) => Pattern { sub: None, pred: None, obj: None },
            Query::EdgeProperty(v) => Pattern {
                sub: Some(v[i].0),
                pred: Some(v[i].1),
                obj: Some(v[i].2),
            },
            Query::O(v) => Pattern { sub: None, pred: None, obj: Some(v[i]) },
            Query::S(v) => Pattern { sub: Some(v[i]), pred: None, obj: None },
            Query::P(v) => Pattern { sub: None, pred: Some(v[i]), obj: None },
            Query::PO(v) => Pattern { sub: None, pred: Some(v[i].0), obj: Some(v[i].1) },
            Query::SO(v) => Pattern { sub: Some(v[i].0), pred: None, obj: Some(v[i].1) },
            Query::SP(v) => Pattern { sub: Some(v[i].0), pred: Some(v[i].1), obj: None },
        }
    }
    /// The triple patterns of the query, one for each of its values.
    pub fn to_patterns(&self) -> (r: Vec<Pattern>)
        ensures
            r@ == self.patterns(),
    {
        let n = self.pattern_count();
        let mut r: Vec<Pattern> = Vec::new();
        let mut i: usize = 0;
        while i < n
            invariant
                n == self.patterns().len(),
                i <= n,
                r@.len() == i,
                forall|k: int| 0 <= k < i ==> r@[k] == self.patterns()[k],
            decreases n - i,
        {
            r.push(self.pattern_at(i));
            i += 1;
        }
        assert(r@ =~= self.patterns());
        r
    }
}

} // verus!
