//! Listing the nodes and edges of the in-memory store.

use crate::mem::scan::listed_in_order;
use crate::mem::{linked, resolve, MemTripleStore};
use crate::ordered_map::{ascending, OrderedKey};
use crate::triple::{EdgeOrder, PropsTriple, Triple};
use vstd::prelude::*;

verus! {

/// A triple with the properties of its subject, predicate and object, if
/// each of the three has properties.
pub open spec fn decorated<P>(
    triple: Triple,
    sub: Option<P>,
    pred: Option<P>,
    obj: Option<P>,
) -> Option<PropsTriple<P>> {
    if sub is Some && pred is Some && obj is Some {
        Some(
            PropsTriple {
                sub: (triple.sub, sub->Some_0),
                pred: (triple.pred, pred->Some_0),
                obj: (triple.obj, obj->Some_0),
            },
        )
    } else {
        None
    }
}

/// Puts a triple together with the properties of its subject, predicate
/// and object, if each of the three has properties.
pub fn decorate<P>(triple: Triple, sub: Option<P>, pred: Option<P>, obj: Option<P>) -> (r: Option<
    PropsTriple<P>,
>)
    ensures
        r == decorated(triple, sub, pred, obj),
{
    match (sub, pred, obj) {
        (Some(sub_props), Some(pred_props), Some(obj_props)) => Some(
            PropsTriple {
                sub: (triple.sub, sub_props),
                pred: (triple.pred, pred_props),
                obj: (triple.obj, obj_props),
            },
        ),
        _ => None,
    }
}

/// The decorated triple, or the error that takes its place where there
/// is none.
pub open spec fn or_missing<T>(found: Option<T>) -> Result<T, ()> {
    match found {
        Some(t) => Ok(t),
        None => Err(()),
    }
}

/// The properties of a node in a map, borrowed, if it has any.
pub open spec fn lookup<'a, P>(m: Map<u128, P>, node: u128) -> Option<&'a P> {
    if m.contains_key(node) {
        Some(&m[node])
    } else {
        None
    }
}

impl<NodeProperties, EdgeProperties> MemTripleStore<NodeProperties, EdgeProperties> {
    /// The nodes that have properties, once each, in increasing order.
    pub fn vertices(&self) -> (r: Vec<u128>)
        requires
            self.wf(),
        ensures
            r@ == self.node_listing(),
            self.nodes().dom().finite(),
            r@.len() == self.nodes().len(),
            forall|i: int, j: int| 0 <= i < j < r@.len() ==> r@[i] < r@[j],
            forall|k: u128| r@.contains(k) <==> self.nodes().contains_key(k),
    {
        let slots = self.node_props.as_slots();
        let mut r: Vec<u128> = Vec::new();
        let mut i: usize = 0;
        while i < slots.len()
            invariant
                slots@ == self.node_props.entries(),
                i <= slots@.len(),
                r@.len() == i,
                forall|k: int| 0 <= k < i ==> r@[k] == slots@[k].0,
            decreases slots@.len() - i,
        {
            r.push(slots[i].0);
            i += 1;
        }
        proof {
            self.lemma_node_listing();
            assert(r@ =~= self.node_listing());
            assert forall|k: u128| r@.contains(k) implies self.nodes().contains_key(k) by {
                let i = choose|i: int| 0 <= i < r@.len() && r@[i] == k;
                assert(self.nodes().contains_key(self.node_listing()[i]));
            }
        }
        r
    }

    /// The nodes that have properties, with their properties, in
    /// increasing order.
    pub fn iter_vertices(&self) -> (r: Vec<(u128, &NodeProperties)>)
        requires
            self.wf(),
        ensures
            r@.len() == self.node_listing().len(),
            forall|i: int|
                0 <= i < r@.len() ==> {
                    &&& (#[trigger] r@[i]).0 == self.node_listing()[i]
                    &&& self.nodes().contains_key(r@[i].0)
                    &&& *r@[i].1 == self.nodes()[r@[i].0]
                },
    {
        let slots = self.node_props.as_slots();
        let mut r: Vec<(u128, &NodeProperties)> = Vec::new();
        let mut i: usize = 0;
        while i < slots.len()
            invariant
                self.wf(),
                slots@ == self.node_props.entries(),
                i <= slots@.len(),
                r@.len() == i,
                forall|k: int|
                    0 <= k < i ==> {
                        &&& (#[trigger] r@[k]).0 == self.node_listing()[k]
                        &&& self.nodes().contains_key(r@[k].0)
                        &&& *r@[k].1 == self.nodes()[r@[k].0]
                    },
            decreases slots@.len() - i,
        {
            r.push((slots[i].0, &slots[i].1));
            i += 1;
        }
        r
    }

    /// The edges with their properties, once each, as the index of the
    /// given order lists them.
    pub fn iter_edges(&self, order: EdgeOrder) -> (r: Vec<(Triple, &EdgeProperties)>)
        requires
            self.wf(),
        ensures
            r@.len() == self.edge_listing(order).len(),
            forall|i: int|
                0 <= i < r@.len() ==> {
                    &&& (#[trigger] r@[i]).0 == self.edge_listing(order)[i]
                    &&& self.edges().contains_key(r@[i].0)
                    &&& *r@[i].1 == self.edges()[r@[i].0]
                },
            self.edges().dom().finite(),
            r@.len() == self.edges().len(),
            listed_in_order(r@, order),
            forall|t: Triple|
                #![trigger self.edges().contains_key(t)]
                self.edges().contains_key(t) ==> exists|i: int|
                    0 <= i < r@.len() && (#[trigger] r@[i]).0 == t,
    {
        let n = self.index_map(order).len();
        let r = self.run(order, 0, n);
        proof {
            self.lemma_edge_listing(order);
            let listing = self.edge_listing(order);
            assert forall|i: int, j: int|
                #![trigger r@[i], r@[j]]
                0 <= i < j < r@.len() implies r@[i].0.key_spec(order).rank() < r@[j].0.key_spec(
                order,
            ).rank() by {
                assert(r@[i].0 == listing[i] && r@[j].0 == listing[j]);
            }
            assert forall|t: Triple|
                #![trigger self.edges().contains_key(t)]
                self.edges().contains_key(t) implies exists|i: int|
                0 <= i < r@.len() && (#[trigger] r@[i]).0 == t by {
                let i = choose|i: int| 0 <= i < listing.len() && listing[i] == t;
                assert(r@[i].0 == t);
            }
        }
        r
    }

    /// The nodes with their properties, and the edges with theirs as the
    /// index of the given order lists them.
    pub fn iter_nodes(&self, order: EdgeOrder) -> (r: (
        Vec<(u128, &NodeProperties)>,
        Vec<(Triple, &EdgeProperties)>,
    ))
        requires
            self.wf(),
        ensures
            r.0@.len() == self.node_listing().len(),
            forall|i: int|
                0 <= i < r.0@.len() ==> {
                    &&& (#[trigger] r.0@[i]).0 == self.node_listing()[i]
                    &&& self.nodes().contains_key(r.0@[i].0)
                    &&& *r.0@[i].1 == self.nodes()[r.0@[i].0]
                },
            r.1@.len() == self.edge_listing(order).len(),
            forall|i: int|
                0 <= i < r.1@.len() ==> {
                    &&& (#[trigger] r.1@[i]).0 == self.edge_listing(order)[i]
                    &&& self.edges().contains_key(r.1@[i].0)
                    &&& *r.1@[i].1 == self.edges()[r.1@[i].0]
                },
    {
        (self.iter_vertices(), self.iter_edges(order))
    }

    /// The edges as the index of the given order lists them, each with
    /// the properties of its subject, its predicate and its object. An
    /// edge of which one of the three has no properties gives an error in
    /// its place.
    pub fn iter_edges_with_props(&self, order: EdgeOrder) -> (r: Vec<
        Result<PropsTriple<&NodeProperties>, ()>,
    >)
        requires
            self.wf(),
        ensures
            r@.len() == self.edge_listing(order).len(),
            forall|i: int|
                0 <= i < r@.len() ==> #[trigger] r@[i] == or_missing(
                    decorated(
                        self.edge_listing(order)[i],
                        lookup(self.nodes(), self.edge_listing(order)[i].sub),
                        lookup(self.nodes(), self.edge_listing(order)[i].pred),
                        lookup(self.nodes(), self.edge_listing(order)[i].obj),
                    ),
                ),
    {
        let n = self.index_map(order).len();
        let mut r: Vec<Result<PropsTriple<&NodeProperties>, ()>> = Vec::new();
        let mut i: usize = 0;
        while i < n
            invariant
                self.wf(),
                n == self.edge_listing(order).len(),
                i <= n,
                r@.len() == i,
                forall|k: int|
                    0 <= k < i ==> #[trigger] r@[k] == or_missing(
                        decorated(
                            self.edge_listing(order)[k],
                            lookup(self.nodes(), self.edge_listing(order)[k].sub),
                            lookup(self.nodes(), self.edge_listing(order)[k].pred),
                            lookup(self.nodes(), self.edge_listing(order)[k].obj),
                        ),
                    ),
            decreases n - i,
        {
            match self.edge_with_props_at(order, i) {
                Some(item) => {
                    r.push(item);
                },
                None => {
                    assert(false);
                },
            }
            i += 1;
        }
        r
    }

    /// The node at a position of the listing of the nodes, with its
    /// properties, if the listing is that long.
    pub fn vertex_at(&self, position: usize) -> (r: Option<(u128, &NodeProperties)>)
        requires
            self.wf(),
        ensures
            position >= self.node_listing().len() ==> r is None,
            position < self.node_listing().len() ==> {
                &&& r is Some
                &&& r->Some_0.0 == self.node_listing()[position as int]
                &&& self.nodes().contains_key(r->Some_0.0)
                &&& *r->Some_0.1 == self.nodes()[r->Some_0.0]
            },
    {
        let slots = self.node_props.as_slots();
        if position < slots.len() {
            Some((slots[position].0, &slots[position].1))
        } else {
            None
        }
    }

    /// The edge at a position of the listing of the index of the given
    /// order, with its properties, if the listing is that long.
    pub fn edge_at(&self, order: EdgeOrder, position: usize) -> (r: Option<
        (Triple, &EdgeProperties),
    >)
        requires
            self.wf(),
        ensures
            position >= self.edge_listing(order).len() ==> r is None,
            position < self.edge_listing(order).len() ==> {
                &&& r is Some
                &&& r->Some_0.0 == self.edge_listing(order)[position as int]
                &&& self.edges().contains_key(r->Some_0.0)
                &&& *r->Some_0.1 == self.edges()[r->Some_0.0]
            },
    {
        if position < self.index_map(order).len() {
            let mut found = self.run(order, position, position + 1);
            found.pop()
        } else {
            None
        }
    }

    /// The edge at a position of the listing of the index of the given
    /// order, with the properties of its subject, its predicate and its
    /// object, if the listing is that long. An edge of which one of the
    /// three has no properties gives an error in its place.
    pub fn edge_with_props_at(&self, order: EdgeOrder, position: usize) -> (r: Option<
        Result<PropsTriple<&NodeProperties>, ()>,
    >)
        requires
            self.wf(),
        ensures
            position >= self.edge_listing(order).len() ==> r is None,
            position < self.edge_listing(order).len() ==> r == Some(
                or_missing(
                    decorated(
                        self.edge_listing(order)[position as int],
                        lookup(self.nodes(), self.edge_listing(order)[position as int].sub),
                        lookup(self.nodes(), self.edge_listing(order)[position as int].pred),
                        lookup(self.nodes(), self.edge_listing(order)[position as int].obj),
                    ),
                ),
            ),
    {
        let slots = self.index_map(order).as_slots();
        if position < slots.len() {
            let triple = slots[position].0.triple(order);
            let sub = self.node_props.get(&triple.sub);
            let pred = self.node_props.get(&triple.pred);
            let obj = self.node_props.get(&triple.obj);
            match decorate(triple, sub, pred, obj) {
                Some(found) => Some(Ok(found)),
                None => Some(Err(())),
            }
        } else {
            None
        }
    }

    /// The nodes that have properties, with their properties, in
    /// increasing order. The store is used up.
    pub fn into_iter_vertices(self) -> (r: Vec<(u128, NodeProperties)>)
        requires
            self.wf(),
        ensures
            r@.len() == self.node_listing().len(),
            forall|i: int|
                0 <= i < r@.len() ==> {
                    &&& (#[trigger] r@[i]).0 == self.node_listing()[i]
                    &&& self.nodes().contains_key(r@[i].0)
                    &&& r@[i].1 == self.nodes()[r@[i].0]
                },
    {
        proof {
            assert forall|i: int| 0 <= i < self.node_props.entries().len() implies {
                &&& self.nodes().contains_key((#[trigger] self.node_props.entries()[i]).0)
                &&& self.node_props.entries()[i].1 == self.nodes()[self.node_props.entries()[i].0]
            } by {}
        }
        self.node_props.into_slots()
    }

    /// The nodes with their properties, and the edges with theirs as the
    /// index of the given order lists them. The store is used up.
    pub fn into_iter_nodes(self, order: EdgeOrder) -> (r: (
        Vec<(u128, NodeProperties)>,
        Vec<(Triple, EdgeProperties)>,
    ))
        requires
            self.wf(),
        ensures
            r.0@.len() == self.node_listing().len(),
            forall|i: int|
                0 <= i < r.0@.len() ==> {
                    &&& (#[trigger] r.0@[i]).0 == self.node_listing()[i]
                    &&& self.nodes().contains_key(r.0@[i].0)
                    &&& r.0@[i].1 == self.nodes()[r.0@[i].0]
                },
            r.1@.len() == self.edge_listing(order).len(),
            forall|i: int|
                0 <= i < r.1@.len() ==> {
                    &&& (#[trigger] r.1@[i]).0 == self.edge_listing(order)[i]
                    &&& self.edges().contains_key(r.1@[i].0)
                    &&& r.1@[i].1 == self.edges()[r.1@[i].0]
                },
    {
        let ghost listing = self.edge_listing(order);
        let ghost ids = self.edge_ids();
        let ghost all_props = self.edge_props_by_id();
        let ghost edges = self.edges();
        proof {
            assert forall|i: int| 0 <= i < self.node_props.entries().len() implies {
                &&& self.nodes().contains_key((#[trigger] self.node_props.entries()[i]).0)
                &&& self.node_props.entries()[i].1 == self.nodes()[self.node_props.entries()[i].0]
            } by {}
            assert forall|j: int| 0 <= j < listing.len() implies {
                &&& ids.contains_key(#[trigger] listing[j])
                &&& ids[listing[j]] == self.index_entries(order)[j].1
                &&& listing[j].key_spec(order) == self.index_entries(order)[j].0
            } by {}
        }
        let MemTripleStore { node_props, edge_props, spo_data, pos_data, osp_data } = self;
        let mut props = edge_props;
        let index = match order {
            EdgeOrder::SPO => spo_data,
            EdgeOrder::POS => pos_data,
            EdgeOrder::OSP => osp_data,
        };
        let slots = index.into_slots();
        proof {
            assert forall|j: int| 0 <= j < slots@.len() implies {
                &&& props@.contains_key((#[trigger] slots@[j]).1)
                &&& props@[slots@[j].1] == all_props[slots@[j].1]
            } by {
                assert(ids.contains_key(listing[j]));
            }
        }
        let mut found: Vec<(Triple, EdgeProperties)> = Vec::new();
        let mut i: usize = 0;
        while i < slots.len()
            invariant
                props.wf(),
                ascending(slots@),
                linked(ids, all_props),
                edges == resolve(ids, all_props),
                slots@.len() == listing.len(),
                i <= slots@.len(),
                found@.len() == i,
                forall|j: int|
                    0 <= j < listing.len() ==> {
                        &&& ids.contains_key(#[trigger] listing[j])
                        &&& ids[listing[j]] == slots@[j].1
                        &&& listing[j].key_spec(order) == slots@[j].0
                        &&& listing[j] == slots@[j].0.triple_spec(order)
                    },
                forall|j: int|
                    i <= j < slots@.len() ==> {
                        &&& props@.contains_key((#[trigger] slots@[j]).1)
                        &&& props@[slots@[j].1] == all_props[slots@[j].1]
                    },
                forall|k: int|
                    0 <= k < i ==> {
                        &&& (#[trigger] found@[k]).0 == listing[k]
                        &&& edges.contains_key(found@[k].0)
                        &&& found@[k].1 == edges[found@[k].0]
                    },
            decreases slots@.len() - i,
        {
            let triple = slots[i].0.triple(order);
            let id = slots[i].1;
            proof {
                assert forall|j: int| i < j < slots@.len() implies (#[trigger] slots@[j]).1
                    != id by {
                    assert(ids.contains_key(listing[j]) && ids.contains_key(listing[i as int]));
                }
            }
            match props.remove(&id) {
                Some(p) => {
                    found.push((triple, p));
                },
                None => {
                    assert(false);
                },
            }
            i += 1;
        }
        (node_props.into_slots(), found)
    }

    /// The edges with their properties, as the index of the given order
    /// lists them. The store is used up.
    pub fn into_iter_edges(self, order: EdgeOrder) -> (r: Vec<(Triple, EdgeProperties)>)
        requires
            self.wf(),
        ensures
            r@.len() == self.edge_listing(order).len(),
            forall|i: int|
                0 <= i < r@.len() ==> {
                    &&& (#[trigger] r@[i]).0 == self.edge_listing(order)[i]
                    &&& self.edges().contains_key(r@[i].0)
                    &&& r@[i].1 == self.edges()[r@[i].0]
                },
    {
        self.into_iter_nodes(order).1
    }
}

/// Whether `item` is what decorating the triple with clones of the
/// properties of its subject, predicate and object gives: the triple with
/// the three clones where each of the three has properties, and an error
/// where one has none.
pub open spec fn is_cloned_decoration<P: Clone>(
    triple: Triple,
    nodes: Map<u128, P>,
    item: Result<PropsTriple<P>, ()>,
) -> bool {
    match item {
        Ok(found) => {
            &&& nodes.contains_key(triple.sub)
            &&& nodes.contains_key(triple.pred)
            &&& nodes.contains_key(triple.obj)
            &&& found.sub.0 == triple.sub
            &&& found.pred.0 == triple.pred
            &&& found.obj.0 == triple.obj
            &&& cloned(nodes[triple.sub], found.sub.1)
            &&& cloned(nodes[triple.pred], found.pred.1)
            &&& cloned(nodes[triple.obj], found.obj.1)
        },
        Err(_) => !(nodes.contains_key(triple.sub) && nodes.contains_key(triple.pred)
            && nodes.contains_key(triple.obj)),
    }
}

/// A clone of the properties that were looked up, if there are any.
pub fn clone_lookup<P: Clone>(found: Option<&P>) -> (copy: Option<P>)
    ensures
        found is Some <==> copy is Some,
        found is Some ==> cloned(*found->Some_0, copy->Some_0),
{
    match found {
        Some(p) => Some(p.clone()),
        None => None,
    }
}

impl<NodeProperties: Clone, EdgeProperties> MemTripleStore<NodeProperties, EdgeProperties> {
    /// The edges as the index of the given order lists them, each with a
    /// clone of the properties of its subject, its predicate and its
    /// object. An edge of which one of the three has no properties gives
    /// an error in its place. The store is used up.
    pub fn into_iter_edges_with_props(self, order: EdgeOrder) -> (r: Vec<
        Result<PropsTriple<NodeProperties>, ()>,
    >)
        requires
            self.wf(),
        ensures
            r@.len() == self.edge_listing(order).len(),
            forall|i: int|
                0 <= i < r@.len() ==> is_cloned_decoration(
                    self.edge_listing(order)[i],
                    self.nodes(),
                    #[trigger] r@[i],
                ),
    {
        let slots = self.index_map(order).as_slots();
        let mut r: Vec<Result<PropsTriple<NodeProperties>, ()>> = Vec::new();
        let mut i: usize = 0;
        while i < slots.len()
            invariant
                self.wf(),
                slots@ == self.index_entries(order),
                i <= slots@.len(),
                r@.len() == i,
                forall|k: int|
                    0 <= k < i ==> is_cloned_decoration(
                        self.edge_listing(order)[k],
                        self.nodes(),
                        #[trigger] r@[k],
                    ),
            decreases slots@.len() - i,
        {
            let triple = slots[i].0.triple(order);
            let sub = clone_lookup(self.node_props.get(&triple.sub));
            let pred = clone_lookup(self.node_props.get(&triple.pred));
            let obj = clone_lookup(self.node_props.get(&triple.obj));
            let item = match decorate(triple, sub, pred, obj) {
                Some(found) => Ok(found),
                None => Err(()),
            };
            r.push(item);
            i += 1;
        }
        r
    }
}

} // verus!
