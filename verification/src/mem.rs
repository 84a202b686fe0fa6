//! The in-memory triple store.
//!
//! The store keeps five ordered maps: the properties of the nodes, the
//! properties of the edges, and three indexes that hold every edge once
//! each, keyed by its components in the orders SPO, POS and OSP. Each
//! index maps the key of an edge to the identifier under which the
//! properties of that edge are kept.

use crate::ordered_map::SortedMap;
use crate::triple::{EdgeOrder, IndexKey, Triple};
use vstd::prelude::*;

pub mod absorb;
pub mod extend;
pub mod insert;
pub mod iter;
pub mod merge;
pub mod query;
pub mod remove;
pub mod scan;
pub mod set;

verus! {

/// An index read by triple in place of by key.
pub open spec fn by_triple(m: Map<IndexKey, u128>, order: EdgeOrder) -> Map<Triple, u128> {
    Map::new(|t: Triple| m.contains_key(t.key_spec(order)), |t: Triple| m[t.key_spec(order)])
}

/// Storing an identifier under the key of a triple stores it under the
/// triple.
pub proof fn lemma_by_triple_insert(m: Map<IndexKey, u128>, order: EdgeOrder, t: Triple, e: u128)
    ensures
        by_triple(m.insert(t.key_spec(order), e), order) == by_triple(m, order).insert(t, e),
{
}

/// Removing the key of a triple removes the triple.
pub proof fn lemma_by_triple_remove(m: Map<IndexKey, u128>, order: EdgeOrder, t: Triple)
    ensures
        by_triple(m.remove(t.key_spec(order)), order) == by_triple(m, order).remove(t),
{
}

/// An index read by triple has as many entries as the index.
pub proof fn lemma_by_triple_len(m: Map<IndexKey, u128>, order: EdgeOrder)
    requires
        m.dom().finite(),
    ensures
        by_triple(m, order).dom().finite(),
        by_triple(m, order).dom().len() == m.dom().len(),
{
    let keys = m.dom();
    let f = |k: IndexKey| k.triple_spec(order);
    let triples = by_triple(m, order).dom();
    assert(keys.map(f) =~= triples);
    vstd::set_lib::lemma_map_size(keys, triples, f);
}

/// The properties of each edge, found through the edge's identifier.
pub open spec fn resolve<P>(ids: Map<Triple, u128>, props: Map<u128, P>) -> Map<Triple, P> {
    Map::new(|t: Triple| ids.contains_key(t), |t: Triple| props[ids[t]])
}

/// Every edge has properties, all properties belong to an edge, and no
/// two edges share an identifier.
pub open spec fn linked<P>(ids: Map<Triple, u128>, props: Map<u128, P>) -> bool {
    &&& forall|t: Triple|
        #![trigger ids.contains_key(t)]
        ids.contains_key(t) ==> props.contains_key(ids[t])
    &&& forall|e: u128|
        #![trigger props.contains_key(e)]
        props.contains_key(e) ==> exists|t: Triple|
            #![trigger ids.contains_key(t)]
            ids.contains_key(t) && ids[t] == e
    &&& forall|t1: Triple, t2: Triple|
        #![trigger ids.contains_key(t1), ids.contains_key(t2)]
        ids.contains_key(t1) && ids.contains_key(t2) && ids[t1] == ids[t2] ==> t1 == t2
}

/// A new edge under an unused identifier keeps the link between edges and
/// properties.
pub proof fn lemma_link_new<P>(
    ids: Map<Triple, u128>,
    props: Map<u128, P>,
    t: Triple,
    e: u128,
    p: P,
)
    requires
        linked(ids, props),
        !ids.contains_key(t),
        !props.contains_key(e),
    ensures
        linked(ids.insert(t, e), props.insert(e, p)),
        resolve(ids.insert(t, e), props.insert(e, p)) == resolve(ids, props).insert(t, p),
{
    let ids2 = ids.insert(t, e);
    let props2 = props.insert(e, p);
    assert forall|x: u128| #![trigger props2.contains_key(x)] props2.contains_key(x) implies exists|
        y: Triple,
    |
        #![trigger ids2.contains_key(y)]
        ids2.contains_key(y) && ids2[y] == x by {
        if x == e {
            assert(ids2.contains_key(t) && ids2[t] == x);
        } else {
            let y = choose|y: Triple|
                #![trigger ids.contains_key(y)]
                ids.contains_key(y) && ids[y] == x;
            assert(ids2.contains_key(y) && ids2[y] == x);
        }
    }
}

/// New properties for an edge that is there keep the link between edges
/// and properties.
pub proof fn lemma_link_overwrite<P>(ids: Map<Triple, u128>, props: Map<u128, P>, t: Triple, p: P)
    requires
        linked(ids, props),
        ids.contains_key(t),
    ensures
        linked(ids, props.insert(ids[t], p)),
        resolve(ids, props.insert(ids[t], p)) == resolve(ids, props).insert(t, p),
{
}

/// Taking an edge out together with its properties keeps the link
/// between edges and properties.
pub proof fn lemma_link_remove<P>(ids: Map<Triple, u128>, props: Map<u128, P>, t: Triple)
    requires
        linked(ids, props),
        ids.contains_key(t),
    ensures
        linked(ids.remove(t), props.remove(ids[t])),
        resolve(ids.remove(t), props.remove(ids[t])) == resolve(ids, props).remove(t),
{
    let ids2 = ids.remove(t);
    let props2 = props.remove(ids[t]);
    assert forall|x: u128| #![trigger props2.contains_key(x)] props2.contains_key(x) implies exists|
        y: Triple,
    |
        #![trigger ids2.contains_key(y)]
        ids2.contains_key(y) && ids2[y] == x by {
        let y = choose|y: Triple|
            #![trigger ids.contains_key(y)]
            ids.contains_key(y) && ids[y] == x;
        assert(ids2.contains_key(y) && ids2[y] == x);
    }
}

/// A triple store held in memory.
#[derive(Debug, PartialEq, Eq)]
pub struct MemTripleStore<NodeProperties, EdgeProperties> {
    pub(crate) node_props: SortedMap<u128, NodeProperties>,
    pub(crate) edge_props: SortedMap<u128, EdgeProperties>,
    pub(crate) spo_data: SortedMap<IndexKey, u128>,
    pub(crate) pos_data: SortedMap<IndexKey, u128>,
    pub(crate) osp_data: SortedMap<IndexKey, u128>,
}

impl<NodeProperties, EdgeProperties> MemTripleStore<NodeProperties, EdgeProperties> {
    /// The properties of each node that has any.
    pub open(crate) spec fn nodes(&self) -> Map<u128, NodeProperties> {
        self.node_props@
    }

    /// The properties kept under each edge identifier.
    pub open(crate) spec fn edge_props_by_id(&self) -> Map<u128, EdgeProperties> {
        self.edge_props@
    }

    /// The index of the given order, read by triple.
    pub open(crate) spec fn index(&self, order: EdgeOrder) -> Map<Triple, u128> {
        match order {
            EdgeOrder::SPO => by_triple(self.spo_data@, EdgeOrder::SPO),
            EdgeOrder::POS => by_triple(self.pos_data@, EdgeOrder::POS),
            EdgeOrder::OSP => by_triple(self.osp_data@, EdgeOrder::OSP),
        }
    }

    /// The identifier of each edge of the store.
    pub open spec fn edge_ids(&self) -> Map<Triple, u128> {
        self.index(EdgeOrder::SPO)
    }

    /// The properties of each edge of the store.
    pub open spec fn edges(&self) -> Map<Triple, EdgeProperties> {
        resolve(self.edge_ids(), self.edge_props_by_id())
    }

    /// The five maps are ordered.
    pub open(crate) spec fn maps_ordered(&self) -> bool {
        &&& self.node_props.wf()
        &&& self.edge_props.wf()
        &&& self.spo_data.wf()
        &&& self.pos_data.wf()
        &&& self.osp_data.wf()
    }

    /// The three indexes hold the same edges under the same identifiers.
    pub open spec fn indexes_agree(&self) -> bool {
        &&& self.index(EdgeOrder::POS) == self.index(EdgeOrder::SPO)
        &&& self.index(EdgeOrder::OSP) == self.index(EdgeOrder::SPO)
    }

    /// The invariant of the store: the maps are ordered, the three
    /// indexes agree, and edges and edge properties are linked one to
    /// one.
    pub open spec fn wf(&self) -> bool {
        &&& self.maps_ordered()
        &&& self.indexes_agree()
        &&& linked(self.edge_ids(), self.edge_props_by_id())
    }

    /// An empty store.
    pub fn new() -> (s: Self)
        ensures
            s.wf(),
            s.nodes() == Map::<u128, NodeProperties>::empty(),
            s.edges() == Map::<Triple, EdgeProperties>::empty(),
            s.edge_ids() == Map::<Triple, u128>::empty(),
    {
        let s = MemTripleStore {
            node_props: SortedMap::new(),
            edge_props: SortedMap::new(),
            spo_data: SortedMap::new(),
            pos_data: SortedMap::new(),
            osp_data: SortedMap::new(),
        };
        assert(s.index(EdgeOrder::SPO) =~= Map::<Triple, u128>::empty());
        assert(s.index(EdgeOrder::POS) =~= Map::<Triple, u128>::empty());
        assert(s.index(EdgeOrder::OSP) =~= Map::<Triple, u128>::empty());
        s
    }
    /// The store holds finitely many nodes and edges.
    pub proof fn lemma_finite(&self)
        requires
            self.wf(),
        ensures
            self.nodes().dom().finite(),
            self.edge_ids().dom().finite(),
            self.edges().dom().finite(),
            self.edge_props_by_id().dom().finite(),
            self.edges().dom() == self.edge_ids().dom(),
    {
        self.lemma_counts();
    }

    /// The store holds as many nodes as the node map has entries, and as
    /// many edges as each index has entries.
    pub(crate) proof fn lemma_counts(&self)
        requires
            self.wf(),
        ensures
            self.nodes().dom().finite(),
            self.edge_ids().dom().finite(),
            self.edges().dom().finite(),
            self.edge_props_by_id().dom().finite(),
            self.edges().dom() == self.edge_ids().dom(),
            self.nodes().len() == self.node_props.entries().len(),
            self.edges().len() == self.spo_data.entries().len(),
            self.edges().len() == self.pos_data.entries().len(),
            self.edges().len() == self.osp_data.entries().len(),
    {
        self.node_props.lemma_len();
        self.edge_props.lemma_len();
        self.spo_data.lemma_len();
        self.pos_data.lemma_len();
        self.osp_data.lemma_len();
        lemma_by_triple_len(self.spo_data@, EdgeOrder::SPO);
        lemma_by_triple_len(self.pos_data@, EdgeOrder::POS);
        lemma_by_triple_len(self.osp_data@, EdgeOrder::OSP);
        assert(self.edges().dom() =~= self.edge_ids().dom());
    }

    /// The number of nodes that have properties.
    pub fn node_count(&self) -> (n: usize)
        requires
            self.wf(),
        ensures
            self.nodes().dom().finite(),
            n == self.nodes().len(),
    {
        proof {
            self.lemma_counts();
        }
        self.node_props.len()
    }

    /// The number of edges.
    pub fn edge_count(&self) -> (n: usize)
        requires
            self.wf(),
        ensures
            self.edges().dom().finite(),
            n == self.edges().len(),
    {
        proof {
            self.lemma_counts();
        }
        self.spo_data.len()
    }
    /// The properties of a node, if it has any.
    pub fn get_node(&self, node: u128) -> (r: Option<&NodeProperties>)
        requires
            self.wf(),
        ensures
            r == (if self.nodes().contains_key(node) {
                Some(&self.nodes()[node])
            } else {
                None
            }),
    {
        self.node_props.get(&node)
    }

    /// Whether the node has properties.
    pub fn has_node(&self, node: u128) -> (r: bool)
        requires
            self.wf(),
        ensures
            r == self.nodes().contains_key(node),
    {
        self.node_props.contains_key(&node)
    }

    /// The properties of an edge, if the store holds the edge.
    pub fn get_edge(&self, triple: Triple) -> (r: Option<&EdgeProperties>)
        requires
            self.wf(),
        ensures
            r == (if self.edges().contains_key(triple) {
                Some(&self.edges()[triple])
            } else {
                None
            }),
    {
        match self.spo_data.get(&triple.key(EdgeOrder::SPO)) {
            Some(id) => {
                self.edge_props.get(id)
            },
            None => {
                None
            },
        }
    }

    /// Whether the store holds the edge.
    pub fn has_edge(&self, triple: Triple) -> (r: bool)
        requires
            self.wf(),
        ensures
            r == self.edges().contains_key(triple),
    {
        let r = self.spo_data.contains_key(&triple.key(EdgeOrder::SPO));
        r
    }
}

} // verus!
