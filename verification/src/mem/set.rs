//! The set operations on in-memory stores: union, intersection,
//! difference and symmetric difference, on the nodes by their identifier
//! and on the edges by their triple.
//!
//! Each operation takes the two stores apart, walks the two node maps
//! side by side and the two SPO indexes side by side, decides for each
//! key what the result keeps, and builds the result from what was kept.

use crate::mem::{linked, resolve, MemTripleStore};
use crate::mergeable::{exclusive_maps, intersect_maps, merge_maps, subtract_maps, Mergeable};
use crate::ordered_map::join::{
    combine, settle_difference, settle_symmetric_difference, Joined,
};
use crate::ordered_map::{
    as_map, ascending, lemma_insert_at, lemma_key_has_position, OrderedKey, SortedMap,
};
use crate::triple::{EdgeOrder, IndexKey, Triple};
use vstd::prelude::*;

verus! {

/// The properties of the edges of an index whose entries hold, for each
/// edge, its identifier and its properties.
pub open spec fn props_by_triple<E>(entries: Map<IndexKey, (u128, E)>) -> Map<Triple, E> {
    Map::new(
        |t: Triple| entries.contains_key(t.key_spec(EdgeOrder::SPO)),
        |t: Triple| entries[t.key_spec(EdgeOrder::SPO)].1,
    )
}

/// What a union keeps of an edge: the edge as the one store has it, or
/// with the identifier of the first store and the properties of the
/// first after they have absorbed those of the second.
pub open spec fn edge_union_of<E: Mergeable>(found: Joined<(u128, E)>) -> Option<(u128, E)> {
    match found {
        Joined::Left(e) => Some(e),
        Joined::Right(e) => Some(e),
        Joined::Both(a, b) => Some((a.0, a.1.merged(b.1))),
    }
}

/// What an intersection keeps of an edge: nothing of an edge that one
/// store lacks, else the edge with the identifier of the first store and
/// the properties of the first after they have absorbed those of the
/// second.
pub open spec fn edge_intersection_of<E: Mergeable>(found: Joined<(u128, E)>) -> Option<(u128, E)> {
    match found {
        Joined::Both(a, b) => Some((a.0, a.1.merged(b.1))),
        _ => None,
    }
}

/// Decides what a union keeps of an edge.
pub fn settle_edge_union<E: Mergeable>(found: Joined<(u128, E)>) -> (r: Option<(u128, E)>)
    ensures
        r == edge_union_of(found),
{
    match found {
        Joined::Left(e) => Some(e),
        Joined::Right(e) => Some(e),
        Joined::Both(a, b) => {
            let mut kept = a.1;
            kept.merge(b.1);
            Some((a.0, kept))
        },
    }
}

/// Decides what an intersection keeps of an edge.
pub fn settle_edge_intersection<E: Mergeable>(found: Joined<(u128, E)>) -> (r: Option<(u128, E)>)
    ensures
        r == edge_intersection_of(found),
{
    match found {
        Joined::Both(a, b) => {
            let mut kept = a.1;
            kept.merge(b.1);
            Some((a.0, kept))
        },
        _ => None,
    }
}

impl<NodeProperties, EdgeProperties> MemTripleStore<NodeProperties, EdgeProperties> {
    /// The SPO index with, for each edge, its identifier and its
    /// properties.
    pub open spec fn edge_entries(&self) -> Map<IndexKey, (u128, EdgeProperties)> {
        Map::new(
            |k: IndexKey| self.edges().contains_key(k.triple_spec(EdgeOrder::SPO)),
            |k: IndexKey|
                (
                    self.edge_ids()[k.triple_spec(EdgeOrder::SPO)],
                    self.edges()[k.triple_spec(EdgeOrder::SPO)],
                ),
        )
    }

    /// The edges, as the SPO index lists them.
    pub fn triples(&self) -> (r: Vec<Triple>)
        requires
            self.wf(),
        ensures
            r@ == self.edge_listing(EdgeOrder::SPO),
            r@.to_set() == self.edges().dom(),
    {
        let slots = self.spo_data.as_slots();
        let mut r: Vec<Triple> = Vec::new();
        let mut i: usize = 0;
        while i < slots.len()
            invariant
                slots@ == self.spo_data.entries(),
                i <= slots@.len(),
                r@.len() == i,
                forall|k: int|
                    0 <= k < i ==> r@[k] == slots@[k].0.triple_spec(EdgeOrder::SPO),
            decreases slots@.len() - i,
        {
            r.push(slots[i].0.triple(EdgeOrder::SPO));
            i += 1;
        }
        proof {
            assert(r@ =~= self.edge_listing(EdgeOrder::SPO));
            self.lemma_edge_listing(EdgeOrder::SPO);
        }
        r
    }

    /// Takes the store apart: the node map, and the SPO index with the
    /// identifier and the properties of each edge.
    pub fn into_maps(self) -> (r: (
        SortedMap<u128, NodeProperties>,
        SortedMap<IndexKey, (u128, EdgeProperties)>,
    ))
        requires
            self.wf(),
        ensures
            r.0.wf(),
            r.1.wf(),
            r.0@ == self.nodes(),
            r.1@ == self.edge_entries(),
    {
        let ghost ids = self.edge_ids();
        let ghost all_props = self.edge_props_by_id();
        let ghost edges = self.edges();
        let ghost entries = self.spo_data.entries();
        proof {
            assert forall|j: int| 0 <= j < entries.len() implies {
                &&& ids.contains_key((#[trigger] entries[j]).0.triple_spec(EdgeOrder::SPO))
                &&& ids[entries[j].0.triple_spec(EdgeOrder::SPO)] == entries[j].1
            } by {}
        }
        let MemTripleStore { node_props, edge_props, spo_data, pos_data: _, osp_data: _ } = self;
        let mut props = edge_props;
        let slots = spo_data.into_slots();
        let mut out: SortedMap<IndexKey, (u128, EdgeProperties)> = SortedMap::new();
        let mut i: usize = 0;
        while i < slots.len()
            invariant
                props.wf(),
                out.wf(),
                slots@ == entries,
                ascending(slots@),
                linked(ids, all_props),
                edges == resolve(ids, all_props),
                i <= slots@.len(),
                forall|j: int|
                    0 <= j < slots@.len() ==> {
                        &&& ids.contains_key((#[trigger] slots@[j]).0.triple_spec(EdgeOrder::SPO))
                        &&& ids[slots@[j].0.triple_spec(EdgeOrder::SPO)] == slots@[j].1
                    },
                forall|j: int|
                    i <= j < slots@.len() ==> {
                        &&& props@.contains_key((#[trigger] slots@[j]).1)
                        &&& props@[slots@[j].1] == all_props[slots@[j].1]
                    },
                forall|k: IndexKey|
                    #[trigger] out@.contains_key(k) <==> exists|j: int|
                        0 <= j < i && (#[trigger] slots@[j]).0 == k,
                forall|j: int|
                    0 <= j < i ==> out@[(#[trigger] slots@[j]).0] == (
                        slots@[j].1,
                        edges[slots@[j].0.triple_spec(EdgeOrder::SPO)],
                    ),
            decreases slots@.len() - i,
        {
            let key = slots[i].0;
            let id = slots[i].1;
            match props.remove(&id) {
                Some(p) => {
                    out.push_last(key, (id, p));
                },
                None => {
                    assert(false);
                },
            }
            i += 1;
        }
        (node_props, out)
    }

    /// Builds a store from a node map and from an SPO index that holds,
    /// for each edge, the identifier to give it and its properties. An
    /// identifier that an earlier edge of the index has taken is replaced
    /// by an unused one.
    pub fn from_maps(
        nodes: SortedMap<u128, NodeProperties>,
        edges: SortedMap<IndexKey, (u128, EdgeProperties)>,
    ) -> (r: Self)
        requires
            nodes.wf(),
            edges.wf(),
        ensures
            r.wf(),
            r.nodes() == nodes@,
            r.edges() == props_by_triple(edges@),
    {
        let mut r = MemTripleStore {
            node_props: nodes,
            edge_props: SortedMap::new(),
            spo_data: SortedMap::new(),
            pos_data: SortedMap::new(),
            osp_data: SortedMap::new(),
        };
        proof {
            assert(r.index(EdgeOrder::SPO) =~= Map::<Triple, u128>::empty());
            assert(r.index(EdgeOrder::POS) =~= Map::<Triple, u128>::empty());
            assert(r.index(EdgeOrder::OSP) =~= Map::<Triple, u128>::empty());
        }
        let ghost all = edges.entries();
        let slots = edges.into_slots();
        for item in it: slots
            invariant
                r.wf(),
                it.seq() == all,
                ascending(all),
                r.nodes() == nodes@,
                r.edges() == props_by_triple(as_map(all.take(it.index() as int))),
        {
            let ghost n = it.index() as int;
            let key = item.0;
            let triple = key.triple(EdgeOrder::SPO);
            proof {
                let head = all.take(n);
                assert(all.take(n + 1) =~= head.insert(n, all[n]));
                lemma_insert_at(head, n, key, item.1);
            }
            r.insert_edge_with_id(triple, item.1.1, item.1.0);
        }
        proof {
            assert(all.take(all.len() as int) =~= all);
        }
        r
    }

    /// The nodes and edges of this store that `other` does not hold, with
    /// the properties they have here. The node maps are walked side by
    /// side, and so are the SPO indexes.
    pub fn difference(self, other: Self) -> (r: Result<Self, ()>)
        requires
            self.wf(),
            other.wf(),
        ensures
            r is Ok,
            r->Ok_0.wf(),
            r->Ok_0.nodes() == subtract_maps(self.nodes(), other.nodes()),
            r->Ok_0.edges() == subtract_maps(self.edges(), other.edges()),
    {
        let (left_nodes, left_edges) = self.into_maps();
        let (right_nodes, right_edges) = other.into_maps();
        let nodes = left_nodes.subtract(right_nodes);
        let edges = combine(left_edges, right_edges, settle_difference::<(u128, EdgeProperties)>);
        let result = Self::from_maps(nodes, edges);
        Ok(result)
    }

    /// The nodes and edges that one of the two stores holds and the other
    /// does not, with the properties they have where they are. The node
    /// maps are walked side by side, and so are the SPO indexes.
    pub fn symmetric_difference(self, other: Self) -> (r: Result<Self, ()>)
        requires
            self.wf(),
            other.wf(),
        ensures
            r is Ok,
            r->Ok_0.wf(),
            r->Ok_0.nodes() == exclusive_maps(self.nodes(), other.nodes()),
            r->Ok_0.edges() == exclusive_maps(self.edges(), other.edges()),
    {
        let (left_nodes, left_edges) = self.into_maps();
        let (right_nodes, right_edges) = other.into_maps();
        let nodes = left_nodes.exclusive_with(right_nodes);
        let edges = combine(
            left_edges,
            right_edges,
            settle_symmetric_difference::<(u128, EdgeProperties)>,
        );
        let result = Self::from_maps(nodes, edges);
        Ok(result)
    }
}

impl<NodeProperties: Mergeable, EdgeProperties: Mergeable> MemTripleStore<
    NodeProperties,
    EdgeProperties,
> {
    /// The nodes and edges of both stores. A node or an edge that both
    /// hold has the properties it has in this store, after they have
    /// absorbed those it has in `other`. The node maps are walked side by
    /// side, and so are the SPO indexes.
    pub fn union(self, other: Self) -> (r: Result<Self, ()>)
        requires
            self.wf(),
            other.wf(),
        ensures
            r is Ok,
            r->Ok_0.wf(),
            r->Ok_0.nodes() == merge_maps(self.nodes(), other.nodes()),
            r->Ok_0.edges() == merge_maps(self.edges(), other.edges()),
    {
        let (left_nodes, left_edges) = self.into_maps();
        let (right_nodes, right_edges) = other.into_maps();
        let nodes = left_nodes.union_with(right_nodes);
        let edges = combine(left_edges, right_edges, settle_edge_union::<EdgeProperties>);
        let result = Self::from_maps(nodes, edges);
        Ok(result)
    }

    /// The nodes and edges that both stores hold, each with the
    /// properties it has in this store, after they have absorbed those it
    /// has in `other`. The node maps are walked side by side, and so are
    /// the SPO indexes.
    pub fn intersection(self, other: Self) -> (r: Result<Self, ()>)
        requires
            self.wf(),
            other.wf(),
        ensures
            r is Ok,
            r->Ok_0.wf(),
            r->Ok_0.nodes() == intersect_maps(self.nodes(), other.nodes()),
            r->Ok_0.edges() == intersect_maps(self.edges(), other.edges()),
    {
        let (left_nodes, left_edges) = self.into_maps();
        let (right_nodes, right_edges) = other.into_maps();
        let nodes = left_nodes.intersect_with(right_nodes);
        let edges = combine(left_edges, right_edges, settle_edge_intersection::<EdgeProperties>);
        let result = Self::from_maps(nodes, edges);
        Ok(result)
    }
}

} // verus!
