//! Merging one in-memory store into another: on a collision the
//! properties that are there absorb those that are added.

use crate::mem::MemTripleStore;
use crate::mergeable::{merge_maps, Mergeable};
use crate::triple::Triple;
use vstd::prelude::*;

verus! {

/// The rule that lets the value that is there absorb the value that is
/// added.
pub fn absorb_theirs<V: Mergeable>(mine: V, theirs: V) -> (r: V)
    ensures
        r == mine.merged(theirs),
{
    let mut kept = mine;
    kept.merge(theirs);
    kept
}

impl<NodeProperties: Mergeable, EdgeProperties: Mergeable> MemTripleStore<
    NodeProperties,
    EdgeProperties,
> {
    /// Stores the properties of a node. Where the node has properties
    /// already, they absorb the new ones.
    pub fn merge_node(&mut self, node: u128, props: NodeProperties)
        requires
            old(self).wf(),
        ensures
            final(self).wf(),
            final(self).edges() == old(self).edges(),
            final(self).edge_ids() == old(self).edge_ids(),
            final(self).edge_props_by_id() == old(self).edge_props_by_id(),
            final(self).nodes() == old(self).nodes().insert(
                node,
                if old(self).nodes().contains_key(node) {
                    old(self).nodes()[node].merged(props)
                } else {
                    props
                },
            ),
    {
        self.upsert_node(node, props, &absorb_theirs::<NodeProperties>);
    }

    /// Stores an edge with its properties. Where the store holds the edge
    /// already, the edge keeps its identifier and its properties absorb
    /// the new ones; a new edge gets `candidate` as its identifier, or
    /// the smallest unused identifier where `candidate` is taken.
    pub fn merge_edge_with_id(&mut self, triple: Triple, props: EdgeProperties, candidate: u128)
        requires
            old(self).wf(),
        ensures
            final(self).wf(),
            final(self).nodes() == old(self).nodes(),
            final(self).edges() == old(self).edges().insert(
                triple,
                if old(self).edges().contains_key(triple) {
                    old(self).edges()[triple].merged(props)
                } else {
                    props
                },
            ),
            final(self).edge_ids().contains_key(triple),
            old(self).edge_ids().contains_key(triple) ==> final(self).edge_ids() == old(
                self,
            ).edge_ids(),
            !old(self).edge_ids().contains_key(triple) ==> {
                let id = final(self).edge_ids()[triple];
                &&& final(self).edge_ids() == old(self).edge_ids().insert(triple, id)
                &&& !old(self).edge_props_by_id().contains_key(id)
                &&& !old(self).edge_props_by_id().contains_key(candidate) ==> id == candidate
                &&& old(self).edge_props_by_id().contains_key(candidate) ==> forall|e: u128|
                    e < id ==> #[trigger] old(self).edge_props_by_id().contains_key(e)
            },
    {
        self.upsert_edge_with_id(triple, props, candidate, &absorb_theirs::<EdgeProperties>);
    }

    /// Adds the nodes and edges of `other`. A node or an edge that both
    /// stores hold keeps the properties it has in this store, after they
    /// have absorbed those it has in `other`. Edges are matched by their
    /// triple, and an edge that this store held keeps its identifier. An
    /// edge that it did not hold comes with the identifier it has in
    /// `other`, where the two stores share no identifier; an identifier
    /// that is taken here is replaced by an unused one.
    pub fn merge(&mut self, other: Self)
        requires
            old(self).wf(),
            other.wf(),
        ensures
            final(self).wf(),
            final(self).nodes() == merge_maps(old(self).nodes(), other.nodes()),
            final(self).edges() == merge_maps(old(self).edges(), other.edges()),
            forall|t: Triple| #[trigger]
                old(self).edge_ids().contains_key(t) ==> final(self).edge_ids().contains_key(t)
                    && final(self).edge_ids()[t] == old(self).edge_ids()[t],
            old(self).edge_props_by_id().dom().disjoint(other.edge_props_by_id().dom())
                ==> forall|t: Triple| #[trigger]
                other.edge_ids().contains_key(t) && !old(self).edge_ids().contains_key(t)
                    ==> final(self).edge_ids().contains_key(t) && final(self).edge_ids()[t]
                    == other.edge_ids()[t],
    {
        self.absorb(other, absorb_theirs::<NodeProperties>, absorb_theirs::<EdgeProperties>);
    }
}

} // verus!
