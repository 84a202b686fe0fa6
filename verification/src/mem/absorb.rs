//! Taking the nodes and edges of one in-memory store into another, with
//! a rule for the properties of what both stores hold.
//!
//! Extending a store and merging into a store are both this, with
//! different rules: on a collision the one lets the properties that are
//! added win, the other lets the properties that are there absorb them.

use crate::mem::MemTripleStore;
use crate::triple::{EdgeOrder, Triple};
use vstd::prelude::*;

verus! {

/// Whether `after` is `before` with `added` taken in: it holds the keys
/// of both; a key that only one of them holds has the value it has
/// there, and a key that both hold has a value that `rule` gives for the
/// value in `before` and the value in `added`.
pub open spec fn absorbed<K, V, F: Fn(V, V) -> V>(
    before: Map<K, V>,
    added: Map<K, V>,
    after: Map<K, V>,
    rule: F,
) -> bool {
    &&& forall|k: K|
        #![trigger after.contains_key(k)]
        after.contains_key(k) <==> before.contains_key(k) || added.contains_key(k)
    &&& forall|k: K|
        #![trigger after.contains_key(k)]
        after.contains_key(k) ==> if before.contains_key(k) && added.contains_key(k) {
            call_ensures(rule, (before[k], added[k]), after[k])
        } else if added.contains_key(k) {
            after[k] == added[k]
        } else {
            after[k] == before[k]
        }
}

/// The rule that lets the value that is added win.
pub fn keep_theirs<V>(_mine: V, theirs: V) -> (r: V)
    ensures
        r == theirs,
{
    theirs
}

impl<NodeProperties, EdgeProperties> MemTripleStore<NodeProperties, EdgeProperties> {
    /// Stores the properties of a node. Where the node has properties
    /// already, `rule` makes one value of those and the new ones.
    pub fn upsert_node<F: Fn(NodeProperties, NodeProperties) -> NodeProperties>(
        &mut self,
        node: u128,
        props: NodeProperties,
        rule: &F,
    )
        requires
            old(self).wf(),
            forall|a: NodeProperties, b: NodeProperties| call_requires(*rule, (a, b)),
        ensures
            final(self).wf(),
            final(self).edges() == old(self).edges(),
            final(self).edge_ids() == old(self).edge_ids(),
            final(self).edge_props_by_id() == old(self).edge_props_by_id(),
            final(self).nodes().contains_key(node),
            final(self).nodes() == old(self).nodes().insert(node, final(self).nodes()[node]),
            old(self).nodes().contains_key(node) ==> call_ensures(
                *rule,
                (old(self).nodes()[node], props),
                final(self).nodes()[node],
            ),
            !old(self).nodes().contains_key(node) ==> final(self).nodes()[node] == props,
    {
        let settled = match self.node_props.remove(&node) {
            Some(mine) => rule(mine, props),
            None => props,
        };
        self.node_props.insert(node, settled);
    }

    /// Stores an edge with its properties. Where the store holds the edge
    /// already, the edge keeps its identifier and `rule` makes one value
    /// of its properties and the new ones; a new edge gets `candidate` as
    /// its identifier, or the smallest unused identifier where
    /// `candidate` is taken.
    pub fn upsert_edge_with_id<F: Fn(EdgeProperties, EdgeProperties) -> EdgeProperties>(
        &mut self,
        triple: Triple,
        props: EdgeProperties,
        candidate: u128,
        rule: &F,
    )
        requires
            old(self).wf(),
            forall|a: EdgeProperties, b: EdgeProperties| call_requires(*rule, (a, b)),
        ensures
            final(self).wf(),
            final(self).nodes() == old(self).nodes(),
            final(self).edges().contains_key(triple),
            final(self).edges() == old(self).edges().insert(triple, final(self).edges()[triple]),
            old(self).edges().contains_key(triple) ==> call_ensures(
                *rule,
                (old(self).edges()[triple], props),
                final(self).edges()[triple],
            ),
            !old(self).edges().contains_key(triple) ==> final(self).edges()[triple] == props,
            final(self).edge_ids().contains_key(triple),
            final(self).edge_props_by_id().dom() == old(self).edge_props_by_id().dom().insert(
                final(self).edge_ids()[triple],
            ),
            old(self).edge_ids().contains_key(triple) ==> final(self).edge_ids() == old(
                self,
            ).edge_ids(),
            !old(self).edge_ids().contains_key(triple) ==> {
                let id = final(self).edge_ids()[triple];
                &&& final(self).edge_ids() == old(self).edge_ids().insert(triple, id)
                &&& !old(self).edge_props_by_id().contains_key(id)
                &&& !old(self).edge_props_by_id().contains_key(candidate) ==> id == candidate
                &&& old(self).edge_props_by_id().contains_key(candidate) ==> forall|e: u128|
                    e < id ==> #[trigger] old(self).edge_props_by_id().contains_key(e)
            },
    {
        let held = match self.spo_data.get(&triple.key(EdgeOrder::SPO)) {
            Some(id) => Some(*id),
            None => None,
        };
        match held {
            Some(id) => {
                match self.edge_props.remove(&id) {
                    Some(mine) => {
                        let settled = rule(mine, props);
                        self.edge_props.insert(id, settled);
                    },
                    None => {
                        assert(false);
                    },
                }
            },
            None => {
                self.insert_edge_with_id(triple, props, candidate);
            },
        }
    }

    /// Takes in the nodes and edges of `other`. A node or an edge that
    /// only one store holds has the properties it has there; for one that
    /// both hold, the rule for nodes or the rule for edges makes one
    /// value of the properties here and the properties in `other`. An
    /// edge that this store held keeps its identifier. An edge that it
    /// did not hold comes with the identifier it has in `other`, where
    /// the two stores share no identifier; an identifier that is taken
    /// here is replaced by an unused one.
    pub fn absorb<
        FN: Fn(NodeProperties, NodeProperties) -> NodeProperties,
        FE: Fn(EdgeProperties, EdgeProperties) -> EdgeProperties,
    >(&mut self, other: Self, node_rule: FN, edge_rule: FE)
        requires
            old(self).wf(),
            other.wf(),
            forall|a: NodeProperties, b: NodeProperties| call_requires(node_rule, (a, b)),
            forall|a: EdgeProperties, b: EdgeProperties| call_requires(edge_rule, (a, b)),
        ensures
            final(self).wf(),
            absorbed(old(self).nodes(), other.nodes(), final(self).nodes(), node_rule),
            absorbed(old(self).edges(), other.edges(), final(self).edges(), edge_rule),
            forall|t: Triple| #[trigger]
                old(self).edge_ids().contains_key(t) ==> final(self).edge_ids().contains_key(t)
                    && final(self).edge_ids()[t] == old(self).edge_ids()[t],
            old(self).edge_props_by_id().dom().disjoint(other.edge_props_by_id().dom())
                ==> forall|t: Triple| #[trigger]
                other.edge_ids().contains_key(t) && !old(self).edge_ids().contains_key(t)
                    ==> final(self).edge_ids().contains_key(t) && final(self).edge_ids()[t]
                    == other.edge_ids()[t],
    {
        let mut rest = other;
        let mut left_nodes = rest.node_count();
        while left_nodes > 0
            invariant
                self.wf(),
                rest.wf(),
                rest.nodes().dom().finite(),
                left_nodes == rest.nodes().len(),
                forall|a: NodeProperties, b: NodeProperties| call_requires(node_rule, (a, b)),
                forall|k: u128| #[trigger]
                    rest.nodes().contains_key(k) ==> other.nodes().contains_key(k)
                        && rest.nodes()[k] == other.nodes()[k],
                rest.edges() == other.edges(),
                rest.edge_ids() == other.edge_ids(),
                rest.edge_props_by_id() == other.edge_props_by_id(),
                self.edges() == old(self).edges(),
                self.edge_ids() == old(self).edge_ids(),
                self.edge_props_by_id() == old(self).edge_props_by_id(),
                absorbed(
                    old(self).nodes(),
                    other.nodes().remove_keys(rest.nodes().dom()),
                    self.nodes(),
                    node_rule,
                ),
            decreases left_nodes,
        {
            match rest.pop_node() {
                Some((node, props)) => {
                    self.upsert_node(node, props, &node_rule);
                },
                None => {
                },
            }
            left_nodes = left_nodes - 1;
        }
        let ghost taken_nodes = self.nodes();
        let mut left_edges = rest.edge_count();
        while left_edges > 0
            invariant
                self.wf(),
                rest.wf(),
                rest.edges().dom().finite(),
                left_edges == rest.edges().len(),
                forall|a: EdgeProperties, b: EdgeProperties| call_requires(edge_rule, (a, b)),
                self.nodes() == taken_nodes,
                forall|t: Triple| #[trigger]
                    rest.edges().contains_key(t) ==> other.edges().contains_key(t)
                        && rest.edges()[t] == other.edges()[t],
                absorbed(
                    old(self).edges(),
                    other.edges().remove_keys(rest.edges().dom()),
                    self.edges(),
                    edge_rule,
                ),
                forall|t: Triple| #[trigger]
                    old(self).edge_ids().contains_key(t) ==> self.edge_ids().contains_key(t)
                        && self.edge_ids()[t] == old(self).edge_ids()[t],
                forall|t: Triple| #[trigger]
                    rest.edge_ids().contains_key(t) ==> other.edge_ids().contains_key(t)
                        && rest.edge_ids()[t] == other.edge_ids()[t],
                forall|e: u128| #[trigger]
                    rest.edge_props_by_id().contains_key(e)
                        ==> other.edge_props_by_id().contains_key(e),
                forall|t: Triple| #[trigger]
                    self.edge_ids().contains_key(t) ==> old(self).edge_ids().contains_key(t) || (
                    other.edge_ids().contains_key(t) && !rest.edge_ids().contains_key(t)),
                old(self).edge_props_by_id().dom().disjoint(other.edge_props_by_id().dom())
                    ==> forall|e: u128| #[trigger]
                    self.edge_props_by_id().contains_key(e) ==> old(
                        self,
                    ).edge_props_by_id().contains_key(e) || (
                    other.edge_props_by_id().contains_key(e)
                        && !rest.edge_props_by_id().contains_key(e)),
                old(self).edge_props_by_id().dom().disjoint(other.edge_props_by_id().dom())
                    ==> forall|t: Triple| #[trigger]
                    other.edge_ids().contains_key(t) && !rest.edge_ids().contains_key(t) && !old(
                        self,
                    ).edge_ids().contains_key(t) ==> self.edge_ids().contains_key(t)
                        && self.edge_ids()[t] == other.edge_ids()[t],
            decreases left_edges,
        {
            match rest.pop_edge() {
                Some((triple, id, props)) => {
                    self.upsert_edge_with_id(triple, props, id, &edge_rule);
                },
                None => {
                },
            }
            left_edges = left_edges - 1;
        }
        proof {
            rest.lemma_finite();
        }
    }
}

} // verus!
