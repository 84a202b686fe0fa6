//! Answering triple patterns and queries from the in-memory store.

use crate::mem::scan::listed_in_order;
use crate::mem::MemTripleStore;
use crate::query::{Pattern, Query};
use crate::triple::{EdgeOrder, Triple};
use vstd::prelude::*;

verus! {

/// Whether `picked` holds, borrowed, the entries of `all` whose key is
/// wanted, and nothing else.
pub open spec fn is_selection<'a, K, V>(
    picked: Map<K, &'a V>,
    all: Map<K, V>,
    wanted: spec_fn(K) -> bool,
) -> bool {
    &&& forall|k: K|
        #![trigger picked.contains_key(k)]
        picked.contains_key(k) <==> all.contains_key(k) && wanted(k)
    &&& forall|k: K|
        #![trigger picked.contains_key(k)]
        picked.contains_key(k) ==> *picked[k] == all[k]
}

impl<NodeProperties, EdgeProperties> MemTripleStore<NodeProperties, EdgeProperties> {
    /// The identifier of an edge, if the store holds the edge.
    pub fn edge_id(&self, triple: Triple) -> (r: Option<u128>)
        requires
            self.wf(),
        ensures
            r == (if self.edge_ids().contains_key(triple) {
                Some(self.edge_ids()[triple])
            } else {
                None
            }),
    {
        match self.spo_data.get(&triple.key(EdgeOrder::SPO)) {
            Some(id) => Some(*id),
            None => None,
        }
    }

    /// The edges that match the pattern, with their properties, read in
    /// one run from the index of the given order, which must cover the
    /// pattern.
    pub fn match_pattern_in(&self, pattern: &Pattern, order: EdgeOrder) -> (r: Vec<
        (Triple, &EdgeProperties),
    >)
        requires
            self.wf(),
            pattern.covered_by(order),
        ensures
            listed_in_order(r@, order),
            forall|i: int|
                0 <= i < r@.len() ==> {
                    &&& self.edges().contains_key((#[trigger] r@[i]).0)
                    &&& *r@[i].1 == self.edges()[r@[i].0]
                    &&& pattern.matches(r@[i].0)
                },
            forall|t: Triple|
                #![trigger self.edges().contains_key(t)]
                self.edges().contains_key(t) && pattern.matches(t) ==> exists|i: int|
                    0 <= i < r@.len() && (#[trigger] r@[i]).0 == t,
    {
        let lo = pattern.lowest_key(order);
        let hi = pattern.highest_key(order);
        let r = self.scan(order, &lo, &hi);
        r
    }

    /// The edges that match the pattern, with their properties, read in
    /// one run from the index that serves the pattern.
    pub fn match_pattern(&self, pattern: &Pattern) -> (r: Vec<(Triple, &EdgeProperties)>)
        requires
            self.wf(),
        ensures
            listed_in_order(r@, pattern.best_order_spec()),
            forall|i: int|
                0 <= i < r@.len() ==> {
                    &&& self.edges().contains_key((#[trigger] r@[i]).0)
                    &&& *r@[i].1 == self.edges()[r@[i].0]
                    &&& pattern.matches(r@[i].0)
                },
            forall|t: Triple|
                #![trigger self.edges().contains_key(t)]
                self.edges().contains_key(t) && pattern.matches(t) ==> exists|i: int|
                    0 <= i < r@.len() && (#[trigger] r@[i]).0 == t,
    {
        self.match_pattern_in(pattern, pattern.best_order())
    }

    /// Adds to `picked` the edges that match the pattern, each under the
    /// identifier it has in this store.
    fn pick_matches<'a>(
        &'a self,
        pattern: &Pattern,
        picked: &mut MemTripleStore<&'a NodeProperties, &'a EdgeProperties>,
    )
        requires
            self.wf(),
            old(picked).wf(),
            old(picked).edge_ids().submap_of(self.edge_ids()),
            forall|t: Triple| #[trigger]
                old(picked).edges().contains_key(t) ==> *old(picked).edges()[t] == self.edges()[t],
        ensures
            final(picked).wf(),
            final(picked).nodes() == old(picked).nodes(),
            final(picked).edge_ids().submap_of(self.edge_ids()),
            forall|t: Triple| #[trigger]
                final(picked).edges().contains_key(t) <==> old(picked).edges().contains_key(t) || (
                self.edges().contains_key(t) && pattern.matches(t)),
            forall|t: Triple| #[trigger]
                final(picked).edges().contains_key(t) ==> *final(picked).edges()[t]
                    == self.edges()[t],
    {
        let hits = self.match_pattern(pattern);
        let mut k: usize = 0;
        while k < hits.len()
            invariant
                self.wf(),
                picked.wf(),
                k <= hits@.len(),
                picked.nodes() == old(picked).nodes(),
                picked.edge_ids().submap_of(self.edge_ids()),
                forall|i: int|
                    0 <= i < hits@.len() ==> {
                        &&& self.edges().contains_key((#[trigger] hits@[i]).0)
                        &&& *hits@[i].1 == self.edges()[hits@[i].0]
                    },
                forall|t: Triple| #[trigger]
                    picked.edges().contains_key(t) <==> old(picked).edges().contains_key(t)
                        || exists|i: int| 0 <= i < k && (#[trigger] hits@[i]).0 == t,
                forall|t: Triple| #[trigger]
                    picked.edges().contains_key(t) ==> *picked.edges()[t] == self.edges()[t],
            decreases hits@.len() - k,
        {
            let triple = hits[k].0;
            let props = hits[k].1;
            let ghost before = *picked;
            match self.edge_id(triple) {
                Some(id) => {
                    proof {
                        if !before.edge_ids().contains_key(triple)
                            && before.edge_props_by_id().contains_key(id) {
                            let other = choose|t: Triple|
                                #![trigger before.edge_ids().contains_key(t)]
                                before.edge_ids().contains_key(t) && before.edge_ids()[t] == id;
                            assert(self.edge_ids().contains_key(other));
                            assert(false);
                        }
                    }
                    picked.insert_edge_with_id(triple, props, id);
                },
                None => {
                    assert(false);
                },
            }
            k += 1;
        }
    }

    /// Answers a query: a store that holds, borrowed from this one, the
    /// properties of the nodes that the query names and the edges that
    /// match one of its patterns, each edge under the identifier it has
    /// here. Every pattern is answered by one run over the index that
    /// serves it.
    pub fn query<'a>(&'a self, query: &Query) -> (r: MemTripleStore<
        &'a NodeProperties,
        &'a EdgeProperties,
    >)
        requires
            self.wf(),
        ensures
            r.wf(),
            is_selection(r.nodes(), self.nodes(), |node: u128| query.selects_node(node)),
            is_selection(r.edges(), self.edges(), |t: Triple| query.selects_edge(t)),
            r.edge_ids().submap_of(self.edge_ids()),
    {
        let mut picked: MemTripleStore<&'a NodeProperties, &'a EdgeProperties> =
            MemTripleStore::new();
        let nodes = query.node_id_count();
        let mut n: usize = 0;
        while n < nodes
            invariant
                self.wf(),
                picked.wf(),
                nodes == query.node_ids().len(),
                n <= nodes,
                picked.edges() == Map::<Triple, &'a EdgeProperties>::empty(),
                picked.edge_ids() == Map::<Triple, u128>::empty(),
                forall|id: u128| #[trigger]
                    picked.nodes().contains_key(id) <==> self.nodes().contains_key(id) && exists|
                        i: int,
                    |
                        0 <= i < n && #[trigger] query.node_ids()[i] == id,
                forall|id: u128| #[trigger]
                    picked.nodes().contains_key(id) ==> *picked.nodes()[id] == self.nodes()[id],
            decreases nodes - n,
        {
            let id = query.node_id_at(n);
            match self.node_props.get(&id) {
                Some(props) => {
                    let _ = picked.insert_node(id, props);
                },
                None => {},
            }
            n += 1;
        }
        let ghost picked_nodes = picked.nodes();
        let patterns = query.pattern_count();
        let mut p: usize = 0;
        while p < patterns
            invariant
                self.wf(),
                picked.wf(),
                patterns == query.patterns().len(),
                p <= patterns,
                picked.nodes() == picked_nodes,
                picked.edge_ids().submap_of(self.edge_ids()),
                forall|t: Triple| #[trigger]
                    picked.edges().contains_key(t) <==> self.edges().contains_key(t) && exists|
                        i: int,
                    |
                        0 <= i < p && (#[trigger] query.patterns()[i]).matches(t),
                forall|t: Triple| #[trigger]
                    picked.edges().contains_key(t) ==> *picked.edges()[t] == self.edges()[t],
            decreases patterns - p,
        {
            let pattern = query.pattern_at(p);
            self.pick_matches(&pattern, &mut picked);
            p += 1;
        }
        picked
    }
}

} // verus!
