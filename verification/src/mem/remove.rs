//! Taking nodes and edges out of the in-memory store.

use crate::mem::{lemma_by_triple_remove, lemma_link_remove, MemTripleStore};
use crate::ordered_map::OrderedKey;
use crate::query::Pattern;
use crate::triple::{EdgeOrder, Triple};
use vstd::prelude::*;

verus! {

/// The edges that do not have `node` as subject, predicate or object.
pub open spec fn without_node<P>(edges: Map<Triple, P>, node: u128) -> Map<Triple, P> {
    Map::new(|t: Triple| edges.contains_key(t) && !t.mentions(node), |t: Triple| edges[t])
}

/// A sequence with one more element holds that element and what it held
/// before.
pub proof fn lemma_push_contains<T>(s: Seq<T>, x: T, y: T)
    ensures
        s.push(x).contains(y) <==> s.contains(y) || y == x,
{
    if s.contains(y) {
        let i = choose|i: int| 0 <= i < s.len() && s[i] == y;
        assert(s.push(x)[i] == y);
    }
    if y == x {
        assert(s.push(x)[s.len() as int] == y);
    }
}

impl<NodeProperties, EdgeProperties> MemTripleStore<NodeProperties, EdgeProperties> {
    /// Takes an edge out of the store and returns its identifier and its
    /// properties, if the store holds it.
    pub fn take_edge(&mut self, triple: Triple) -> (r: Option<(u128, EdgeProperties)>)
        requires
            old(self).wf(),
        ensures
            final(self).wf(),
            final(self).nodes() == old(self).nodes(),
            final(self).edges() == old(self).edges().remove(triple),
            final(self).edge_ids() == old(self).edge_ids().remove(triple),
            match r {
                Some((id, props)) => {
                    &&& old(self).edges().contains_key(triple)
                    &&& id == old(self).edge_ids()[triple]
                    &&& props == old(self).edges()[triple]
                    &&& final(self).edge_props_by_id() == old(self).edge_props_by_id().remove(id)
                },
                None => {
                    &&& !old(self).edges().contains_key(triple)
                    &&& final(self).edge_props_by_id() == old(self).edge_props_by_id()
                },
            },
    {
        let spo_key = triple.key(EdgeOrder::SPO);
        match self.spo_data.remove(&spo_key) {
            Some(id) => {
                assert(old(self).edge_ids().contains_key(triple) && old(self).edge_ids()[triple]
                    == id);
                proof {
                    lemma_link_remove(
                        old(self).edge_ids(),
                        old(self).edge_props_by_id(),
                        triple,
                    );
                    lemma_by_triple_remove(old(self).spo_data@, EdgeOrder::SPO, triple);
                    lemma_by_triple_remove(old(self).pos_data@, EdgeOrder::POS, triple);
                    lemma_by_triple_remove(old(self).osp_data@, EdgeOrder::OSP, triple);
                }
                self.pos_data.remove(&triple.key(EdgeOrder::POS));
                self.osp_data.remove(&triple.key(EdgeOrder::OSP));
                match self.edge_props.remove(&id) {
                    Some(props) => Some((id, props)),
                    None => {
                        assert(false);
                        None
                    },
                }
            },
            None => {
                proof {
                    assert(self.spo_data@ =~= old(self).spo_data@);
                }
                None
            },
        }
    }

    /// Takes an edge out of the store, with its properties. Nothing
    /// changes where the store does not hold the edge.
    pub fn remove_edge(&mut self, triple: Triple) -> (r: Result<(), ()>)
        requires
            old(self).wf(),
        ensures
            r is Ok,
            final(self).wf(),
            final(self).nodes() == old(self).nodes(),
            final(self).edges() == old(self).edges().remove(triple),
            final(self).edge_ids() == old(self).edge_ids().remove(triple),
            final(self).edge_props_by_id() == (if old(self).edge_ids().contains_key(triple) {
                old(self).edge_props_by_id().remove(old(self).edge_ids()[triple])
            } else {
                old(self).edge_props_by_id()
            }),
    {
        let _ = self.take_edge(triple);
        Ok(())
    }

    /// Takes every edge of the list out of the store.
    pub fn remove_edge_batch(&mut self, triples: &Vec<Triple>) -> (r: Result<(), ()>)
        requires
            old(self).wf(),
        ensures
            r is Ok,
            final(self).wf(),
            final(self).nodes() == old(self).nodes(),
            final(self).edges() == old(self).edges().remove_keys(triples@.to_set()),
    {
        let mut k: usize = 0;
        while k < triples.len()
            invariant
                self.wf(),
                k <= triples@.len(),
                self.nodes() == old(self).nodes(),
                self.edges() == old(self).edges().remove_keys(triples@.take(k as int).to_set()),
            decreases triples@.len() - k,
        {
            let _ = self.take_edge(triples[k]);
            proof {
                let done = triples@.take(k as int);
                let next = triples@.take(k + 1);
                assert forall|t: Triple| next.to_set().contains(t) <==> (done.to_set().contains(t)
                    || t == triples@[k as int]) by {
                    if t == triples@[k as int] {
                        assert(next[k as int] == t);
                    }
                }
            }
            k += 1;
        }
        assert(triples@.take(k as int) == triples@);
        Ok(())
    }

    /// The edges that match the pattern, added to `found`.
    fn collect_matches(&self, pattern: &Pattern, found: &mut Vec<Triple>)
        requires
            self.wf(),
        ensures
            forall|t: Triple|
                final(found)@.contains(t) <==> (old(found)@.contains(t) || (
                self.edges().contains_key(t) && pattern.matches(t))),
    {
        let hits = self.match_pattern(pattern);
        let mut k: usize = 0;
        while k < hits.len()
            invariant
                k <= hits@.len(),
                forall|t: Triple|
                    found@.contains(t) <==> (old(found)@.contains(t) || exists|i: int|
                        0 <= i < k && (#[trigger] hits@[i]).0 == t),
            decreases hits@.len() - k,
        {
            let ghost before = found@;
            found.push(hits[k].0);
            proof {
                assert forall|t: Triple|
                    found@.contains(t) <==> (old(found)@.contains(t) || exists|i: int|
                        0 <= i < k + 1 && (#[trigger] hits@[i]).0 == t) by {
                    lemma_push_contains(before, hits@[k as int].0, t);
                }
            }
            k += 1;
        }
    }

    /// Takes a node out of the store: its properties, and every edge that
    /// has it as subject, as predicate or as object. The edges are found
    /// by one run over each index: those that begin with the node in the
    /// SPO index, in the POS index and in the OSP index.
    pub fn remove_node(&mut self, node: u128) -> (r: Result<(), ()>)
        requires
            old(self).wf(),
        ensures
            r is Ok,
            final(self).wf(),
            final(self).nodes() == old(self).nodes().remove(node),
            final(self).edges() == without_node(old(self).edges(), node),
    {
        let _ = self.node_props.remove(&node);
        let as_subject = Pattern { sub: Some(node), pred: None, obj: None };
        let as_predicate = Pattern { sub: None, pred: Some(node), obj: None };
        let as_object = Pattern { sub: None, pred: None, obj: Some(node) };
        let mut incident: Vec<Triple> = Vec::new();
        self.collect_matches(&as_subject, &mut incident);
        self.collect_matches(&as_predicate, &mut incident);
        self.collect_matches(&as_object, &mut incident);
        let _ = self.remove_edge_batch(&incident);
        proof {
            assert forall|t: Triple| incident@.to_set().contains(t) <==> (
            old(self).edges().contains_key(t) && t.mentions(node)) by {
                assert(as_subject.matches(t) <==> t.sub == node);
                assert(as_predicate.matches(t) <==> t.pred == node);
                assert(as_object.matches(t) <==> t.obj == node);
            }
        }
        Ok(())
    }

    /// Takes the properties of a node out of the store and returns them,
    /// if the node has any. The edges stay as they are.
    pub fn take_node(&mut self, node: u128) -> (r: Option<NodeProperties>)
        requires
            old(self).wf(),
        ensures
            final(self).wf(),
            final(self).nodes() == old(self).nodes().remove(node),
            final(self).edges() == old(self).edges(),
            final(self).edge_ids() == old(self).edge_ids(),
            final(self).edge_props_by_id() == old(self).edge_props_by_id(),
            r == (if old(self).nodes().contains_key(node) {
                Some(old(self).nodes()[node])
            } else {
                None
            }),
    {
        self.node_props.remove(&node)
    }

    /// Takes the node with the largest identifier among those that have
    /// properties out of the store, and returns it with its properties.
    /// The edges stay as they are.
    pub fn pop_node(&mut self) -> (r: Option<(u128, NodeProperties)>)
        requires
            old(self).wf(),
        ensures
            final(self).wf(),
            final(self).edges() == old(self).edges(),
            final(self).edge_ids() == old(self).edge_ids(),
            final(self).edge_props_by_id() == old(self).edge_props_by_id(),
            match r {
                Some((node, props)) => {
                    &&& old(self).nodes().contains_key(node)
                    &&& old(self).nodes()[node] == props
                    &&& final(self).nodes() == old(self).nodes().remove(node)
                    &&& forall|x: u128| #[trigger] old(self).nodes().contains_key(x) ==> x <= node
                },
                None => {
                    &&& old(self).nodes() == Map::<u128, NodeProperties>::empty()
                    &&& final(self).nodes() == old(self).nodes()
                },
            },
    {
        let r = self.node_props.pop_last();
        r
    }

    /// Takes the edge that comes last in the SPO index out of the store,
    /// and returns it with its identifier and its properties.
    pub fn pop_edge(&mut self) -> (r: Option<(Triple, u128, EdgeProperties)>)
        requires
            old(self).wf(),
        ensures
            final(self).wf(),
            final(self).nodes() == old(self).nodes(),
            match r {
                Some((triple, id, props)) => {
                    &&& old(self).edges().contains_key(triple)
                    &&& old(self).edges()[triple] == props
                    &&& old(self).edge_ids()[triple] == id
                    &&& final(self).edges() == old(self).edges().remove(triple)
                    &&& final(self).edge_ids() == old(self).edge_ids().remove(triple)
                    &&& final(self).edge_props_by_id() == old(self).edge_props_by_id().remove(id)
                    &&& forall|t: Triple| #[trigger]
                        old(self).edges().contains_key(t) ==> t.key_spec(EdgeOrder::SPO).rank()
                            <= triple.key_spec(EdgeOrder::SPO).rank()
                },
                None => {
                    &&& old(self).edges() == Map::<Triple, EdgeProperties>::empty()
                    &&& final(self).edges() == old(self).edges()
                    &&& final(self).edge_ids() == old(self).edge_ids()
                    &&& final(self).edge_props_by_id() == old(self).edge_props_by_id()
                },
            },
    {
        match self.spo_data.last_key() {
            Some(key) => {
                let triple = key.triple(EdgeOrder::SPO);
                match self.take_edge(triple) {
                    Some((id, props)) => Some((triple, id, props)),
                    None => {
                        assert(false);
                        None
                    },
                }
            },
            None => {
                None
            },
        }
    }
}

} // verus!
