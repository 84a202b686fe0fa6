//! Adding nodes and edges to the in-memory store.

use crate::mem::{lemma_by_triple_insert, lemma_link_new, lemma_link_overwrite, MemTripleStore};
use crate::ordered_map::{lemma_entry_in_map, lemma_key_has_position, OrderedKey};
use crate::triple::{EdgeOrder, Triple};
use vstd::prelude::*;

verus! {

/// The map after the entries of the sequence have been stored in it one
/// after the other, each in place of any entry of the same key.
pub open spec fn insert_all<K, V>(m: Map<K, V>, entries: Seq<(K, V)>) -> Map<K, V>
    decreases entries.len(),
{
    if entries.len() == 0 {
        m
    } else {
        insert_all(m, entries.drop_last()).insert(entries.last().0, entries.last().1)
    }
}

/// Calls `ulid::Ulid::new` and hands back the 128 bits of the identifier
/// it made. The identifier is built from the clock and from random bits,
/// so nothing is claimed of its value.
#[verifier::external_body]
fn fresh_id() -> (id: u128) {
    ulid::Ulid::new().0
}

impl<NodeProperties, EdgeProperties> MemTripleStore<NodeProperties, EdgeProperties> {
    /// Stores the properties of a node, in place of any it had.
    pub fn insert_node(&mut self, node: u128, props: NodeProperties) -> (r: Result<(), ()>)
        requires
            old(self).wf(),
        ensures
            r is Ok,
            final(self).wf(),
            final(self).nodes() == old(self).nodes().insert(node, props),
            final(self).edges() == old(self).edges(),
            final(self).edge_ids() == old(self).edge_ids(),
            final(self).edge_props_by_id() == old(self).edge_props_by_id(),
    {
        self.node_props.insert(node, props);
        Ok(())
    }

    /// The smallest identifier under which no edge properties are kept.
    pub fn unused_edge_id(&self) -> (id: u128)
        requires
            self.wf(),
        ensures
            !self.edge_props_by_id().contains_key(id),
            forall|e: u128| e < id ==> #[trigger] self.edge_props_by_id().contains_key(e),
    {
        let slots = self.edge_props.as_slots();
        let mut i: usize = 0;
        while i < slots.len() && slots[i].0 == i as u128
            invariant
                slots@ == self.edge_props.entries(),
                self.edge_props.wf(),
                i <= slots@.len(),
                forall|j: int| 0 <= j < i ==> (#[trigger] slots@[j]).0 == j,
            decreases slots@.len() - i,
        {
            i += 1;
        }
        let id = i as u128;
        proof {
            if self.edge_props@.contains_key(id) {
                let j = lemma_key_has_position(slots@, id);
                if j > i {
                    if i > 0 {
                        assert(slots@[i - 1].0.rank() < slots@[i as int].0.rank());
                    }
                }
            }
            assert forall|e: u128| e < id implies #[trigger] self.edge_props_by_id().contains_key(
                e,
            ) by {
                lemma_entry_in_map(slots@, e as int);
            }
        }
        id
    }

    /// Stores an edge with its properties, in place of any properties it
    /// had. An edge that the store does not hold yet gets `candidate` as
    /// its identifier, or the smallest unused identifier where
    /// `candidate` is taken; an edge that it holds keeps its identifier.
    pub fn insert_edge_with_id(
        &mut self,
        triple: Triple,
        props: EdgeProperties,
        candidate: u128,
    )
        requires
            old(self).wf(),
        ensures
            final(self).wf(),
            final(self).nodes() == old(self).nodes(),
            final(self).edges() == old(self).edges().insert(triple, props),
            final(self).edge_ids().contains_key(triple),
            final(self).edge_props_by_id() == old(self).edge_props_by_id().insert(
                final(self).edge_ids()[triple],
                props,
            ),
            old(self).edge_ids().contains_key(triple) ==> final(self).edge_ids() == old(
                self,
            ).edge_ids(),
            !old(self).edge_ids().contains_key(triple) ==> {
                let id = final(self).edge_ids()[triple];
                &&& final(self).edge_ids() == old(self).edge_ids().insert(triple, id)
                &&& !old(self).edge_props_by_id().contains_key(id)
                &&& !old(self).edge_props_by_id().contains_key(candidate) ==> id == candidate
                &&& old(self).edge_props_by_id().contains_key(candidate) ==> forall|e: u128|
                    e < id ==> #[trigger] old(self).edge_props_by_id().contains_key(e)
            },
    {
        let spo_key = triple.key(EdgeOrder::SPO);
        let held = match self.spo_data.get(&spo_key) {
            Some(id) => Some(*id),
            None => None,
        };
        match held {
            Some(id) => {
                proof {
                    lemma_link_overwrite(self.edge_ids(), self.edge_props_by_id(), triple, props);
                }
                self.edge_props.insert(id, props);
            },
            None => {
                let id = if self.edge_props.contains_key(&candidate) {
                    self.unused_edge_id()
                } else {
                    candidate
                };
                proof {
                    lemma_link_new(self.edge_ids(), self.edge_props_by_id(), triple, id, props);
                    lemma_by_triple_insert(self.spo_data@, EdgeOrder::SPO, triple, id);
                    lemma_by_triple_insert(self.pos_data@, EdgeOrder::POS, triple, id);
                    lemma_by_triple_insert(self.osp_data@, EdgeOrder::OSP, triple, id);
                }
                self.edge_props.insert(id, props);
                self.spo_data.insert(spo_key, id);
                self.pos_data.insert(triple.key(EdgeOrder::POS), id);
                self.osp_data.insert(triple.key(EdgeOrder::OSP), id);
            },
        }
    }

    /// Stores an edge with its properties, in place of any properties it
    /// had. An edge that the store does not hold yet gets a new
    /// identifier.
    pub fn insert_edge(&mut self, triple: Triple, props: EdgeProperties) -> (r: Result<(), ()>)
        requires
            old(self).wf(),
        ensures
            r is Ok,
            final(self).wf(),
            final(self).nodes() == old(self).nodes(),
            final(self).edges() == old(self).edges().insert(triple, props),
    {
        let candidate = fresh_id();
        self.insert_edge_with_id(triple, props, candidate);
        Ok(())
    }
    /// Stores the properties of every node of the list, one after the
    /// other.
    pub fn insert_node_batch(&mut self, nodes: Vec<(u128, NodeProperties)>) -> (r: Result<(), ()>)
        requires
            old(self).wf(),
        ensures
            r is Ok,
            final(self).wf(),
            final(self).nodes() == insert_all(old(self).nodes(), nodes@),
            final(self).edges() == old(self).edges(),
            final(self).edge_ids() == old(self).edge_ids(),
    {
        let ghost all = nodes@;
        for item in it: nodes
            invariant
                self.wf(),
                it.seq() == all,
                self.nodes() == insert_all(old(self).nodes(), all.take(it.index() as int)),
                self.edges() == old(self).edges(),
                self.edge_ids() == old(self).edge_ids(),
        {
            proof {
                assert(all.take(it.index() + 1).drop_last() =~= all.take(it.index() as int));
            }
            let _ = self.insert_node(item.0, item.1);
        }
        assert(all.take(all.len() as int) =~= all);
        Ok(())
    }

    /// Stores every edge of the list with its properties, one after the
    /// other. An edge that the store does not hold yet gets a new
    /// identifier.
    pub fn insert_edge_batch(&mut self, edges: Vec<(Triple, EdgeProperties)>) -> (r: Result<
        (),
        (),
    >)
        requires
            old(self).wf(),
        ensures
            r is Ok,
            final(self).wf(),
            final(self).nodes() == old(self).nodes(),
            final(self).edges() == insert_all(old(self).edges(), edges@),
    {
        let ghost all = edges@;
        for item in it: edges
            invariant
                self.wf(),
                it.seq() == all,
                self.nodes() == old(self).nodes(),
                self.edges() == insert_all(old(self).edges(), all.take(it.index() as int)),
        {
            proof {
                assert(all.take(it.index() + 1).drop_last() =~= all.take(it.index() as int));
            }
            let _ = self.insert_edge(item.0, item.1);
        }
        assert(all.take(all.len() as int) =~= all);
        Ok(())
    }
}

} // verus!
