//! Reading the indexes of the in-memory store in key order.

use crate::mem::{by_triple, MemTripleStore};
use crate::ordered_map::{lemma_key_has_position, OrderedKey, SortedMap};
use crate::triple::{EdgeOrder, IndexKey, Triple};
use vstd::prelude::*;

verus! {

/// The triples of the sequence come in strictly increasing key order of
/// the given index, so none comes twice.
pub open spec fn listed_in_order<P>(s: Seq<(Triple, P)>, order: EdgeOrder) -> bool {
    forall|i: int, j: int|
        #![trigger s[i], s[j]]
        0 <= i < j < s.len() ==> s[i].0.key_spec(order).rank() < s[j].0.key_spec(order).rank()
}

/// Whether the key of the triple in the given index lies between `lo`
/// and `hi`, both included.
pub open spec fn key_within(t: Triple, order: EdgeOrder, lo: IndexKey, hi: IndexKey) -> bool {
    lo.rank() <= t.key_spec(order).rank() <= hi.rank()
}

impl<NodeProperties, EdgeProperties> MemTripleStore<NodeProperties, EdgeProperties> {
    /// The entries of the index of the given order.
    pub open(crate) spec fn index_entries(&self, order: EdgeOrder) -> Seq<(IndexKey, u128)> {
        match order {
            EdgeOrder::SPO => self.spo_data.entries(),
            EdgeOrder::POS => self.pos_data.entries(),
            EdgeOrder::OSP => self.osp_data.entries(),
        }
    }

    /// The edges of the store as the index of the given order lists
    /// them.
    pub open(crate) spec fn edge_listing(&self, order: EdgeOrder) -> Seq<Triple> {
        Seq::new(
            self.index_entries(order).len(),
            |i: int| self.index_entries(order)[i].0.triple_spec(order),
        )
    }

    /// The nodes that have properties, in increasing order.
    pub open(crate) spec fn node_listing(&self) -> Seq<u128> {
        Seq::new(self.node_props.entries().len(), |i: int| self.node_props.entries()[i].0)
    }

    /// Each index lists every edge of the store once, in strictly
    /// increasing order of its keys.
    pub proof fn lemma_edge_listing(&self, order: EdgeOrder)
        requires
            self.wf(),
        ensures
            self.edges().dom().finite(),
            self.edge_listing(order).len() == self.edges().len(),
            forall|i: int, j: int|
                #![trigger self.edge_listing(order)[i], self.edge_listing(order)[j]]
                0 <= i < j < self.edge_listing(order).len() ==> self.edge_listing(
                    order,
                )[i].key_spec(order).rank() < self.edge_listing(order)[j].key_spec(order).rank(),
            forall|i: int|
                0 <= i < self.edge_listing(order).len() ==> self.edges().contains_key(
                    #[trigger] self.edge_listing(order)[i],
                ),
            forall|t: Triple| #[trigger]
                self.edges().contains_key(t) ==> self.edge_listing(order).contains(t),
    {
        self.lemma_counts();
        let slots = self.index_entries(order);
        let listing = self.edge_listing(order);
        assert forall|t: Triple| #[trigger] self.edges().contains_key(t) implies listing.contains(
            t,
        ) by {
            let p = lemma_key_has_position(slots, t.key_spec(order));
            assert(listing[p] == t);
        }
    }

    /// The nodes that have properties are listed once each, in strictly
    /// increasing order.
    pub proof fn lemma_node_listing(&self)
        requires
            self.wf(),
        ensures
            self.nodes().dom().finite(),
            self.node_listing().len() == self.nodes().len(),
            forall|i: int, j: int|
                #![trigger self.node_listing()[i], self.node_listing()[j]]
                0 <= i < j < self.node_listing().len() ==> self.node_listing()[i]
                    < self.node_listing()[j],
            forall|i: int|
                0 <= i < self.node_listing().len() ==> self.nodes().contains_key(
                    #[trigger] self.node_listing()[i],
                ),
            forall|k: u128| #[trigger]
                self.nodes().contains_key(k) ==> self.node_listing().contains(k),
    {
        self.lemma_counts();
        let slots = self.node_props.entries();
        let listing = self.node_listing();
        assert forall|k: u128| #[trigger] self.nodes().contains_key(k) implies listing.contains(
            k,
        ) by {
            let p = lemma_key_has_position(slots, k);
            assert(listing[p] == k);
        }
    }

    /// The index of the given order.
    pub(crate) fn index_map(&self, order: EdgeOrder) -> (m: &SortedMap<IndexKey, u128>)
        requires
            self.wf(),
        ensures
            m.wf(),
            m.entries() == self.index_entries(order),
            by_triple(m@, order) == self.edge_ids(),
    {
        match order {
            EdgeOrder::SPO => &self.spo_data,
            EdgeOrder::POS => &self.pos_data,
            EdgeOrder::OSP => &self.osp_data,
        }
    }

    /// The edges at the positions from `start` up to, not including,
    /// `end` of the index of the given order, with their properties.
    pub(crate) fn run(&self, order: EdgeOrder, start: usize, end: usize) -> (r: Vec<
        (Triple, &EdgeProperties),
    >)
        requires
            self.wf(),
            start <= end <= self.edge_listing(order).len(),
        ensures
            r@.len() == end - start,
            forall|i: int|
                0 <= i < r@.len() ==> {
                    &&& (#[trigger] r@[i]).0 == self.edge_listing(order)[start + i]
                    &&& self.edges().contains_key(r@[i].0)
                    &&& *r@[i].1 == self.edges()[r@[i].0]
                },
    {
        let index = self.index_map(order);
        let slots = index.as_slots();
        let mut r: Vec<(Triple, &EdgeProperties)> = Vec::new();
        let mut j: usize = start;
        while j < end
            invariant
                self.wf(),
                index.wf(),
                slots@ == index.entries(),
                slots@ == self.index_entries(order),
                by_triple(index@, order) == self.edge_ids(),
                start <= j <= end <= slots@.len(),
                r@.len() == j - start,
                forall|i: int|
                    0 <= i < r@.len() ==> {
                        &&& (#[trigger] r@[i]).0 == self.edge_listing(order)[start + i]
                        &&& self.edges().contains_key(r@[i].0)
                        &&& *r@[i].1 == self.edges()[r@[i].0]
                    },
            decreases end - j,
        {
            let key = slots[j].0;
            let id = slots[j].1;
            let triple = key.triple(order);
            proof {
                assert(self.edge_ids().contains_key(triple) && self.edge_ids()[triple] == id);
            }
            match self.edge_props.get(&id) {
                Some(props) => {
                    r.push((triple, props));
                },
                None => {
                    assert(false);
                },
            }
            j += 1;
        }
        r
    }

    /// The edges whose key in the index of the given order lies between
    /// `lo` and `hi`, both included, with their properties, in the order
    /// of that index. The edges are read from that index in one run.
    pub fn scan(&self, order: EdgeOrder, lo: &IndexKey, hi: &IndexKey) -> (r: Vec<
        (Triple, &EdgeProperties),
    >)
        requires
            self.wf(),
        ensures
            listed_in_order(r@, order),
            forall|i: int|
                0 <= i < r@.len() ==> {
                    &&& self.edges().contains_key((#[trigger] r@[i]).0)
                    &&& *r@[i].1 == self.edges()[r@[i].0]
                    &&& key_within(r@[i].0, order, *lo, *hi)
                },
            forall|t: Triple|
                #![trigger self.edges().contains_key(t)]
                self.edges().contains_key(t) && key_within(t, order, *lo, *hi) ==> exists|i: int|
                    0 <= i < r@.len() && (#[trigger] r@[i]).0 == t,
    {
        let index = self.index_map(order);
        let (start, end) = index.range_bounds(lo, hi);
        let r = self.run(order, start, end);
        proof {
            let slots = self.index_entries(order);
            let listing = self.edge_listing(order);
            assert forall|t: Triple|
                #![trigger self.edges().contains_key(t)]
                self.edges().contains_key(t) && key_within(t, order, *lo, *hi) implies exists|
                i: int,
            |
                0 <= i < r@.len() && (#[trigger] r@[i]).0 == t by {
                let p = lemma_key_has_position(slots, t.key_spec(order));
                assert(r@[p - start].0 == listing[start + (p - start)]);
            }
        }
        r
    }
}

} // verus!
