//! Extending one in-memory store by another: on a collision the store
//! that is added wins.

use crate::mem::absorb::keep_theirs;
use crate::mem::MemTripleStore;
use crate::triple::Triple;
use vstd::prelude::*;

verus! {

impl<NodeProperties, EdgeProperties> MemTripleStore<NodeProperties, EdgeProperties> {
    /// Adds the nodes and edges of `other`. A node or an edge that both
    /// stores hold gets the properties it has in `other`. An edge that
    /// this store held keeps its identifier. An edge that it did not hold
    /// comes with the identifier it has in `other`, where the two stores
    /// share no identifier; an identifier that is taken here is replaced
    /// by an unused one.
    pub fn extend(&mut self, other: Self) -> (r: Result<(), ()>)
        requires
            old(self).wf(),
            other.wf(),
        ensures
            r is Ok,
            final(self).wf(),
            final(self).nodes() == old(self).nodes().union_prefer_right(other.nodes()),
            final(self).edges() == old(self).edges().union_prefer_right(other.edges()),
            forall|t: Triple| #[trigger]
                old(self).edge_ids().contains_key(t) ==> final(self).edge_ids().contains_key(t)
                    && final(self).edge_ids()[t] == old(self).edge_ids()[t],
            old(self).edge_props_by_id().dom().disjoint(other.edge_props_by_id().dom())
                ==> forall|t: Triple| #[trigger]
                other.edge_ids().contains_key(t) && !old(self).edge_ids().contains_key(t)
                    ==> final(self).edge_ids().contains_key(t) && final(self).edge_ids()[t]
                    == other.edge_ids()[t],
    {
        self.absorb(other, keep_theirs::<NodeProperties>, keep_theirs::<EdgeProperties>);
        Ok(())
    }
}

} // verus!
