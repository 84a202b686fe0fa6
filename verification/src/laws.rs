//! Laws that relate the operations of the store to one another, stated
//! over the views that the operations' own contracts use.

use crate::codec::{key_bytes, lemma_key_bytes_sort_as_keys, lemma_key_of_key_bytes};
use crate::persistent::bytes_within;
use crate::mem::query::is_selection;
use crate::mem::remove::without_node;
use crate::mem::scan::key_within;
use crate::mem::MemTripleStore;
use crate::mergeable::{exclusive_maps, intersect_maps, merge_maps, subtract_maps, Mergeable};
use crate::ordered_map::OrderedKey;
use crate::query::{Pattern, Query};
use crate::triple::{EdgeOrder, Triple};
use vstd::map_lib::lemma_disjoint_union_size;
use vstd::prelude::*;

verus! {

/// Whether the query names a component of the triple in one of the
/// shapes that ask for one component, or the triple itself in the shape
/// that asks for edge properties.
pub open spec fn names_part_of(query: Query, t: Triple) -> bool {
    match query {
        Query::S(v) => v@.contains(t.sub),
        Query::P(v) => v@.contains(t.pred),
        Query::O(v) => v@.contains(t.obj),
        Query::EdgeProperty(v) => v@.contains((t.sub, t.pred, t.obj)),
        _ => false,
    }
}

/// After an edge has been inserted, a query for its subject, for its
/// predicate or for its object finds the edge, and a query for the
/// properties of the edge finds the properties that were inserted.
pub proof fn law_inserted_edge_is_found<N, E>(
    before: MemTripleStore<N, E>,
    after: MemTripleStore<N, E>,
    t: Triple,
    props: E,
    query: Query,
    answer: Map<Triple, &E>,
)
    requires
        after.edges() == before.edges().insert(t, props),
        names_part_of(query, t),
        is_selection(answer, after.edges(), |x: Triple| query.selects_edge(x)),
    ensures
        answer.contains_key(t),
        *answer[t] == props,
{
    match query {
        Query::S(v) => {
            let i = choose|i: int| 0 <= i < v@.len() && v@[i] == t.sub;
            assert(query.patterns()[i].matches(t));
        },
        Query::P(v) => {
            let i = choose|i: int| 0 <= i < v@.len() && v@[i] == t.pred;
            assert(query.patterns()[i].matches(t));
        },
        Query::O(v) => {
            let i = choose|i: int| 0 <= i < v@.len() && v@[i] == t.obj;
            assert(query.patterns()[i].matches(t));
        },
        Query::EdgeProperty(v) => {
            let i = choose|i: int| 0 <= i < v@.len() && v@[i] == (t.sub, t.pred, t.obj);
            assert(query.patterns()[i].matches(t));
        },
        _ => {},
    }
    assert(answer.contains_key(t));
}

/// After an edge has been removed, no index lists it, and the identifier
/// it had has no properties any more.
pub proof fn law_removed_edge_is_gone<N, E>(
    before: MemTripleStore<N, E>,
    after: MemTripleStore<N, E>,
    t: Triple,
    order: EdgeOrder,
)
    requires
        before.wf(),
        after.wf(),
        after.edges() == before.edges().remove(t),
        after.edge_props_by_id() == (if before.edge_ids().contains_key(t) {
            before.edge_props_by_id().remove(before.edge_ids()[t])
        } else {
            before.edge_props_by_id()
        }),
    ensures
        !after.edge_listing(order).contains(t),
        !after.edges().contains_key(t),
        before.edge_ids().contains_key(t) ==> !after.edge_props_by_id().contains_key(
            before.edge_ids()[t],
        ),
{
    after.lemma_edge_listing(order);
}

/// After a node has been removed, it has no properties, and no index
/// lists an edge that has it as subject, as predicate or as object.
pub proof fn law_removed_node_is_gone<N, E>(
    before: MemTripleStore<N, E>,
    after: MemTripleStore<N, E>,
    node: u128,
    order: EdgeOrder,
)
    requires
        after.wf(),
        after.nodes() == before.nodes().remove(node),
        after.edges() == without_node(before.edges(), node),
    ensures
        !after.nodes().contains_key(node),
        forall|t: Triple| #[trigger] after.edges().contains_key(t) ==> !t.mentions(node),
        forall|i: int|
            0 <= i < after.edge_listing(order).len() ==> !(#[trigger] after.edge_listing(
                order,
            )[i]).mentions(node),
{
    after.lemma_edge_listing(order);
}

/// The three indexes list the same edges, under the same identifiers and
/// so with the same properties.
pub proof fn law_indexes_agree<N, E>(
    store: MemTripleStore<N, E>,
    first: EdgeOrder,
    second: EdgeOrder,
)
    requires
        store.wf(),
    ensures
        store.edge_listing(first).to_set() == store.edge_listing(second).to_set(),
        store.edge_listing(first).to_set() == store.edges().dom(),
        store.edge_listing(first).len() == store.edge_listing(second).len(),
        store.index(first) == store.index(second),
{
    store.lemma_edge_listing(first);
    store.lemma_edge_listing(second);
}

/// Decoding the key that a triple was encoded to gives the triple back,
/// in each of the three orders.
pub proof fn law_codec_round_trip(t: Triple, order: EdgeOrder)
    ensures
        t.encoded(order).len() == 48,
        Triple::decoded(t.encoded(order), order) == t,
{
    lemma_key_of_key_bytes(t.key_spec(order));
}

/// Extending a store by one that shares no node and no edge with it
/// gives as many nodes, and as many edges, as the two have together.
pub proof fn law_extend_disjoint<N, E>(
    left: MemTripleStore<N, E>,
    right: MemTripleStore<N, E>,
    extended: MemTripleStore<N, E>,
)
    requires
        left.wf(),
        right.wf(),
        left.nodes().dom().disjoint(right.nodes().dom()),
        left.edges().dom().disjoint(right.edges().dom()),
        extended.nodes() == left.nodes().union_prefer_right(right.nodes()),
        extended.edges() == left.edges().union_prefer_right(right.edges()),
    ensures
        extended.nodes().len() == left.nodes().len() + right.nodes().len(),
        extended.edges().len() == left.edges().len() + right.edges().len(),
{
    left.lemma_finite();
    right.lemma_finite();
    lemma_disjoint_union_size(left.nodes(), right.nodes());
    lemma_disjoint_union_size(left.edges(), right.edges());
}

/// The union of a store with an empty store has the nodes and edges of
/// the store, with the properties they have there.
pub proof fn law_union_with_empty<N: Mergeable, E: Mergeable>(
    store: MemTripleStore<N, E>,
    empty: MemTripleStore<N, E>,
    union: MemTripleStore<N, E>,
)
    requires
        empty.nodes() == Map::<u128, N>::empty(),
        empty.edges() == Map::<Triple, E>::empty(),
        union.nodes() == merge_maps(store.nodes(), empty.nodes()),
        union.edges() == merge_maps(store.edges(), empty.edges()),
    ensures
        union.nodes() == store.nodes(),
        union.edges() == store.edges(),
{
}

/// The intersection of a store with itself has the nodes and edges of the
/// store, with the properties they have there, where all properties stay
/// what they are when they absorb themselves.
pub proof fn law_intersection_with_self<N: Mergeable, E: Mergeable>(
    store: MemTripleStore<N, E>,
    intersection: MemTripleStore<N, E>,
)
    requires
        forall|k: u128| #[trigger]
            store.nodes().contains_key(k) ==> store.nodes()[k].merged(store.nodes()[k])
                == store.nodes()[k],
        forall|t: Triple| #[trigger]
            store.edges().contains_key(t) ==> store.edges()[t].merged(store.edges()[t])
                == store.edges()[t],
        intersection.nodes() == intersect_maps(store.nodes(), store.nodes()),
        intersection.edges() == intersect_maps(store.edges(), store.edges()),
    ensures
        intersection.nodes() == store.nodes(),
        intersection.edges() == store.edges(),
{
}

/// The difference of a store and itself is empty.
pub proof fn law_difference_with_self<N, E>(
    store: MemTripleStore<N, E>,
    difference: MemTripleStore<N, E>,
)
    requires
        difference.nodes() == subtract_maps(store.nodes(), store.nodes()),
        difference.edges() == subtract_maps(store.edges(), store.edges()),
    ensures
        difference.nodes() == Map::<u128, N>::empty(),
        difference.edges() == Map::<Triple, E>::empty(),
{
}

/// The symmetric difference of two stores is the union of their two
/// differences.
pub proof fn law_symmetric_difference<N: Mergeable, E: Mergeable>(
    left: MemTripleStore<N, E>,
    right: MemTripleStore<N, E>,
    left_only: MemTripleStore<N, E>,
    right_only: MemTripleStore<N, E>,
    union: MemTripleStore<N, E>,
    symmetric: MemTripleStore<N, E>,
)
    requires
        left_only.nodes() == subtract_maps(left.nodes(), right.nodes()),
        left_only.edges() == subtract_maps(left.edges(), right.edges()),
        right_only.nodes() == subtract_maps(right.nodes(), left.nodes()),
        right_only.edges() == subtract_maps(right.edges(), left.edges()),
        union.nodes() == merge_maps(left_only.nodes(), right_only.nodes()),
        union.edges() == merge_maps(left_only.edges(), right_only.edges()),
        symmetric.nodes() == exclusive_maps(left.nodes(), right.nodes()),
        symmetric.edges() == exclusive_maps(left.edges(), right.edges()),
    ensures
        symmetric.nodes() == union.nodes(),
        symmetric.edges() == union.edges(),
{
}

/// The edges that one run over an index gives for a pattern: those that
/// the index lists with a key between the smallest and the largest key
/// of the pattern.
pub open spec fn index_run<N, E>(
    store: MemTripleStore<N, E>,
    pattern: Pattern,
    order: EdgeOrder,
) -> Set<Triple> {
    Set::new(
        |t: Triple|
            store.edge_listing(order).contains(t) && key_within(
                t,
                order,
                pattern.lowest_key_spec(order),
                pattern.highest_key_spec(order),
            ),
    )
}

/// Every index that covers a pattern gives the same edges for it in one
/// run: the edges of the store that match the pattern.
pub proof fn law_covering_indexes_agree<N, E>(
    store: MemTripleStore<N, E>,
    pattern: Pattern,
    first: EdgeOrder,
    second: EdgeOrder,
)
    requires
        store.wf(),
        pattern.covered_by(first),
        pattern.covered_by(second),
    ensures
        index_run(store, pattern, first) == index_run(store, pattern, second),
        index_run(store, pattern, first) == Set::new(
            |t: Triple| store.edges().contains_key(t) && pattern.matches(t),
        ),
{
    let matching = Set::new(|t: Triple| store.edges().contains_key(t) && pattern.matches(t));
    store.lemma_edge_listing(first);
    store.lemma_edge_listing(second);
    assert forall|t: Triple| index_run(store, pattern, first).contains(t) <==> matching.contains(
        t,
    ) by {
        pattern.lemma_prefix_bounds(first, t);
    }
    assert forall|t: Triple| index_run(store, pattern, second).contains(t) <==> matching.contains(
        t,
    ) by {
        pattern.lemma_prefix_bounds(second, t);
    }
    assert(index_run(store, pattern, first) =~= matching);
}

/// In an index that covers a pattern, the keys that lie in the range of
/// the pattern, compared byte by byte, are the keys of the triples that
/// match the pattern.
pub proof fn law_scan_range_is_exact(pattern: Pattern, order: EdgeOrder, t: Triple)
    requires
        pattern.covered_by(order),
    ensures
        pattern.matches(t) <==> bytes_within(
            t.encoded(order),
            key_bytes(pattern.lowest_key_spec(order)),
            key_bytes(pattern.highest_key_spec(order)),
        ),
{
    let key = t.key_spec(order);
    let lo = pattern.lowest_key_spec(order);
    let hi = pattern.highest_key_spec(order);
    lemma_key_bytes_sort_as_keys(key, lo);
    lemma_key_bytes_sort_as_keys(hi, key);
}

} // verus!
