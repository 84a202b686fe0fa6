use triplestore::mem::MemTripleStore;
use triplestore::query::{Pattern, Query};
use triplestore::triple::{EdgeOrder, PropsTriple, Triple};

fn s(text: &str) -> String {
    text.to_string()
}

#[test]
fn empty_store_yields_nothing() {
    let store: MemTripleStore<String, String> = MemTripleStore::new();
    assert!(store.vertices().is_empty());
    assert!(store.iter_vertices().is_empty());
    assert!(store.iter_edges(EdgeOrder::SPO).is_empty());
    assert!(store.iter_edges(EdgeOrder::POS).is_empty());
    assert!(store.iter_edges(EdgeOrder::OSP).is_empty());
    assert!(store.iter_edges_with_props(EdgeOrder::SPO).is_empty());
    assert_eq!(store.node_count(), 0);
    assert_eq!(store.edge_count(), 0);
    let queries = vec![
        Query::NodeProperty(vec![1]),
        Query::EdgeProperty(vec![(1, 2, 3)]),
        Query::S(vec![1]),
        Query::P(vec![1]),
        Query::O(vec![1]),
        Query::SP(vec![(1, 2)]),
        Query::PO(vec![(1, 2)]),
        Query::SO(vec![(1, 2)]),
    ];
    for q in queries.iter() {
        let answer = store.query(q);
        assert_eq!(answer.node_count(), 0);
        assert_eq!(answer.edge_count(), 0);
    }
}

#[test]
fn single_edge() {
    let e = 77u128;
    let mut store: MemTripleStore<String, String> = MemTripleStore::new();
    store.insert_node(1, s("a")).expect("success");
    store.insert_node(2, s("b")).expect("success");
    let t = Triple { sub: 1, pred: e, obj: 2 };
    store.insert_edge(t, s("x")).expect("success");
    let x = s("x");
    assert_eq!(store.iter_edges(EdgeOrder::SPO), vec![(t, &x)]);
    assert_eq!(store.iter_edges(EdgeOrder::POS), vec![(t, &x)]);
    assert_eq!(store.iter_edges(EdgeOrder::OSP), vec![(t, &x)]);
    let by_subject = store.query(&Query::S(vec![1]));
    assert_eq!(by_subject.iter_edges(EdgeOrder::SPO), vec![(t, &&x)]);
    let by_object = store.query(&Query::O(vec![2]));
    assert_eq!(by_object.iter_edges(EdgeOrder::SPO), vec![(t, &&x)]);
    let by_predicate = store.query(&Query::P(vec![e]));
    assert_eq!(by_predicate.iter_edges(EdgeOrder::SPO), vec![(t, &&x)]);
    let props = store.query(&Query::EdgeProperty(vec![(1, e, 2)]));
    assert_eq!(props.get_edge(t), Some(&&x));
    assert_eq!(store.query(&Query::S(vec![2])).edge_count(), 0);
    assert_eq!(store.query(&Query::O(vec![1])).edge_count(), 0);
}

#[test]
fn reinsert_overwrites_props() {
    let mut store: MemTripleStore<String, String> = MemTripleStore::new();
    let t = Triple { sub: 1, pred: 9, obj: 2 };
    store.insert_edge(t, s("x")).expect("success");
    let id = store.edge_id(t);
    store.insert_edge(t, s("y")).expect("success");
    let y = s("y");
    assert_eq!(store.iter_edges(EdgeOrder::SPO), vec![(t, &y)]);
    assert_eq!(store.edge_count(), 1);
    assert_eq!(store.edge_id(t), id);
}

#[test]
fn remove_subject_cascades() {
    let e = 9u128;
    let mut store: MemTripleStore<String, String> = MemTripleStore::new();
    store.insert_node(1, s("one")).expect("success");
    store.insert_node(3, s("three")).expect("success");
    store.insert_edge(Triple { sub: 1, pred: e, obj: 2 }, s("p")).expect("success");
    store.insert_edge(Triple { sub: 3, pred: e, obj: 1 }, s("q")).expect("success");
    store.remove_node(1).expect("success");
    assert!(store.iter_edges(EdgeOrder::SPO).is_empty());
    assert!(store.iter_edges(EdgeOrder::POS).is_empty());
    assert!(store.iter_edges(EdgeOrder::OSP).is_empty());
    assert_eq!(store.vertices(), vec![3]);
    assert_eq!(store.get_node(3), Some(&s("three")));
    assert_eq!(store.get_node(1), None);
}

#[test]
fn remove_node_takes_edges_where_it_is_the_predicate() {
    let mut store: MemTripleStore<u8, u8> = MemTripleStore::new();
    let through = Triple { sub: 1, pred: 5, obj: 2 };
    let other = Triple { sub: 1, pred: 6, obj: 2 };
    store.insert_node(5, 0).expect("success");
    store.insert_edge(through, 1).expect("success");
    store.insert_edge(other, 2).expect("success");
    store.remove_node(5).expect("success");
    assert_eq!(store.iter_edges(EdgeOrder::SPO), vec![(other, &2)]);
    assert_eq!(store.iter_edges(EdgeOrder::POS), vec![(other, &2)]);
    assert_eq!(store.iter_edges(EdgeOrder::OSP), vec![(other, &2)]);
    assert!(!store.has_node(5));
}

#[test]
fn remove_edge_clears_all_indexes_and_properties() {
    let mut store: MemTripleStore<u8, u8> = MemTripleStore::new();
    let t = Triple { sub: 1, pred: 2, obj: 3 };
    let u = Triple { sub: 3, pred: 2, obj: 1 };
    store.insert_edge_with_id(t, 10, 100);
    store.insert_edge_with_id(u, 20, 200);
    store.remove_edge(t).expect("success");
    assert_eq!(store.iter_edges(EdgeOrder::SPO), vec![(u, &20)]);
    assert_eq!(store.iter_edges(EdgeOrder::POS), vec![(u, &20)]);
    assert_eq!(store.iter_edges(EdgeOrder::OSP), vec![(u, &20)]);
    assert_eq!(store.get_edge(t), None);
    assert_eq!(store.edge_id(t), None);
    // The identifier is free again.
    let v = Triple { sub: 9, pred: 9, obj: 9 };
    store.insert_edge_with_id(v, 30, 100);
    assert_eq!(store.edge_id(v), Some(100));
    // Removing an edge that is not there changes nothing.
    store.remove_edge(t).expect("success");
    assert_eq!(store.edge_count(), 2);
}

#[test]
fn take_edge_returns_identifier_and_properties() {
    let mut store: MemTripleStore<u8, u8> = MemTripleStore::new();
    let t = Triple { sub: 1, pred: 2, obj: 3 };
    store.insert_edge_with_id(t, 10, 100);
    assert_eq!(store.take_edge(t), Some((100, 10)));
    assert_eq!(store.take_edge(t), None);
    assert_eq!(store.edge_count(), 0);
}

#[test]
fn insert_edge_with_taken_candidate_gets_unused_identifier() {
    let mut store: MemTripleStore<u8, u8> = MemTripleStore::new();
    let t = Triple { sub: 1, pred: 2, obj: 3 };
    let u = Triple { sub: 4, pred: 5, obj: 6 };
    store.insert_edge_with_id(t, 10, 0);
    store.insert_edge_with_id(u, 20, 0);
    assert_eq!(store.edge_id(t), Some(0));
    assert_eq!(store.edge_id(u), Some(1));
    assert_eq!(store.unused_edge_id(), 2);
    assert_eq!(store.get_edge(t), Some(&10));
    assert_eq!(store.get_edge(u), Some(&20));
}

#[test]
fn insert_edge_gives_new_edges_distinct_identifiers() {
    let mut store: MemTripleStore<u8, u8> = MemTripleStore::new();
    let t = Triple { sub: 1, pred: 2, obj: 3 };
    let u = Triple { sub: 4, pred: 5, obj: 6 };
    store.insert_edge(t, 10).expect("success");
    store.insert_edge(u, 20).expect("success");
    assert!(store.edge_id(t).is_some());
    assert_ne!(store.edge_id(t), store.edge_id(u));
}

#[test]
fn dangling_endpoints_are_permitted() {
    let mut store: MemTripleStore<u8, u8> = MemTripleStore::new();
    let t = Triple { sub: 1, pred: 2, obj: 3 };
    store.insert_edge(t, 10).expect("success");
    assert_eq!(store.node_count(), 0);
    assert_eq!(store.iter_edges(EdgeOrder::SPO), vec![(t, &10)]);
    assert_eq!(store.iter_edges_with_props(EdgeOrder::SPO), vec![Err(())]);
}

#[test]
fn batch_inserts_store_in_order() {
    let mut store: MemTripleStore<u8, u8> = MemTripleStore::new();
    store
        .insert_node_batch(vec![(3, 30), (1, 10), (3, 31)])
        .expect("success");
    let t = Triple { sub: 1, pred: 2, obj: 3 };
    let u = Triple { sub: 3, pred: 2, obj: 1 };
    store
        .insert_edge_batch(vec![(t, 1), (u, 2), (t, 3)])
        .expect("success");
    assert_eq!(store.iter_vertices(), vec![(1, &10), (3, &31)]);
    assert_eq!(store.iter_edges(EdgeOrder::SPO), vec![(t, &3), (u, &2)]);
    store.remove_edge_batch(&vec![t, u, t]).expect("success");
    assert_eq!(store.edge_count(), 0);
    assert_eq!(store.vertices(), vec![1, 3]);
}

fn sample() -> MemTripleStore<u8, u8> {
    let mut store: MemTripleStore<u8, u8> = MemTripleStore::new();
    store.insert_node(1, 11).expect("success");
    store.insert_node(2, 12).expect("success");
    store.insert_node(3, 13).expect("success");
    store.insert_edge(Triple { sub: 1, pred: 3, obj: 2 }, 1).expect("success");
    store.insert_edge(Triple { sub: 2, pred: 1, obj: 3 }, 2).expect("success");
    store.insert_edge(Triple { sub: 3, pred: 2, obj: 1 }, 3).expect("success");
    store.insert_edge(Triple { sub: 1, pred: 1, obj: 1 }, 4).expect("success");
    store
}

#[test]
fn iteration_orders() {
    let store = sample();
    let a = Triple { sub: 1, pred: 3, obj: 2 };
    let b = Triple { sub: 2, pred: 1, obj: 3 };
    let c = Triple { sub: 3, pred: 2, obj: 1 };
    let d = Triple { sub: 1, pred: 1, obj: 1 };
    assert_eq!(
        store.iter_edges(EdgeOrder::SPO),
        vec![(d, &4), (a, &1), (b, &2), (c, &3)]
    );
    assert_eq!(
        store.iter_edges(EdgeOrder::POS),
        vec![(d, &4), (b, &2), (c, &3), (a, &1)]
    );
    assert_eq!(
        store.iter_edges(EdgeOrder::OSP),
        vec![(d, &4), (c, &3), (a, &1), (b, &2)]
    );
    assert_eq!(store.triples(), vec![d, a, b, c]);
    let (nodes, edges) = store.iter_nodes(EdgeOrder::POS);
    assert_eq!(nodes, vec![(1, &11), (2, &12), (3, &13)]);
    assert_eq!(edges, store.iter_edges(EdgeOrder::POS));
    assert_eq!(store.vertices(), vec![1, 2, 3]);
}

#[test]
fn consuming_iteration_orders() {
    let a = Triple { sub: 1, pred: 3, obj: 2 };
    let b = Triple { sub: 2, pred: 1, obj: 3 };
    let c = Triple { sub: 3, pred: 2, obj: 1 };
    let d = Triple { sub: 1, pred: 1, obj: 1 };
    assert_eq!(sample().into_iter_vertices(), vec![(1, 11), (2, 12), (3, 13)]);
    assert_eq!(
        sample().into_iter_edges(EdgeOrder::SPO),
        vec![(d, 4), (a, 1), (b, 2), (c, 3)]
    );
    assert_eq!(
        sample().into_iter_edges(EdgeOrder::POS),
        vec![(d, 4), (b, 2), (c, 3), (a, 1)]
    );
    assert_eq!(
        sample().into_iter_edges(EdgeOrder::OSP),
        vec![(d, 4), (c, 3), (a, 1), (b, 2)]
    );
    let (nodes, edges) = sample().into_iter_nodes(EdgeOrder::OSP);
    assert_eq!(nodes, vec![(1, 11), (2, 12), (3, 13)]);
    assert_eq!(edges, vec![(d, 4), (c, 3), (a, 1), (b, 2)]);
}

#[test]
fn decorated_edges_resolve_all_three_components() {
    let mut store = sample();
    store.insert_edge(Triple { sub: 1, pred: 9, obj: 2 }, 5).expect("success");
    let listed = store.iter_edges_with_props(EdgeOrder::SPO);
    assert_eq!(listed.len(), 5);
    assert_eq!(
        listed[0],
        Ok(PropsTriple { sub: (1, &11), pred: (1, &11), obj: (1, &11) })
    );
    assert_eq!(
        listed[1],
        Ok(PropsTriple { sub: (1, &11), pred: (3, &13), obj: (2, &12) })
    );
    assert_eq!(listed[2], Err(()));
    assert_eq!(
        listed[3],
        Ok(PropsTriple { sub: (2, &12), pred: (1, &11), obj: (3, &13) })
    );
    let owned = store.into_iter_edges_with_props(EdgeOrder::SPO);
    assert_eq!(owned.len(), 5);
    assert_eq!(
        owned[1],
        Ok(PropsTriple { sub: (1, 11), pred: (3, 13), obj: (2, 12) })
    );
    assert_eq!(owned[2], Err(()));
}

#[test]
fn three_indexes_list_the_same_edges() {
    let store = sample();
    let mut spo = store.iter_edges(EdgeOrder::SPO);
    let mut pos = store.iter_edges(EdgeOrder::POS);
    let mut osp = store.iter_edges(EdgeOrder::OSP);
    let key = |e: &(Triple, &u8)| (e.0.sub, e.0.pred, e.0.obj);
    spo.sort_by_key(key);
    pos.sort_by_key(key);
    osp.sort_by_key(key);
    assert_eq!(spo, pos);
    assert_eq!(spo, osp);
}

#[test]
fn queries_of_every_shape() {
    let store = sample();
    let a = Triple { sub: 1, pred: 3, obj: 2 };
    let b = Triple { sub: 2, pred: 1, obj: 3 };
    let c = Triple { sub: 3, pred: 2, obj: 1 };
    let d = Triple { sub: 1, pred: 1, obj: 1 };
    let nodes = store.query(&Query::NodeProperty(vec![3, 1, 8]));
    assert_eq!(nodes.iter_vertices(), vec![(1, &&11), (3, &&13)]);
    assert_eq!(nodes.edge_count(), 0);
    let edges = store.query(&Query::EdgeProperty(vec![(2, 1, 3), (9, 9, 9)]));
    assert_eq!(edges.triples(), vec![b]);
    assert_eq!(edges.node_count(), 0);
    assert_eq!(store.query(&Query::S(vec![1])).triples(), vec![d, a]);
    assert_eq!(store.query(&Query::S(vec![3, 1])).triples(), vec![d, a, c]);
    assert_eq!(store.query(&Query::P(vec![1])).triples(), vec![d, b]);
    assert_eq!(store.query(&Query::O(vec![1])).triples(), vec![d, c]);
    assert_eq!(store.query(&Query::SP(vec![(1, 3)])).triples(), vec![a]);
    assert_eq!(store.query(&Query::PO(vec![(1, 1), (2, 1)])).triples(), vec![d, c]);
    assert_eq!(store.query(&Query::SO(vec![(1, 1), (1, 2)])).triples(), vec![d, a]);
    assert_eq!(store.query(&Query::SO(vec![(2, 1)])).triples(), Vec::<Triple>::new());
    let answer = store.query(&Query::O(vec![1]));
    assert_eq!(answer.edge_id(c), store.edge_id(c));
    assert_eq!(answer.get_edge(c), Some(&&3));
}

#[test]
fn pattern_picks_the_covering_index() {
    let p = |sub, pred, obj| Pattern { sub, pred, obj };
    assert_eq!(p(Some(1), None, None).best_order(), EdgeOrder::SPO);
    assert_eq!(p(None, Some(1), None).best_order(), EdgeOrder::POS);
    assert_eq!(p(None, None, Some(1)).best_order(), EdgeOrder::OSP);
    assert_eq!(p(Some(1), Some(1), None).best_order(), EdgeOrder::SPO);
    assert_eq!(p(None, Some(1), Some(1)).best_order(), EdgeOrder::POS);
    assert_eq!(p(Some(1), None, Some(1)).best_order(), EdgeOrder::OSP);
    assert_eq!(p(Some(1), Some(1), Some(1)).best_order(), EdgeOrder::SPO);
    assert_eq!(p(None, None, None).best_order(), EdgeOrder::SPO);
    assert!(p(Some(1), None, Some(1)).is_covered_by(EdgeOrder::OSP));
    assert!(!p(Some(1), None, Some(1)).is_covered_by(EdgeOrder::SPO));
    assert!(!p(Some(1), None, Some(1)).is_covered_by(EdgeOrder::POS));
    assert!(p(None, None, None).is_covered_by(EdgeOrder::POS));
}

#[test]
fn any_covering_index_gives_the_same_edges() {
    let store = sample();
    let full = Pattern { sub: Some(3), pred: Some(2), obj: Some(1) };
    let c = Triple { sub: 3, pred: 2, obj: 1 };
    for order in [EdgeOrder::SPO, EdgeOrder::POS, EdgeOrder::OSP] {
        assert_eq!(store.match_pattern_in(&full, order), vec![(c, &3)]);
    }
    let any = Pattern { sub: None, pred: None, obj: None };
    for order in [EdgeOrder::SPO, EdgeOrder::POS, EdgeOrder::OSP] {
        assert_eq!(store.match_pattern_in(&any, order), store.iter_edges(order));
    }
    let by_object = Pattern { sub: None, pred: None, obj: Some(1) };
    let d = Triple { sub: 1, pred: 1, obj: 1 };
    assert_eq!(store.match_pattern(&by_object), vec![(d, &4), (c, &3)]);
}

#[test]
fn after_insert_every_single_component_query_finds_the_edge() {
    let mut store = sample();
    let t = Triple { sub: 40, pred: 41, obj: 42 };
    store.insert_edge(t, 9).expect("success");
    assert_eq!(store.query(&Query::S(vec![40])).get_edge(t), Some(&&9));
    assert_eq!(store.query(&Query::P(vec![41])).get_edge(t), Some(&&9));
    assert_eq!(store.query(&Query::O(vec![42])).get_edge(t), Some(&&9));
    assert_eq!(
        store.query(&Query::EdgeProperty(vec![(40, 41, 42)])).get_edge(t),
        Some(&&9)
    );
}

#[test]
fn scan_reads_keys_between_bounds() {
    let store = sample();
    let lo = Triple { sub: 1, pred: 2, obj: 0 }.key(EdgeOrder::SPO);
    let hi = Triple { sub: 2, pred: 1, obj: 3 }.key(EdgeOrder::SPO);
    let a = Triple { sub: 1, pred: 3, obj: 2 };
    let b = Triple { sub: 2, pred: 1, obj: 3 };
    assert_eq!(store.scan(EdgeOrder::SPO, &lo, &hi), vec![(a, &1), (b, &2)]);
    assert!(store.scan(EdgeOrder::SPO, &hi, &lo).is_empty());
}

#[test]
fn pop_takes_the_largest() {
    let mut store = sample();
    assert_eq!(store.pop_node(), Some((3, 13)));
    let c = Triple { sub: 3, pred: 2, obj: 1 };
    let id = store.edge_id(c).expect("held");
    assert_eq!(store.pop_edge(), Some((c, id, 3)));
    assert_eq!(store.take_node(1), Some(11));
    assert_eq!(store.take_node(1), None);
    assert_eq!(store.node_count(), 1);
    assert_eq!(store.edge_count(), 3);
    let mut empty: MemTripleStore<u8, u8> = MemTripleStore::new();
    assert_eq!(empty.pop_node(), None);
    assert_eq!(empty.pop_edge(), None);
}

#[test]
fn listings_can_be_read_one_position_at_a_time() {
    let mut store = sample();
    store.insert_edge(Triple { sub: 1, pred: 9, obj: 2 }, 5).expect("success");
    for order in [EdgeOrder::SPO, EdgeOrder::POS, EdgeOrder::OSP] {
        let all = store.iter_edges(order);
        let decorated = store.iter_edges_with_props(order);
        for i in 0..all.len() {
            assert_eq!(store.edge_at(order, i), Some(all[i]));
            assert_eq!(store.edge_with_props_at(order, i).as_ref(), Some(&decorated[i]));
        }
        assert_eq!(store.edge_at(order, all.len()), None);
        assert_eq!(store.edge_with_props_at(order, all.len()), None);
    }
    assert_eq!(store.vertex_at(0), Some((1, &11)));
    assert_eq!(store.vertex_at(2), Some((3, &13)));
    assert_eq!(store.vertex_at(3), None);
    assert_eq!(
        store.edge_at(EdgeOrder::POS, 1),
        Some((Triple { sub: 2, pred: 1, obj: 3 }, &2))
    );
    assert_eq!(store.edge_with_props_at(EdgeOrder::SPO, 2), Some(Err(())));
}

#[test]
fn unused_edge_id_is_the_smallest() {
    let mut store: MemTripleStore<u8, u8> = MemTripleStore::new();
    assert_eq!(store.unused_edge_id(), 0);
    store.insert_edge_with_id(Triple { sub: 1, pred: 1, obj: 1 }, 0, 0);
    store.insert_edge_with_id(Triple { sub: 2, pred: 2, obj: 2 }, 0, 1);
    store.insert_edge_with_id(Triple { sub: 3, pred: 3, obj: 3 }, 0, 3);
    assert_eq!(store.unused_edge_id(), 2);
    store.insert_edge_with_id(Triple { sub: 4, pred: 4, obj: 4 }, 0, 3);
    assert_eq!(store.edge_id(Triple { sub: 4, pred: 4, obj: 4 }), Some(2));
    assert_eq!(store.unused_edge_id(), 4);
}

#[test]
fn query_gives_one_pattern_for_each_value() {
    let p = |sub, pred, obj| Pattern { sub, pred, obj };
    assert_eq!(Query::NodeProperty(vec![1, 2]).to_patterns(), vec![]);
    assert_eq!(Query::NodeProperty(vec![1, 2]).node_id_count(), 2);
    assert_eq!(Query::S(vec![1, 2]).node_id_count(), 0);
    assert_eq!(Query::S(vec![1, 2]).pattern_count(), 2);
    assert_eq!(
        Query::EdgeProperty(vec![(1, 2, 3)]).to_patterns(),
        vec![p(Some(1), Some(2), Some(3))]
    );
    assert_eq!(
        Query::S(vec![1, 2]).to_patterns(),
        vec![p(Some(1), None, None), p(Some(2), None, None)]
    );
    assert_eq!(Query::P(vec![1]).to_patterns(), vec![p(None, Some(1), None)]);
    assert_eq!(Query::O(vec![1]).to_patterns(), vec![p(None, None, Some(1))]);
    assert_eq!(Query::SP(vec![(1, 2)]).to_patterns(), vec![p(Some(1), Some(2), None)]);
    assert_eq!(Query::PO(vec![(1, 2)]).to_patterns(), vec![p(None, Some(1), Some(2))]);
    assert_eq!(Query::SO(vec![(1, 2)]).to_patterns(), vec![p(Some(1), None, Some(2))]);
}
