use triplestore::mem::MemTripleStore;
use triplestore::triple::{EdgeOrder, Triple};
use ulid::Ulid;

#[test]
fn test_extend() {
    let mut left = MemTripleStore::new();
    let mut right = MemTripleStore::new();

    let (node_1, node_props_1) = (Ulid::new().0, "a".to_string());
    let (node_2, node_props_2) = (Ulid::new().0, "b".to_string());
    let (node_3, node_props_3) = (Ulid::new().0, "c".to_string());
    let (node_4, node_props_4) = (node_1, "d".to_string());

    let edge_1 = Ulid::new().0;
    let edge_props_1 = "1".to_string();
    let edge_props_2 = "2".to_string();

    // Construct the left graph to be (1, "a") -("1")-> (2, "b")
    left.insert_node(node_1.clone(), node_props_1.clone())
        .expect("success");
    left.insert_node(node_2.clone(), node_props_2.clone())
        .expect("success");
    left.insert_edge(
        Triple {
            sub: node_1,
            pred: edge_1,
            obj: node_2,
        },
        edge_props_1.clone(),
    )
    .expect("success");

    // Construct the right graph to be (3, "c") -("2")-> (1, "d")
    right
        .insert_node(node_3.clone(), node_props_3.clone())
        .expect("success");
    right
        .insert_node(node_4.clone(), node_props_4.clone())
        .expect("success");
    right
        .insert_edge(
            Triple {
                sub: node_3,
                pred: edge_1,
                obj: node_4,
            },
            edge_props_2.clone(),
        )
        .expect("success");

    // Perform the extension.
    left.extend(right).expect("success");

    // We expect the result to be (3, "c") -("2")-> (1, "d") -("1")-> (2, "b")
    let node_data = left
        .iter_vertices()
        .into_iter()
        .map(|(id, props)| (id, props.clone()))
        .collect::<Vec<_>>();
    assert_eq!(node_data.len(), 3);
    assert!(node_data.contains(&(node_1, node_props_4)));
    assert!(node_data.contains(&(node_2, node_props_2)));
    assert!(node_data.contains(&(node_3, node_props_3)));

    let edge_data = left
        .iter_edges(EdgeOrder::SPO)
        .into_iter()
        .map(|(triple, props)| (triple, props.clone()))
        .collect::<Vec<_>>();
    assert_eq!(edge_data.len(), 2);
    assert!(edge_data.contains(&(
        Triple {
            sub: node_3,
            pred: edge_1,
            obj: node_1
        },
        edge_props_2
    )));
    assert!(edge_data.contains(&(
        Triple {
            sub: node_1,
            pred: edge_1,
            obj: node_2
        },
        edge_props_1
    )));
}

#[test]
fn extend_last_writer_wins() {
    let (n1, n2, n3, e) = (1u128, 2u128, 3u128, 50u128);
    let mut left: MemTripleStore<String, String> = MemTripleStore::new();
    let mut right: MemTripleStore<String, String> = MemTripleStore::new();
    left.insert_node(n1, "a".to_string()).expect("success");
    left.insert_node(n2, "b".to_string()).expect("success");
    left.insert_edge(Triple { sub: n1, pred: e, obj: n2 }, "1".to_string())
        .expect("success");
    right.insert_node(n3, "c".to_string()).expect("success");
    right.insert_node(n1, "d".to_string()).expect("success");
    right
        .insert_edge(Triple { sub: n3, pred: e, obj: n1 }, "2".to_string())
        .expect("success");
    left.extend(right).expect("success");
    let d = "d".to_string();
    let b = "b".to_string();
    let c = "c".to_string();
    assert_eq!(left.iter_vertices(), vec![(n1, &d), (n2, &b), (n3, &c)]);
    let one = "1".to_string();
    let two = "2".to_string();
    assert_eq!(
        left.iter_edges(EdgeOrder::SPO),
        vec![
            (Triple { sub: n1, pred: e, obj: n2 }, &one),
            (Triple { sub: n3, pred: e, obj: n1 }, &two)
        ]
    );
}

#[test]
fn extend_overwrites_properties_of_shared_edge_and_keeps_its_id() {
    let t = Triple { sub: 1, pred: 2, obj: 3 };
    let mut left: MemTripleStore<String, String> = MemTripleStore::new();
    let mut right: MemTripleStore<String, String> = MemTripleStore::new();
    left.insert_edge_with_id(t, "old".to_string(), 10);
    right.insert_edge_with_id(t, "new".to_string(), 20);
    left.extend(right).expect("success");
    assert_eq!(left.edge_id(t), Some(10));
    assert_eq!(left.get_edge(t), Some(&"new".to_string()));
    assert_eq!(left.edge_count(), 1);
}

#[test]
fn extend_installs_the_identifier_of_the_other_store() {
    let t = Triple { sub: 1, pred: 2, obj: 3 };
    let u = Triple { sub: 3, pred: 2, obj: 1 };
    let mut left: MemTripleStore<String, String> = MemTripleStore::new();
    let mut right: MemTripleStore<String, String> = MemTripleStore::new();
    left.insert_edge_with_id(t, "t".to_string(), 10);
    right.insert_edge_with_id(u, "u".to_string(), 20);
    left.extend(right).expect("success");
    assert_eq!(left.edge_id(t), Some(10));
    assert_eq!(left.edge_id(u), Some(20));
}

#[test]
fn extend_gives_a_colliding_identifier_a_free_one() {
    let t = Triple { sub: 1, pred: 2, obj: 3 };
    let u = Triple { sub: 3, pred: 2, obj: 1 };
    let mut left: MemTripleStore<String, String> = MemTripleStore::new();
    let mut right: MemTripleStore<String, String> = MemTripleStore::new();
    left.insert_edge_with_id(t, "t".to_string(), 10);
    right.insert_edge_with_id(u, "u".to_string(), 10);
    left.extend(right).expect("success");
    assert_eq!(left.edge_id(t), Some(10));
    assert_ne!(left.edge_id(u), Some(10));
    assert_eq!(left.get_edge(t), Some(&"t".to_string()));
    assert_eq!(left.get_edge(u), Some(&"u".to_string()));
}

#[test]
fn extend_disjoint_adds_counts() {
    let mut left: MemTripleStore<u8, u8> = MemTripleStore::new();
    let mut right: MemTripleStore<u8, u8> = MemTripleStore::new();
    left.insert_node(1, 1).expect("success");
    left.insert_node(2, 2).expect("success");
    left.insert_edge(Triple { sub: 1, pred: 7, obj: 2 }, 3).expect("success");
    right.insert_node(3, 4).expect("success");
    right.insert_edge(Triple { sub: 3, pred: 7, obj: 3 }, 5).expect("success");
    right.insert_edge(Triple { sub: 3, pred: 8, obj: 3 }, 6).expect("success");
    left.extend(right).expect("success");
    assert_eq!(left.node_count(), 3);
    assert_eq!(left.edge_count(), 3);
}
