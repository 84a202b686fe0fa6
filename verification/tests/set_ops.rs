use triplestore::mem::MemTripleStore;
use triplestore::mergeable::Mergeable;
use triplestore::triple::{EdgeOrder, Triple};

#[derive(Debug, Clone, PartialEq, Eq)]
struct Text(String);

impl Mergeable for Text {
    fn merged(self, other: Self) -> Self {
        Text(self.0 + "+" + &other.0)
    }

    fn merge(&mut self, other: Self) {
        self.0.push('+');
        self.0.push_str(&other.0);
    }
}

#[derive(Debug, Clone, PartialEq, Eq)]
struct Max(u8);

impl Mergeable for Max {
    fn merged(self, other: Self) -> Self {
        Max(self.0.max(other.0))
    }

    fn merge(&mut self, other: Self) {
        self.0 = self.0.max(other.0);
    }
}

fn t(text: &str) -> Text {
    Text(text.to_string())
}

const AB: Triple = Triple { sub: 1, pred: 9, obj: 2 };
const BC: Triple = Triple { sub: 2, pred: 9, obj: 3 };
const CA: Triple = Triple { sub: 3, pred: 9, obj: 1 };

fn left() -> MemTripleStore<Text, Text> {
    let mut s = MemTripleStore::new();
    s.insert_node(1, t("l1")).expect("success");
    s.insert_node(2, t("l2")).expect("success");
    s.insert_edge(AB, t("lab")).expect("success");
    s.insert_edge(BC, t("lbc")).expect("success");
    s
}

fn right() -> MemTripleStore<Text, Text> {
    let mut s = MemTripleStore::new();
    s.insert_node(2, t("r2")).expect("success");
    s.insert_node(3, t("r3")).expect("success");
    s.insert_edge(BC, t("rbc")).expect("success");
    s.insert_edge(CA, t("rca")).expect("success");
    s
}

#[test]
fn union_merges_on_collision() {
    let u = left().union(right()).expect("success");
    assert_eq!(
        u.iter_vertices(),
        vec![(1, &t("l1")), (2, &t("l2+r2")), (3, &t("r3"))]
    );
    assert_eq!(
        u.iter_edges(EdgeOrder::SPO),
        vec![(AB, &t("lab")), (BC, &t("lbc+rbc")), (CA, &t("rca"))]
    );
    assert_eq!(u.iter_edges(EdgeOrder::POS).len(), 3);
    assert_eq!(u.iter_edges(EdgeOrder::OSP).len(), 3);
}

#[test]
fn intersection_keeps_common_keys_merged() {
    let i = left().intersection(right()).expect("success");
    assert_eq!(i.iter_vertices(), vec![(2, &t("l2+r2"))]);
    assert_eq!(i.iter_edges(EdgeOrder::SPO), vec![(BC, &t("lbc+rbc"))]);
    assert_eq!(i.iter_edges(EdgeOrder::POS), vec![(BC, &t("lbc+rbc"))]);
    assert_eq!(i.iter_edges(EdgeOrder::OSP), vec![(BC, &t("lbc+rbc"))]);
}

#[test]
fn difference_keeps_left_only_keys() {
    let d = left().difference(right()).expect("success");
    assert_eq!(d.iter_vertices(), vec![(1, &t("l1"))]);
    assert_eq!(d.iter_edges(EdgeOrder::SPO), vec![(AB, &t("lab"))]);
    assert_eq!(d.iter_edges(EdgeOrder::OSP), vec![(AB, &t("lab"))]);
    let e = right().difference(left()).expect("success");
    assert_eq!(e.iter_vertices(), vec![(3, &t("r3"))]);
    assert_eq!(e.iter_edges(EdgeOrder::SPO), vec![(CA, &t("rca"))]);
}

#[test]
fn symmetric_difference_keeps_keys_of_exactly_one_side() {
    let d = left().symmetric_difference(right()).expect("success");
    assert_eq!(d.iter_vertices(), vec![(1, &t("l1")), (3, &t("r3"))]);
    assert_eq!(
        d.iter_edges(EdgeOrder::SPO),
        vec![(AB, &t("lab")), (CA, &t("rca"))]
    );
    assert_eq!(d.iter_edges(EdgeOrder::POS).len(), 2);
}

#[test]
fn symmetric_difference_is_union_of_differences() {
    let direct = left().symmetric_difference(right()).expect("success");
    let one = left().difference(right()).expect("success");
    let other = right().difference(left()).expect("success");
    let built = one.union(other).expect("success");
    assert_eq!(direct.iter_vertices(), built.iter_vertices());
    assert_eq!(
        direct.iter_edges(EdgeOrder::SPO),
        built.iter_edges(EdgeOrder::SPO)
    );
}

#[test]
fn union_with_empty_is_identity() {
    let u = left().union(MemTripleStore::new()).expect("success");
    assert_eq!(u.iter_vertices(), left().iter_vertices());
    assert_eq!(u.iter_edges(EdgeOrder::SPO), left().iter_edges(EdgeOrder::SPO));
    let v = MemTripleStore::new().union(left()).expect("success");
    assert_eq!(v.iter_vertices(), left().iter_vertices());
    assert_eq!(v.iter_edges(EdgeOrder::SPO), left().iter_edges(EdgeOrder::SPO));
}

#[test]
fn difference_with_self_is_empty() {
    let d = left().difference(left()).expect("success");
    assert_eq!(d.node_count(), 0);
    assert_eq!(d.edge_count(), 0);
    assert!(d.iter_edges(EdgeOrder::POS).is_empty());
}

#[test]
fn intersection_with_self_is_identity_for_idempotent_merge() {
    let make = || {
        let mut s: MemTripleStore<Max, Max> = MemTripleStore::new();
        s.insert_node(1, Max(5)).expect("success");
        s.insert_edge(AB, Max(7)).expect("success");
        s
    };
    let i = make().intersection(make()).expect("success");
    assert_eq!(i.iter_vertices(), make().iter_vertices());
    assert_eq!(i.iter_edges(EdgeOrder::SPO), make().iter_edges(EdgeOrder::SPO));
}

#[test]
fn intersection_with_self_merges_each_value_with_itself() {
    let i = left().intersection(left()).expect("success");
    assert_eq!(i.iter_vertices(), vec![(1, &t("l1+l1")), (2, &t("l2+l2"))]);
}

#[test]
fn set_operations_give_collisions_of_identifiers_a_free_one() {
    let mut a: MemTripleStore<Max, Max> = MemTripleStore::new();
    let mut b: MemTripleStore<Max, Max> = MemTripleStore::new();
    a.insert_edge_with_id(AB, Max(1), 7);
    b.insert_edge_with_id(BC, Max(2), 7);
    b.insert_edge_with_id(CA, Max(3), 8);
    let u = a.union(b).expect("success");
    assert_eq!(u.get_edge(AB), Some(&Max(1)));
    assert_eq!(u.get_edge(BC), Some(&Max(2)));
    assert_eq!(u.get_edge(CA), Some(&Max(3)));
    assert_eq!(u.edge_id(AB), Some(7));
    assert_ne!(u.edge_id(BC), Some(7));
    assert_eq!(u.edge_id(CA), Some(8));
    assert_ne!(u.edge_id(BC), u.edge_id(CA));
}

#[test]
fn store_comes_apart_and_together_again() {
    let (nodes, edges) = left().into_maps();
    assert_eq!(nodes.as_slots(), &vec![(1, t("l1")), (2, t("l2"))]);
    assert_eq!(edges.len(), 2);
    assert_eq!(edges.as_slots()[0].0, AB.key(EdgeOrder::SPO));
    assert_eq!(edges.as_slots()[0].1 .1, t("lab"));
    assert_eq!(edges.as_slots()[1].0, BC.key(EdgeOrder::SPO));
    let ids: Vec<u128> = edges.as_slots().iter().map(|e| e.1 .0).collect();
    let again = MemTripleStore::from_maps(nodes, edges);
    assert_eq!(again.iter_vertices(), left().iter_vertices());
    assert_eq!(again.iter_edges(EdgeOrder::SPO), left().iter_edges(EdgeOrder::SPO));
    assert_eq!(again.iter_edges(EdgeOrder::POS), left().iter_edges(EdgeOrder::POS));
    assert_eq!(again.iter_edges(EdgeOrder::OSP), left().iter_edges(EdgeOrder::OSP));
    assert_eq!(again.edge_id(AB), Some(ids[0]));
    assert_eq!(again.edge_id(BC), Some(ids[1]));
}
