use triplestore::mergeable::Mergeable;
use triplestore::ordered_map::join::{
    combine, join, settle_difference, settle_intersection, settle_symmetric_difference,
    settle_union, Joined,
};
use triplestore::ordered_map::{OrderedKey, SortedMap};
use triplestore::triple::IndexKey;

#[test]
fn insert_get_remove() {
    let mut m: SortedMap<u128, &str> = SortedMap::new();
    assert_eq!(m.len(), 0);
    m.insert(5, "five");
    m.insert(1, "one");
    m.insert(9, "nine");
    m.insert(5, "FIVE");
    assert_eq!(m.len(), 3);
    assert_eq!(m.get(&5), Some(&"FIVE"));
    assert_eq!(m.get(&2), None);
    assert!(m.contains_key(&9));
    assert!(!m.contains_key(&0));
    assert_eq!(m.as_slots(), &vec![(1, "one"), (5, "FIVE"), (9, "nine")]);
    assert_eq!(m.remove(&5), Some("FIVE"));
    assert_eq!(m.remove(&5), None);
    assert_eq!(m.last_key(), Some(9));
    assert_eq!(m.pop_last(), Some((9, "nine")));
    assert_eq!(m.into_slots(), vec![(1, "one")]);
    let mut empty: SortedMap<u128, u8> = SortedMap::new();
    assert_eq!(empty.pop_last(), None);
    assert_eq!(empty.last_key(), None);
}

#[test]
fn bounds_and_ranges() {
    let mut m: SortedMap<u128, u8> = SortedMap::new();
    for k in [10u128, 20, 30, 40] {
        m.insert(k, 0);
    }
    assert_eq!(m.lower_bound(&5), 0);
    assert_eq!(m.lower_bound(&10), 0);
    assert_eq!(m.lower_bound(&11), 1);
    assert_eq!(m.lower_bound(&40), 3);
    assert_eq!(m.lower_bound(&41), 4);
    assert_eq!(m.upper_bound(&5), 0);
    assert_eq!(m.upper_bound(&10), 1);
    assert_eq!(m.upper_bound(&40), 4);
    assert_eq!(m.range_bounds(&10, &30), (0, 3));
    assert_eq!(m.range_bounds(&11, &29), (1, 2));
    assert_eq!(m.range_bounds(&21, &29), (2, 2));
    assert_eq!(m.range_bounds(&30, &10), (2, 2));
    assert_eq!(m.range_bounds(&0, &u128::MAX), (0, 4));
}

#[test]
fn index_keys_sort_by_components() {
    let k = |first, second, third| IndexKey { first, second, third };
    assert!(k(1, 9, 9).precedes(&k(2, 0, 0)));
    assert!(k(1, 1, 9).precedes(&k(1, 2, 0)));
    assert!(k(1, 1, 1).precedes(&k(1, 1, 2)));
    assert!(!k(1, 1, 1).precedes(&k(1, 1, 1)));
    assert!(!k(2, 0, 0).precedes(&k(1, 9, 9)));
    assert!(3u128.precedes(&4));
    assert!(!4u128.precedes(&4));
}

#[derive(Debug, Clone, PartialEq, Eq)]
struct Sum(u32);

impl Mergeable for Sum {
    fn merged(self, other: Self) -> Self {
        Sum(self.0 + other.0)
    }

    fn merge(&mut self, other: Self) {
        self.0 += other.0;
    }
}

fn map_of(entries: &[(u128, u32)]) -> SortedMap<u128, Sum> {
    let mut m = SortedMap::new();
    for (k, v) in entries {
        m.insert(*k, Sum(*v));
    }
    m
}

#[test]
fn push_last_appends() {
    let mut m: SortedMap<u128, u8> = SortedMap::new();
    m.push_last(1, 10);
    m.push_last(5, 50);
    assert_eq!(m.as_slots(), &vec![(1, 10), (5, 50)]);
    assert_eq!(m.get(&5), Some(&50));
}

#[test]
fn walk_lists_every_key_once_from_the_largest_down() {
    let a = map_of(&[(1, 10), (3, 30), (5, 50)]);
    let b = map_of(&[(2, 2), (3, 3), (7, 7)]);
    assert_eq!(
        join(a, b),
        vec![
            (7, Joined::Right(Sum(7))),
            (5, Joined::Left(Sum(50))),
            (3, Joined::Both(Sum(30), Sum(3))),
            (2, Joined::Right(Sum(2))),
            (1, Joined::Left(Sum(10))),
        ]
    );
    assert_eq!(join(map_of(&[]), map_of(&[])), vec![]);
    assert_eq!(join(map_of(&[(4, 4)]), map_of(&[])), vec![(4, Joined::Left(Sum(4)))]);
    assert_eq!(join(map_of(&[]), map_of(&[(4, 4)])), vec![(4, Joined::Right(Sum(4)))]);
}

#[test]
fn decisions_for_one_key() {
    let left = || Joined::Left(Sum(1));
    let right = || Joined::Right(Sum(2));
    let both = || Joined::Both(Sum(1), Sum(2));
    assert_eq!(settle_union(left()), Some(Sum(1)));
    assert_eq!(settle_union(right()), Some(Sum(2)));
    assert_eq!(settle_union(both()), Some(Sum(3)));
    assert_eq!(settle_intersection(left()), None);
    assert_eq!(settle_intersection(right()), None);
    assert_eq!(settle_intersection(both()), Some(Sum(3)));
    assert_eq!(settle_difference(left()), Some(Sum(1)));
    assert_eq!(settle_difference(right()), None);
    assert_eq!(settle_difference(both()), None);
    assert_eq!(settle_symmetric_difference(left()), Some(Sum(1)));
    assert_eq!(settle_symmetric_difference(right()), Some(Sum(2)));
    assert_eq!(settle_symmetric_difference(both()), None);
}

#[test]
fn maps_combine_key_by_key() {
    let a = || map_of(&[(1, 10), (3, 30), (5, 50)]);
    let b = || map_of(&[(2, 2), (3, 3), (7, 7)]);
    let pairs = |m: SortedMap<u128, Sum>| -> Vec<(u128, u32)> {
        m.into_slots().into_iter().map(|(k, v)| (k, v.0)).collect()
    };
    assert_eq!(
        pairs(a().union_with(b())),
        vec![(1, 10), (2, 2), (3, 33), (5, 50), (7, 7)]
    );
    assert_eq!(pairs(a().intersect_with(b())), vec![(3, 33)]);
    assert_eq!(pairs(a().subtract(b())), vec![(1, 10), (5, 50)]);
    assert_eq!(pairs(b().subtract(a())), vec![(2, 2), (7, 7)]);
    assert_eq!(
        pairs(a().exclusive_with(b())),
        vec![(1, 10), (2, 2), (5, 50), (7, 7)]
    );
    assert_eq!(pairs(combine(a(), b(), settle_union::<Sum>)), pairs(a().union_with(b())));
    assert_eq!(pairs(a().union_with(map_of(&[]))), pairs(a()));
    assert_eq!(pairs(a().subtract(a())), vec![]);
}
