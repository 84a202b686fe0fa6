//! Walking two ordered maps side by side.
//!
//! The walk goes through the keys of both maps in order, one step for
//! each key, and says of each key whether the first map holds it, the
//! second, or both. Every operation that combines two maps key by key is
//! one such walk followed by a decision for each key.

use crate::mergeable::{exclusive_maps, intersect_maps, merge_maps, subtract_maps, Mergeable};
use crate::ordered_map::{OrderedKey, SortedMap};
use vstd::prelude::*;

verus! {

/// What a walk over two maps found under one key.
#[derive(Debug, PartialEq, Eq)]
pub enum Joined<V> {
    /// Only the first map holds the key, with this value.
    Left(V),
    /// Only the second map holds the key, with this value.
    Right(V),
    /// Both maps hold the key, with these values.
    Both(V, V),
}

/// What two maps hold under a key that at least one of them holds.
pub open spec fn joined_at<K, V>(left: Map<K, V>, right: Map<K, V>, k: K) -> Joined<V> {
    if left.contains_key(k) && right.contains_key(k) {
        Joined::Both(left[k], right[k])
    } else if left.contains_key(k) {
        Joined::Left(left[k])
    } else {
        Joined::Right(right[k])
    }
}

/// The entries are in strictly decreasing key order.
pub open spec fn descending<K: OrderedKey, T>(s: Seq<(K, T)>) -> bool {
    forall|i: int, j: int|
        #![trigger s[i], s[j]]
        0 <= i < j < s.len() ==> s[i].0.rank() > s[j].0.rank()
}

/// Walks two maps side by side from their largest keys down. The result
/// lists every key that one of the maps holds once, in decreasing order,
/// with what the two maps hold under it.
pub fn join<K: OrderedKey, V>(left: SortedMap<K, V>, right: SortedMap<K, V>) -> (r: Vec<
    (K, Joined<V>),
>)
    requires
        left.wf(),
        right.wf(),
    ensures
        descending(r@),
        forall|i: int|
            0 <= i < r@.len() ==> {
                &&& left@.contains_key((#[trigger] r@[i]).0) || right@.contains_key(r@[i].0)
                &&& r@[i].1 == joined_at(left@, right@, r@[i].0)
            },
        forall|k: K|
            left@.contains_key(k) || right@.contains_key(k) ==> exists|i: int|
                0 <= i < r@.len() && (#[trigger] r@[i]).0 == k,
{
    let mut a = left;
    let mut b = right;
    let mut out: Vec<(K, Joined<V>)> = Vec::new();
    loop
        invariant
            a.wf(),
            b.wf(),
            forall|k: K|
                #[trigger] a@.contains_key(k) ==> left@.contains_key(k) && a@[k] == left@[k],
            forall|k: K|
                #[trigger] b@.contains_key(k) ==> right@.contains_key(k) && b@[k] == right@[k],
            forall|k: K|
                #[trigger] left@.contains_key(k) ==> a@.contains_key(k) || exists|i: int|
                    0 <= i < out@.len() && (#[trigger] out@[i]).0 == k,
            forall|k: K|
                #[trigger] right@.contains_key(k) ==> b@.contains_key(k) || exists|i: int|
                    0 <= i < out@.len() && (#[trigger] out@[i]).0 == k,
            forall|i: int, k: K|
                0 <= i < out@.len() && #[trigger] a@.contains_key(k) ==> k.rank() < (
                #[trigger] out@[i]).0.rank(),
            forall|i: int, k: K|
                0 <= i < out@.len() && #[trigger] b@.contains_key(k) ==> k.rank() < (
                #[trigger] out@[i]).0.rank(),
            descending(out@),
            forall|i: int|
                0 <= i < out@.len() ==> {
                    &&& left@.contains_key((#[trigger] out@[i]).0) || right@.contains_key(
                        out@[i].0,
                    )
                    &&& out@[i].1 == joined_at(left@, right@, out@[i].0)
                },
        ensures
            a@ == Map::<K, V>::empty(),
            b@ == Map::<K, V>::empty(),
        decreases a.entries().len() + b.entries().len(),
    {
        let from_left = match (a.last_key(), b.last_key()) {
            (None, None) => {
                break ;
            },
            (Some(_), None) => true,
            (None, Some(_)) => false,
            (Some(ka), Some(kb)) => !ka.precedes(&kb),
        };
        let ghost a0 = a@;
        let ghost b0 = b@;
        let ghost out0 = out@;
        if from_left {
            // The largest key left is in the first map; the second map
            // may hold it too.
            match a.pop_last() {
                Some((k, va)) => {
                    let also_right = match b.last_key() {
                        Some(kb) => !kb.precedes(&k),
                        None => false,
                    };
                    if also_right {
                        match b.pop_last() {
                            Some((k2, vb)) => {
                                proof {
                                    K::rank_is_injective(k, k2);
                                }
                                out.push((k, Joined::Both(va, vb)));
                            },
                            None => {
                                assert(false);
                            },
                        }
                    } else {
                        proof {
                            assert(b@ =~= b0.remove(k));
                        }
                        out.push((k, Joined::Left(va)));
                    }
                    proof {
                        lemma_step(left@, right@, a0, b0, a@, b@, out0, out@, k);
                    }
                },
                None => {
                    assert(false);
                },
            }
        } else {
            // The largest key left is in the second map alone.
            match b.pop_last() {
                Some((k, vb)) => {
                    proof {
                        assert(a@ =~= a0.remove(k));
                    }
                    out.push((k, Joined::Right(vb)));
                    proof {
                        lemma_step(left@, right@, a0, b0, a@, b@, out0, out@, k);
                    }
                },
                None => {
                    assert(false);
                },
            }
        }
    }
    out
}

/// One step of the walk keeps what the walk relies on: the largest key
/// that is left moves from the maps to the end of the list.
proof fn lemma_step<K: OrderedKey, V>(
    left: Map<K, V>,
    right: Map<K, V>,
    a0: Map<K, V>,
    b0: Map<K, V>,
    a: Map<K, V>,
    b: Map<K, V>,
    out0: Seq<(K, Joined<V>)>,
    out: Seq<(K, Joined<V>)>,
    k: K,
)
    requires
        a == a0.remove(k),
        b == b0.remove(k),
        a0.contains_key(k) || b0.contains_key(k),
        out.len() == out0.len() + 1,
        forall|i: int| 0 <= i < out0.len() ==> out[i] == out0[i],
        out[out0.len() as int].0 == k,
        forall|x: K| #[trigger] a0.contains_key(x) ==> x.rank() <= k.rank(),
        forall|x: K| #[trigger] b0.contains_key(x) ==> x.rank() <= k.rank(),
        forall|x: K|
            #[trigger] left.contains_key(x) ==> a0.contains_key(x) || exists|i: int|
                0 <= i < out0.len() && (#[trigger] out0[i]).0 == x,
        forall|x: K|
            #[trigger] right.contains_key(x) ==> b0.contains_key(x) || exists|i: int|
                0 <= i < out0.len() && (#[trigger] out0[i]).0 == x,
        forall|i: int, x: K|
            0 <= i < out0.len() && #[trigger] a0.contains_key(x) ==> x.rank() < (
            #[trigger] out0[i]).0.rank(),
        forall|i: int, x: K|
            0 <= i < out0.len() && #[trigger] b0.contains_key(x) ==> x.rank() < (
            #[trigger] out0[i]).0.rank(),
        descending(out0),
    ensures
        forall|x: K|
            #[trigger] left.contains_key(x) ==> a.contains_key(x) || exists|i: int|
                0 <= i < out.len() && (#[trigger] out[i]).0 == x,
        forall|x: K|
            #[trigger] right.contains_key(x) ==> b.contains_key(x) || exists|i: int|
                0 <= i < out.len() && (#[trigger] out[i]).0 == x,
        forall|i: int, x: K|
            0 <= i < out.len() && #[trigger] a.contains_key(x) ==> x.rank() < (
            #[trigger] out[i]).0.rank(),
        forall|i: int, x: K|
            0 <= i < out.len() && #[trigger] b.contains_key(x) ==> x.rank() < (
            #[trigger] out[i]).0.rank(),
        descending(out),
{
    let n = out0.len() as int;
    assert forall|i: int, x: K| 0 <= i < out.len() && #[trigger] a.contains_key(x) implies x.rank()
        < (#[trigger] out[i]).0.rank() by {
        if i == n {
            K::rank_is_injective(x, k);
        } else {
        }
    }
    assert forall|i: int, x: K| 0 <= i < out.len() && #[trigger] b.contains_key(x) implies x.rank()
        < (#[trigger] out[i]).0.rank() by {
        if i == n {
            K::rank_is_injective(x, k);
        } else {
        }
    }
}

/// Combines two maps key by key: walks them side by side and keeps, for
/// each key, what `decide` makes of what the two maps hold under it.
pub fn combine<K: OrderedKey, V, F: Fn(Joined<V>) -> Option<V>>(
    left: SortedMap<K, V>,
    right: SortedMap<K, V>,
    decide: F,
) -> (r: SortedMap<K, V>)
    requires
        left.wf(),
        right.wf(),
        forall|j: Joined<V>| call_requires(decide, (j,)),
    ensures
        r.wf(),
        forall|k: K|
            #[trigger] r@.contains_key(k) ==> (left@.contains_key(k) || right@.contains_key(k))
                && call_ensures(decide, (joined_at(left@, right@, k),), Some(r@[k])),
        forall|k: K|
            (left@.contains_key(k) || right@.contains_key(k)) && !(#[trigger] r@.contains_key(k))
                ==> call_ensures(decide, (joined_at(left@, right@, k),), None::<V>),
{
    let mut walk = join(left, right);
    let ghost all = walk@;
    let mut out: SortedMap<K, V> = SortedMap::new();
    while walk.len() > 0
        invariant
            out.wf(),
            walk@.len() <= all.len(),
            walk@ == all.take(walk@.len() as int),
            descending(all),
            forall|j: Joined<V>| call_requires(decide, (j,)),
            forall|k: K|
                #[trigger] out@.contains_key(k) ==> exists|i: int|
                    walk@.len() <= i < all.len() && (#[trigger] all[i]).0 == k && call_ensures(
                        decide,
                        (all[i].1,),
                        Some(out@[k]),
                    ),
            forall|i: int|
                walk@.len() <= i < all.len() ==> out@.contains_key((#[trigger] all[i]).0)
                    || call_ensures(decide, (all[i].1,), None::<V>),
        decreases walk@.len(),
    {
        match walk.pop() {
            Some((k, found)) => {
                match decide(found) {
                    Some(v) => {
                        out.push_last(k, v);
                    },
                    None => {
                    },
                }
            },
            None => {
                assert(false);
            },
        }
    }
    out
}

/// What a union keeps of a key: the one value, or the first value after
/// it has absorbed the second.
pub open spec fn union_of<V: Mergeable>(found: Joined<V>) -> Option<V> {
    match found {
        Joined::Left(v) => Some(v),
        Joined::Right(v) => Some(v),
        Joined::Both(a, b) => Some(a.merged(b)),
    }
}

/// What an intersection keeps of a key: nothing of a key that one map
/// lacks, else the first value after it has absorbed the second.
pub open spec fn intersection_of<V: Mergeable>(found: Joined<V>) -> Option<V> {
    match found {
        Joined::Both(a, b) => Some(a.merged(b)),
        _ => None,
    }
}

/// What a difference keeps of a key: the value of the first map, where
/// the second does not hold the key.
pub open spec fn difference_of<V>(found: Joined<V>) -> Option<V> {
    match found {
        Joined::Left(v) => Some(v),
        _ => None,
    }
}

/// What a symmetric difference keeps of a key: the value of the one map
/// that holds it, and nothing of a key that both hold.
pub open spec fn symmetric_difference_of<V>(found: Joined<V>) -> Option<V> {
    match found {
        Joined::Left(v) => Some(v),
        Joined::Right(v) => Some(v),
        Joined::Both(_, _) => None,
    }
}

/// Decides what a union keeps of a key.
pub fn settle_union<V: Mergeable>(found: Joined<V>) -> (r: Option<V>)
    ensures
        r == union_of(found),
{
    match found {
        Joined::Left(v) => Some(v),
        Joined::Right(v) => Some(v),
        Joined::Both(a, b) => {
            let mut kept = a;
            kept.merge(b);
            Some(kept)
        },
    }
}

/// Decides what an intersection keeps of a key.
pub fn settle_intersection<V: Mergeable>(found: Joined<V>) -> (r: Option<V>)
    ensures
        r == intersection_of(found),
{
    match found {
        Joined::Both(a, b) => {
            let mut kept = a;
            kept.merge(b);
            Some(kept)
        },
        _ => None,
    }
}

/// Decides what a difference keeps of a key.
pub fn settle_difference<V>(found: Joined<V>) -> (r: Option<V>)
    ensures
        r == difference_of(found),
{
    match found {
        Joined::Left(v) => Some(v),
        _ => None,
    }
}

/// Decides what a symmetric difference keeps of a key.
pub fn settle_symmetric_difference<V>(found: Joined<V>) -> (r: Option<V>)
    ensures
        r == symmetric_difference_of(found),
{
    match found {
        Joined::Left(v) => Some(v),
        Joined::Right(v) => Some(v),
        Joined::Both(_, _) => None,
    }
}

impl<K: OrderedKey, V: Mergeable> SortedMap<K, V> {
    /// The union of two maps, by one walk over both. A key that both
    /// hold gets the value of this map after it has absorbed the value
    /// of `other`.
    pub fn union_with(self, other: Self) -> (r: Self)
        requires
            self.wf(),
            other.wf(),
        ensures
            r.wf(),
            r@ == merge_maps(self@, other@),
    {
        let r = combine(self, other, settle_union::<V>);
        r
    }

    /// The intersection of two maps, by one walk over both: the keys that
    /// both hold, each with the value of this map after it has absorbed
    /// the value of `other`.
    pub fn intersect_with(self, other: Self) -> (r: Self)
        requires
            self.wf(),
            other.wf(),
        ensures
            r.wf(),
            r@ == intersect_maps(self@, other@),
    {
        let r = combine(self, other, settle_intersection::<V>);
        r
    }
}

impl<K: OrderedKey, V> SortedMap<K, V> {
    /// The difference of two maps, by one walk over both: the entries of
    /// this map whose key `other` does not hold.
    pub fn subtract(self, other: Self) -> (r: Self)
        requires
            self.wf(),
            other.wf(),
        ensures
            r.wf(),
            r@ == subtract_maps(self@, other@),
    {
        let r = combine(self, other, settle_difference::<V>);
        r
    }

    /// The symmetric difference of two maps, by one walk over both: the
    /// entries of either map whose key the other does not hold.
    pub fn exclusive_with(self, other: Self) -> (r: Self)
        requires
            self.wf(),
            other.wf(),
        ensures
            r.wf(),
            r@ == exclusive_maps(self@, other@),
    {
        let r = combine(self, other, settle_symmetric_difference::<V>);
        r
    }
}

} // verus!
