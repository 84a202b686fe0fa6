//! An ordered map kept as a vector of entries sorted by key.
//!
//! The map is the ordered collection that every index of the store is
//! built from. Keys are unique and the entries are held in strictly
//! increasing key order, so that a point read is a binary search and a
//! range read is one contiguous run of entries.

use vstd::prelude::*;

pub mod join;

verus! {

/// A key with a total order, given by an injective rank in the integers.
pub trait OrderedKey: Copy + Sized {
    /// The position of the key in the order: a key sorts before another
    /// exactly when its rank is smaller.
    spec fn rank(self) -> int;

    /// Different keys have different ranks.
    proof fn rank_is_injective(a: Self, b: Self)
        ensures
            a.rank() == b.rank() ==> a == b,
    ;

    /// Whether `self` sorts strictly before `other`.
    fn precedes(&self, other: &Self) -> (r: bool)
        ensures
            r == (self.rank() < other.rank()),
    ;
}

impl OrderedKey for u128 {
    open spec fn rank(self) -> int {
        self as int
    }

    proof fn rank_is_injective(a: Self, b: Self) {
    }

    fn precedes(&self, other: &Self) -> (r: bool) {
        *self < *other
    }
}

/// The entries are in strictly increasing key order.
pub open spec fn ascending<K: OrderedKey, V>(s: Seq<(K, V)>) -> bool {
    forall|i: int, j: int|
        #![trigger s[i], s[j]]
        0 <= i < j < s.len() ==> s[i].0.rank() < s[j].0.rank()
}

/// The map that a sequence of entries stands for: every key that occurs,
/// with the value it occurs with.
pub open spec fn as_map<K, V>(s: Seq<(K, V)>) -> Map<K, V> {
    Map::new(
        |k: K| exists|i: int| 0 <= i < s.len() && (#[trigger] s[i]).0 == k,
        |k: K| s[choose|i: int| 0 <= i < s.len() && (#[trigger] s[i]).0 == k].1,
    )
}

/// In an ascending sequence every entry is the map's entry for its key.
pub proof fn lemma_entry_in_map<K: OrderedKey, V>(s: Seq<(K, V)>, i: int)
    requires
        ascending(s),
        0 <= i < s.len(),
    ensures
        as_map(s).contains_key(s[i].0),
        as_map(s)[s[i].0] == s[i].1,
{
}

/// Every key of the map occurs at some position of the sequence.
pub proof fn lemma_key_has_position<K: OrderedKey, V>(s: Seq<(K, V)>, k: K) -> (i: int)
    requires
        ascending(s),
        as_map(s).contains_key(k),
    ensures
        0 <= i < s.len(),
        s[i].0 == k,
        s[i].1 == as_map(s)[k],
{
    let i = choose|i: int| 0 <= i < s.len() && (#[trigger] s[i]).0 == k;
    i
}

/// The map of an ascending sequence has as many keys as the sequence has
/// entries.
pub proof fn lemma_map_len<K: OrderedKey, V>(s: Seq<(K, V)>)
    requires
        ascending(s),
    ensures
        as_map(s).dom().finite(),
        as_map(s).dom().len() == s.len(),
    decreases s.len(),
{
    if s.len() == 0 {
        assert(as_map(s).dom() =~= Set::<K>::empty());
    } else {
        let t = s.drop_last();
        let last = s.last();
        lemma_map_len(t);
        assert(as_map(s).dom() =~= as_map(t).dom().insert(last.0)) by {
            assert forall|k: K| as_map(s).dom().contains(k) implies as_map(t).dom().insert(
                last.0,
            ).contains(k) by {
                let i = lemma_key_has_position(s, k);
                if i < t.len() {
                    assert(t[i] == s[i]);
                }
            }
        }
    }
}

/// Putting an entry between the keys that sort before it and those that
/// sort after it keeps the order and adds the entry to the map.
pub proof fn lemma_insert_at<K: OrderedKey, V>(s: Seq<(K, V)>, i: int, k: K, v: V)
    requires
        ascending(s),
        0 <= i <= s.len(),
        forall|j: int| 0 <= j < i ==> (#[trigger] s[j]).0.rank() < k.rank(),
        forall|j: int| i <= j < s.len() ==> (#[trigger] s[j]).0.rank() > k.rank(),
    ensures
        ascending(s.insert(i, (k, v))),
        as_map(s.insert(i, (k, v))) == as_map(s).insert(k, v),
{
    let t = s.insert(i, (k, v));
    let m = as_map(s).insert(k, v);
    assert forall|x: K| m.contains_key(x) implies as_map(t).contains_key(x) by {
        if x == k {
            assert(t[i].0 == x);
        } else {
            let a = lemma_key_has_position(s, x);
            if a < i {
                assert(t[a] == s[a]);
            } else {
                assert(t[a + 1] == s[a]);
            }
        }
    }
}

/// Giving the entry at a position a new value keeps the order and stores
/// the value under the entry's key.
pub proof fn lemma_update_at<K: OrderedKey, V>(s: Seq<(K, V)>, i: int, v: V)
    requires
        ascending(s),
        0 <= i < s.len(),
    ensures
        ascending(s.update(i, (s[i].0, v))),
        as_map(s.update(i, (s[i].0, v))) == as_map(s).insert(s[i].0, v),
{
    let k = s[i].0;
    let t = s.update(i, (k, v));
    let m = as_map(s).insert(k, v);
    assert forall|x: K| m.contains_key(x) implies as_map(t).contains_key(x) by {
        if x == k {
            assert(t[i].0 == x);
        } else {
            let a = lemma_key_has_position(s, x);
            assert(t[a] == s[a]);
        }
    }
}

/// Taking the entry at a position out keeps the order and removes the
/// entry's key from the map.
pub proof fn lemma_remove_at<K: OrderedKey, V>(s: Seq<(K, V)>, i: int)
    requires
        ascending(s),
        0 <= i < s.len(),
    ensures
        ascending(s.remove(i)),
        as_map(s.remove(i)) == as_map(s).remove(s[i].0),
{
    let k = s[i].0;
    let t = s.remove(i);
    let m = as_map(s).remove(k);
    assert forall|x: K| m.contains_key(x) implies as_map(t).contains_key(x) by {
        let a = lemma_key_has_position(s, x);
        if a < i {
            assert(t[a] == s[a]);
        } else {
            assert(t[a - 1] == s[a]);
        }
    }
}

/// An ordered map from keys to values.
#[derive(Debug, PartialEq, Eq)]
pub struct SortedMap<K: OrderedKey, V> {
    slots: Vec<(K, V)>,
}

impl<K: OrderedKey, V> SortedMap<K, V> {
    /// The entries in key order.
    pub closed spec fn entries(&self) -> Seq<(K, V)> {
        self.slots@
    }

    /// Keys are unique and in increasing order.
    pub open spec fn wf(&self) -> bool {
        ascending(self.entries())
    }

    /// The map from each key to its value.
    pub open spec fn view(&self) -> Map<K, V> {
        as_map(self.entries())
    }

    /// An empty map.
    pub fn new() -> (m: Self)
        ensures
            m.wf(),
            m.entries() == Seq::<(K, V)>::empty(),
            m@ == Map::<K, V>::empty(),
    {
        let m = SortedMap { slots: Vec::new() };
        m
    }

    /// The number of entries.
    pub fn len(&self) -> (n: usize)
        ensures
            n == self.entries().len(),
    {
        self.slots.len()
    }

    /// The entries in key order, borrowed.
    pub fn as_slots(&self) -> (v: &Vec<(K, V)>)
        ensures
            v@ == self.entries(),
    {
        &self.slots
    }

    /// The entries in key order, owned.
    pub fn into_slots(self) -> (v: Vec<(K, V)>)
        ensures
            v@ == self.entries(),
    {
        self.slots
    }

    /// The position of the first entry whose key does not sort before
    /// `key`, or the number of entries where there is none.
    pub fn lower_bound(&self, key: &K) -> (i: usize)
        requires
            self.wf(),
        ensures
            i <= self.entries().len(),
            forall|j: int| 0 <= j < i ==> (#[trigger] self.entries()[j]).0.rank() < key.rank(),
            forall|j: int|
                i <= j < self.entries().len() ==> (#[trigger] self.entries()[j]).0.rank()
                    >= key.rank(),
    {
        let mut lo: usize = 0;
        let mut hi: usize = self.slots.len();
        while lo < hi
            invariant
                self.wf(),
                lo <= hi <= self.slots@.len(),
                forall|j: int| 0 <= j < lo ==> (#[trigger] self.slots@[j]).0.rank() < key.rank(),
                forall|j: int|
                    hi <= j < self.slots@.len() ==> (#[trigger] self.slots@[j]).0.rank()
                        >= key.rank(),
            decreases hi - lo,
        {
            let mid: usize = lo + (hi - lo) / 2;
            if self.slots[mid].0.precedes(key) {
                lo = mid + 1;
            } else {
                hi = mid;
            }
        }
        lo
    }

    /// The value stored under `key`, if there is one.
    pub fn get(&self, key: &K) -> (r: Option<&V>)
        requires
            self.wf(),
        ensures
            r == (if self@.contains_key(*key) {
                Some(&self@[*key])
            } else {
                None
            }),
    {
        let i = self.lower_bound(key);
        if i < self.slots.len() && !key.precedes(&self.slots[i].0) {
            proof {
                K::rank_is_injective(self.slots@[i as int].0, *key);
            }
            Some(&self.slots[i].1)
        } else {
            None
        }
    }

    /// Whether a value is stored under `key`.
    pub fn contains_key(&self, key: &K) -> (r: bool)
        requires
            self.wf(),
        ensures
            r == self@.contains_key(*key),
    {
        self.get(key).is_some()
    }
    /// The position of the first entry whose key sorts after `key`, or the
    /// number of entries where there is none.
    pub fn upper_bound(&self, key: &K) -> (i: usize)
        requires
            self.wf(),
        ensures
            i <= self.entries().len(),
            forall|j: int| 0 <= j < i ==> (#[trigger] self.entries()[j]).0.rank() <= key.rank(),
            forall|j: int|
                i <= j < self.entries().len() ==> (#[trigger] self.entries()[j]).0.rank()
                    > key.rank(),
    {
        let mut lo: usize = 0;
        let mut hi: usize = self.slots.len();
        while lo < hi
            invariant
                self.wf(),
                lo <= hi <= self.slots@.len(),
                forall|j: int| 0 <= j < lo ==> (#[trigger] self.slots@[j]).0.rank() <= key.rank(),
                forall|j: int|
                    hi <= j < self.slots@.len() ==> (#[trigger] self.slots@[j]).0.rank()
                        > key.rank(),
            decreases hi - lo,
        {
            let mid: usize = lo + (hi - lo) / 2;
            if key.precedes(&self.slots[mid].0) {
                hi = mid;
            } else {
                lo = mid + 1;
            }
        }
        lo
    }

    /// The run of entries whose keys lie between `lo` and `hi`, both
    /// included: the positions from `run.0` up to, not including, `run.1`.
    pub fn range_bounds(&self, lo: &K, hi: &K) -> (run: (usize, usize))
        requires
            self.wf(),
        ensures
            run.0 <= run.1 <= self.entries().len(),
            forall|j: int|
                0 <= j < self.entries().len() ==> ((run.0 <= j < run.1) <==> (lo.rank() <= (
                #[trigger] self.entries()[j]).0.rank() <= hi.rank())),
    {
        let start = self.lower_bound(lo);
        let end = self.upper_bound(hi);
        if end < start {
            (start, start)
        } else {
            (start, end)
        }
    }

    /// Stores `value` under `key`, in place of any value stored there.
    pub fn insert(&mut self, key: K, value: V)
        requires
            old(self).wf(),
        ensures
            final(self).wf(),
            final(self)@ == old(self)@.insert(key, value),
    {
        let i = self.lower_bound(&key);
        if i < self.slots.len() && !key.precedes(&self.slots[i].0) {
            proof {
                K::rank_is_injective(self.slots@[i as int].0, key);
                lemma_update_at(self.slots@, i as int, value);
            }
            self.slots[i] = (key, value);
        } else {
            proof {
                lemma_insert_at(self.slots@, i as int, key, value);
            }
            self.slots.insert(i, (key, value));
        }
    }

    /// Removes the entry of `key` and returns its value, if there is one.
    pub fn remove(&mut self, key: &K) -> (r: Option<V>)
        requires
            old(self).wf(),
        ensures
            final(self).wf(),
            final(self)@ == old(self)@.remove(*key),
            r == (if old(self)@.contains_key(*key) {
                Some(old(self)@[*key])
            } else {
                None
            }),
    {
        let i = self.lower_bound(key);
        if i < self.slots.len() && !key.precedes(&self.slots[i].0) {
            proof {
                K::rank_is_injective(self.slots@[i as int].0, *key);
                lemma_remove_at(self.slots@, i as int);
            }
            let gone = self.slots.remove(i);
            Some(gone.1)
        } else {
            None
        }
    }
    /// The map has as many keys as the vector has entries.
    pub proof fn lemma_len(&self)
        requires
            self.wf(),
        ensures
            self@.dom().finite(),
            self@.len() == self.entries().len(),
    {
        lemma_map_len(self.entries());
    }

    /// The largest key, if the map has any.
    pub fn last_key(&self) -> (r: Option<K>)
        requires
            self.wf(),
        ensures
            match r {
                Some(k) => self@.contains_key(k) && forall|x: K| #[trigger]
                    self@.contains_key(x) ==> x.rank() <= k.rank(),
                None => self@ == Map::<K, V>::empty() && self.entries().len() == 0,
            },
    {
        let n = self.slots.len();
        if n == 0 {
            None
        } else {
            let k = self.slots[n - 1].0;
            Some(k)
        }
    }

    /// Removes the entry with the largest key and returns it, if the map
    /// has any.
    pub fn pop_last(&mut self) -> (r: Option<(K, V)>)
        requires
            old(self).wf(),
        ensures
            final(self).wf(),
            match r {
                Some((k, v)) => {
                    &&& old(self)@.contains_key(k)
                    &&& old(self)@[k] == v
                    &&& final(self)@ == old(self)@.remove(k)
                    &&& final(self).entries().len() + 1 == old(self).entries().len()
                    &&& forall|x: K| #[trigger] old(self)@.contains_key(x) ==> x.rank() <= k.rank()
                },
                None => {
                    &&& old(self)@ == Map::<K, V>::empty()
                    &&& old(self).entries().len() == 0
                    &&& final(self)@ == old(self)@
                },
            },
    {
        let n = self.slots.len();
        if n == 0 {
            None
        } else {
            proof {
                lemma_remove_at(self.slots@, n - 1);
            }
            self.slots.pop()
        }
    }
    /// Stores `value` under `key`, which must sort after every key of the
    /// map, at the end of the entries.
    pub fn push_last(&mut self, key: K, value: V)
        requires
            old(self).wf(),
            forall|x: K| #[trigger] old(self)@.contains_key(x) ==> x.rank() < key.rank(),
        ensures
            final(self).wf(),
            final(self)@ == old(self)@.insert(key, value),
            final(self).entries() == old(self).entries().push((key, value)),
    {
        proof {
            let s = self.slots@;
            assert forall|j: int| 0 <= j < s.len() implies (#[trigger] s[j]).0.rank()
                < key.rank() by {
                assert(self@.contains_key(s[j].0));
            }
            lemma_insert_at(s, s.len() as int, key, value);
            assert(s.insert(s.len() as int, (key, value)) =~= s.push((key, value)));
        }
        self.slots.push((key, value));
    }
}

} // verus!
