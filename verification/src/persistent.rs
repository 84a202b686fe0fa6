//! What a store decides for itself when it keeps its five maps in a
//! key-value store with byte keys and its property values as bytes.
//!
//! Such a store reads entries from the key-value store and turns bytes
//! into property values elsewhere; what it does with an entry once it has
//! it is decided here: which map an index lives in, which range of keys
//! answers a pattern, what an entry without properties amounts to, and
//! which identifier an edge gets.

use crate::codec::{bytes_precede, key_bytes};
use crate::error::Error;
use crate::mem::iter::{decorate, decorated};
use crate::query::Pattern;
use crate::triple::{EdgeOrder, PropsTriple, Triple};
use vstd::prelude::*;

verus! {

/// The five maps of a store.
#[derive(Debug, Clone, Copy, PartialEq, Eq, Hash, Structural)]
pub enum Tree {
    /// Node identifier to node properties.
    NodeData,
    /// Edge identifier to edge properties.
    EdgeData,
    /// The SPO index.
    SpoData,
    /// The POS index.
    PosData,
    /// The OSP index.
    OspData,
}

impl Tree {
    /// The name under which the map is kept in the key-value store.
    pub open spec fn name_spec(self) -> Seq<char> {
        match self {
            Tree::NodeData => "node_data"@,
            Tree::EdgeData => "edge_data"@,
            Tree::SpoData => "spo_data"@,
            Tree::PosData => "pos_data"@,
            Tree::OspData => "osp_data"@,
        }
    }

    /// The map that holds the index of the given order.
    pub open spec fn of_index_spec(order: EdgeOrder) -> Tree {
        match order {
            EdgeOrder::SPO => Tree::SpoData,
            EdgeOrder::POS => Tree::PosData,
            EdgeOrder::OSP => Tree::OspData,
        }
    }

    /// The name under which the map is kept in the key-value store.
    pub fn name(&self) -> (r: &'static str)
        ensures
            r@ == self.name_spec(),
    {
        match self {
            Tree::NodeData => "node_data",
            Tree::EdgeData => "edge_data",
            Tree::SpoData => "spo_data",
            Tree::PosData => "pos_data",
            Tree::OspData => "osp_data",
        }
    }

    /// The map that holds the index of the given order.
    pub fn of_index(order: EdgeOrder) -> (r: Tree)
        ensures
            r == Tree::of_index_spec(order),
    {
        match order {
            EdgeOrder::SPO => Tree::SpoData,
            EdgeOrder::POS => Tree::PosData,
            EdgeOrder::OSP => Tree::OspData,
        }
    }
}

/// The one scan that answers a pattern: the index to read, and the
/// smallest and the largest key to read from it, both included.
#[derive(Debug, Clone, PartialEq, Eq)]
pub struct KeyRange {
    /// The order of the index to read.
    pub order: EdgeOrder,
    /// The map that holds that index.
    pub tree: Tree,
    /// The smallest key of the range: the fixed components of the
    /// pattern, then zero bytes.
    pub lowest: [u8; 48],
    /// The largest key of the range: the fixed components of the
    /// pattern, then bytes of all ones.
    pub highest: [u8; 48],
}

/// Whether a key of an index lies in a range of keys, both ends included,
/// where keys sort byte by byte.
pub open spec fn bytes_within(key: Seq<u8>, lowest: Seq<u8>, highest: Seq<u8>) -> bool {
    !bytes_precede(key, lowest) && !bytes_precede(highest, key)
}

/// The one scan that answers a pattern: over the index whose keys begin
/// with the components that the pattern fixes, from those components
/// padded with zero bytes to those components padded with bytes of all
/// ones.
pub fn scan_range(pattern: &Pattern) -> (r: KeyRange)
    ensures
        r.order == pattern.best_order_spec(),
        r.tree == Tree::of_index_spec(r.order),
        r.lowest@ == key_bytes(pattern.lowest_key_spec(r.order)),
        r.highest@ == key_bytes(pattern.highest_key_spec(r.order)),
{
    let order = pattern.best_order();
    KeyRange {
        order,
        tree: Tree::of_index(order),
        lowest: pattern.lowest_key(order).to_bytes(),
        highest: pattern.highest_key(order).to_bytes(),
    }
}

/// What a lookup amounts to where the value is needed: the value, the
/// error of the lookup as it came, or the error that says that the value
/// is missing.
pub open spec fn required<T, Backend, Codec>(
    looked_up: Result<Option<T>, Error<Backend, Codec>>,
) -> Result<T, Error<Backend, Codec>> {
    match looked_up {
        Ok(Some(value)) => Ok(value),
        Ok(None) => Err(Error::MissingPropertyData),
        Err(e) => Err(e),
    }
}

/// The value that a lookup found. A lookup that failed hands its error
/// on as it is, and one that found nothing is an error of missing
/// property data.
pub fn require<T, Backend, Codec>(
    looked_up: Result<Option<T>, Error<Backend, Codec>>,
) -> (r: Result<T, Error<Backend, Codec>>)
    ensures
        r == required(looked_up),
{
    match looked_up {
        Ok(Some(value)) => Ok(value),
        Ok(None) => Err(Error::MissingPropertyData),
        Err(e) => Err(e),
    }
}

/// An entry of an edge listing: the edge with the properties that the
/// lookup found. A lookup that failed hands its error on as it is, and
/// one that found nothing is an error of missing property data.
pub fn edge_entry<P, Backend, Codec>(
    triple: Triple,
    looked_up: Result<Option<P>, Error<Backend, Codec>>,
) -> (r: Result<(Triple, P), Error<Backend, Codec>>)
    ensures
        r == (match required(looked_up) {
            Ok(p) => Ok::<(Triple, P), Error<Backend, Codec>>((triple, p)),
            Err(e) => Err::<(Triple, P), Error<Backend, Codec>>(e),
        }),
{
    match require(looked_up) {
        Ok(p) => Ok((triple, p)),
        Err(e) => Err(e),
    }
}

/// An entry of a decorated edge listing: the edge with the properties of
/// its subject, its predicate and its object, or the error of missing
/// property data where one of the three has none.
pub fn decorated_entry<P, Backend, Codec>(
    triple: Triple,
    sub: Option<P>,
    pred: Option<P>,
    obj: Option<P>,
) -> (r: Result<PropsTriple<P>, Error<Backend, Codec>>)
    ensures
        r == required::<PropsTriple<P>, Backend, Codec>(Ok(decorated(triple, sub, pred, obj))),
{
    require(Ok(decorate(triple, sub, pred, obj)))
}

/// The outcome of a step of a set operation: what the step gave, or the
/// error of a failed set operation in place of whatever went wrong.
pub fn during_set_op<T, Backend, Codec>(step: Result<T, Error<Backend, Codec>>) -> (r: Result<
    T,
    Error<Backend, Codec>,
>)
    ensures
        r == (match step {
            Ok(value) => Ok::<T, Error<Backend, Codec>>(value),
            Err(_) => Err::<T, Error<Backend, Codec>>(Error::SetOpsFailure),
        }),
{
    match step {
        Ok(value) => Ok(value),
        Err(_) => Err(Error::SetOpsFailure),
    }
}

/// What inserting an edge writes: the identifier that the edge has from
/// now on, and whether the three indexes get an entry for it.
#[derive(Debug, Clone, Copy, PartialEq, Eq, Structural)]
pub struct EdgeWrite {
    /// The identifier under which the properties are written.
    pub id: u128,
    /// Whether the edge is new, so that each index gets an entry.
    pub index_it: bool,
}

/// Decides what inserting an edge writes: an edge that the SPO index
/// holds keeps its identifier and only gets new properties; an edge that
/// it does not hold gets the candidate identifier and an entry in each
/// index.
pub fn plan_edge_write(held: Option<u128>, candidate: u128) -> (w: EdgeWrite)
    ensures
        w == (match held {
            Some(id) => (EdgeWrite { id, index_it: false }),
            None => (EdgeWrite { id: candidate, index_it: true }),
        }),
{
    match held {
        Some(id) => EdgeWrite { id, index_it: false },
        None => EdgeWrite { id: candidate, index_it: true },
    }
}

} // verus!
