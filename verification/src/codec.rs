//! The byte form of identifiers and of index keys.
//!
//! An identifier is written as its 16 bytes, most significant first. The
//! key of a triple in an index is 48 bytes: the three components in the
//! order of that index, one after the other. Read as one big-endian
//! number, the 48 bytes spell the rank of the key, so keys compare as
//! their byte strings do.

use crate::error::Error;
use crate::ordered_map::OrderedKey;
use crate::triple::{component_span, EdgeOrder, IndexKey, Triple};
use vstd::arithmetic::div_mod::lemma_div_denominator;
use vstd::prelude::*;

verus! {

/// 256 to the power of `n`.
pub open spec fn pow256(n: nat) -> nat
    decreases n,
{
    if n == 0 {
        1
    } else {
        256 * pow256((n - 1) as nat)
    }
}

/// The number that the bytes spell, most significant byte first.
pub open spec fn be_value(bytes: Seq<u8>) -> nat
    decreases bytes.len(),
{
    if bytes.len() == 0 {
        0
    } else {
        be_value(bytes.drop_last()) * 256 + bytes.last() as nat
    }
}

/// The 16 bytes of an identifier, most significant byte first.
pub open spec fn be_bytes(id: u128) -> Seq<u8> {
    Seq::new(16, |i: int| ((id as nat / pow256((15 - i) as nat)) % 256) as u8)
}

/// The 48 bytes of a key: its three components, one after the other.
pub open spec fn key_bytes(key: IndexKey) -> Seq<u8> {
    be_bytes(key.first) + be_bytes(key.second) + be_bytes(key.third)
}

/// The key that 48 bytes spell.
pub open spec fn key_of_bytes(bytes: Seq<u8>) -> IndexKey {
    IndexKey {
        first: be_value(bytes.subrange(0, 16)) as u128,
        second: be_value(bytes.subrange(16, 32)) as u128,
        third: be_value(bytes.subrange(32, 48)) as u128,
    }
}

/// Powers of 256 are positive, and the sixteenth is the number of
/// identifiers.
pub proof fn lemma_pow256(n: nat)
    ensures
        pow256(n) > 0,
        pow256(n + 1) == 256 * pow256(n),
        pow256(16) == component_span(),
    decreases n,
{
    if n > 0 {
        lemma_pow256((n - 1) as nat);
    }
    reveal_with_fuel(pow256, 17);
}

/// A number divided by the zeroth power of 256 is the number.
proof fn lemma_whole(x: nat)
    ensures
        x / pow256(0) == x,
{
    let d = pow256(0);
    assert(x / d == x) by (nonlinear_arith)
        requires
            d == 1,
    ;
}

/// The first `k` bytes of an identifier spell the identifier without its
/// last `16 - k` bytes.
proof fn lemma_prefix_value(id: u128, k: nat)
    requires
        k <= 16,
    ensures
        be_value(be_bytes(id).take(k as int)) == (id as nat) / pow256((16 - k) as nat),
    decreases k,
{
    let s = be_bytes(id).take(k as int);
    if k == 0 {
        lemma_pow256(0);
    } else {
        lemma_prefix_value(id, (k - 1) as nat);
        assert(s.drop_last() =~= be_bytes(id).take(k - 1));
        let d = pow256((16 - k) as nat);
        lemma_pow256((16 - k) as nat);
        lemma_div_denominator(id as int, d as int, 256);
    }
}

/// The bytes of an identifier spell the identifier.
pub proof fn lemma_value_of_bytes(id: u128)
    ensures
        be_value(be_bytes(id)) == id,
{
    lemma_prefix_value(id, 16);
    assert(be_bytes(id).take(16) =~= be_bytes(id));
    lemma_whole(id as nat);
}

/// A byte string spells a number below 256 to the power of its length,
/// and each of its bytes is a digit of that number.
pub proof fn lemma_digits(bytes: Seq<u8>, j: int)
    requires
        0 <= j < bytes.len(),
    ensures
        be_value(bytes) < pow256(bytes.len()),
        (be_value(bytes) / pow256((bytes.len() - 1 - j) as nat)) % 256 == bytes[j],
    decreases bytes.len(),
{
    let n = bytes.len();
    let head = bytes.drop_last();
    let v = be_value(bytes);
    if n == 1 {
        assert(v / 1 == v);
    } else {
        lemma_digits(head, 0);
        assert(v < pow256(n)) by {
            assert((be_value(head) + 1) * 256 <= pow256((n - 1) as nat) * 256) by (nonlinear_arith)
                requires
                    be_value(head) + 1 <= pow256((n - 1) as nat),
            ;
        }
        if j < n - 1 {
            lemma_digits(head, j);
            let d = pow256((n - 2 - j) as nat);
            lemma_pow256((n - 2 - j) as nat);
            lemma_div_denominator(v as int, 256, d as int);
        } else {
        }
    }
}

/// The bytes of the identifier that 16 bytes spell are those 16 bytes.
pub proof fn lemma_bytes_of_value(bytes: Seq<u8>)
    requires
        bytes.len() == 16,
    ensures
        be_value(bytes) <= u128::MAX,
        be_bytes(be_value(bytes) as u128) == bytes,
{
    lemma_digits(bytes, 0);
    lemma_pow256(0);
    assert forall|j: int| 0 <= j < 16 implies be_bytes(be_value(bytes) as u128)[j] == bytes[j] by {
        lemma_digits(bytes, j);
    }
}

/// The key that the bytes of a key spell is that key.
pub proof fn lemma_key_of_key_bytes(key: IndexKey)
    ensures
        key_bytes(key).len() == 48,
        key_of_bytes(key_bytes(key)) == key,
{
    let b = key_bytes(key);
    assert(b.subrange(0, 16) =~= be_bytes(key.first));
    assert(b.subrange(16, 32) =~= be_bytes(key.second));
    assert(b.subrange(32, 48) =~= be_bytes(key.third));
    lemma_value_of_bytes(key.first);
    lemma_value_of_bytes(key.second);
    lemma_value_of_bytes(key.third);
}

/// The bytes of the key that 48 bytes spell are those 48 bytes.
pub proof fn lemma_key_bytes_of_key(bytes: Seq<u8>)
    requires
        bytes.len() == 48,
    ensures
        key_bytes(key_of_bytes(bytes)) == bytes,
{
    lemma_bytes_of_value(bytes.subrange(0, 16));
    lemma_bytes_of_value(bytes.subrange(16, 32));
    lemma_bytes_of_value(bytes.subrange(32, 48));
}

/// Whether a byte string sorts strictly before another of the same
/// length, byte by byte: they agree up to some position, and there the
/// first has the smaller byte.
pub open spec fn bytes_precede(a: Seq<u8>, b: Seq<u8>) -> bool {
    exists|i: int|
        0 <= i < a.len() && i < b.len() && #[trigger] a.take(i) == b.take(i) && a[i] < b[i]
}

/// Byte strings of the same length that spell the same number are the
/// same.
pub proof fn lemma_value_injective(a: Seq<u8>, b: Seq<u8>)
    requires
        a.len() == b.len(),
        be_value(a) == be_value(b),
    ensures
        a == b,
{
    assert forall|j: int| 0 <= j < a.len() implies a[j] == b[j] by {
        lemma_digits(a, j);
        lemma_digits(b, j);
    }
}

/// Byte strings of the same length sort as the numbers they spell.
pub proof fn lemma_bytes_sort_as_values(a: Seq<u8>, b: Seq<u8>)
    requires
        a.len() == b.len(),
    ensures
        bytes_precede(a, b) <==> be_value(a) < be_value(b),
    decreases a.len(),
{
    let n = a.len();
    if n == 0 {
    } else {
        let a0 = a.drop_last();
        let b0 = b.drop_last();
        lemma_bytes_sort_as_values(a0, b0);
        if bytes_precede(a, b) {
            let i = choose|i: int|
                0 <= i < a.len() && i < b.len() && #[trigger] a.take(i) == b.take(i) && a[i] < b[i];
            if i == n - 1 {
            } else {
                assert(a0.take(i) =~= a.take(i));
                assert(b0.take(i) =~= b.take(i));
            }
        }
        if be_value(a) < be_value(b) {
            if be_value(a0) < be_value(b0) {
                let i = choose|i: int|
                    0 <= i < a0.len() && i < b0.len() && #[trigger] a0.take(i) == b0.take(i)
                        && a0[i] < b0[i];
                assert(a.take(i) =~= a0.take(i));
                assert(b.take(i) =~= b0.take(i));
            } else {
                lemma_value_injective(a0, b0);
            }
        }
    }
}

/// The number that two byte strings spell one after the other.
pub proof fn lemma_concat_value(a: Seq<u8>, b: Seq<u8>)
    ensures
        be_value(a + b) == be_value(a) * pow256(b.len()) + be_value(b),
    decreases b.len(),
{
    if b.len() == 0 {
        assert(be_value(a) * pow256(0) == be_value(a)) by (nonlinear_arith)
            requires
                pow256(0) == 1,
        ;
    } else {
        let b0 = b.drop_last();
        lemma_concat_value(a, b0);
        assert((a + b).drop_last() =~= a + b0);
        assert(be_value(a) * pow256(b.len()) == (be_value(a) * pow256(b0.len())) * 256)
            by (nonlinear_arith)
            requires
                pow256(b.len()) == 256 * pow256(b0.len()),
        ;
    }
}

/// The 48 bytes of a key spell the rank of the key.
pub proof fn lemma_key_bytes_spell_rank(key: IndexKey)
    ensures
        key_bytes(key).len() == 48,
        be_value(key_bytes(key)) == key.rank(),
{
    let a = be_bytes(key.first);
    let b = be_bytes(key.second);
    let c = be_bytes(key.third);
    lemma_value_of_bytes(key.first);
    lemma_value_of_bytes(key.second);
    lemma_value_of_bytes(key.third);
    lemma_concat_value(a, b);
    lemma_concat_value(a + b, c);
    lemma_pow256(0);
}

/// The byte strings of two keys sort as the keys do.
pub proof fn lemma_key_bytes_sort_as_keys(a: IndexKey, b: IndexKey)
    ensures
        bytes_precede(key_bytes(a), key_bytes(b)) <==> a.rank() < b.rank(),
{
    lemma_key_bytes_spell_rank(a);
    lemma_key_bytes_spell_rank(b);
    lemma_bytes_sort_as_values(key_bytes(a), key_bytes(b));
}

/// The 16 bytes of an identifier, most significant byte first.
pub fn encode_ulid(id: u128) -> (r: [u8; 16])
    ensures
        r@ == be_bytes(id),
{
    let mut out = [0u8;16];
    let mut rest: u128 = id;
    let mut i: usize = 16;
    proof {
        lemma_whole(id as nat);
    }
    while i > 0
        invariant
            i <= 16,
            out@.len() == 16,
            rest as nat == (id as nat) / pow256((16 - i) as nat),
            forall|j: int| i <= j < 16 ==> out@[j] == be_bytes(id)[j],
        decreases i,
    {
        proof {
            let d = pow256((16 - i) as nat);
            lemma_pow256((16 - i) as nat);
            lemma_div_denominator(id as int, d as int, 256);
        }
        i -= 1;
        out[i] = (rest % 256) as u8;
        rest = rest / 256;
    }
    out
}

/// The identifier that the 16 bytes from `offset` on spell.
fn decode_ulid_at(bytes: &[u8], offset: usize) -> (id: u128)
    requires
        offset + 16 <= bytes@.len(),
    ensures
        id == be_value(bytes@.subrange(offset as int, offset + 16)),
{
    let ghost part = bytes@.subrange(offset as int, offset + 16);
    let n = bytes.len();
    let mut acc: u128 = 0;
    let mut i: usize = 0;
    while i < 16
        invariant
            i <= 16,
            n == bytes@.len(),
            offset + 16 <= n,
            part == bytes@.subrange(offset as int, offset + 16),
            acc as nat == be_value(part.take(i as int)),
        decreases 16 - i,
    {
        proof {
            let next = part.take(i + 1);
            assert(next.drop_last() =~= part.take(i as int));
            lemma_digits(next, 0);
            lemma_pow256(i as nat);
            assert(pow256((i + 1) as nat) <= pow256(16)) by {
                lemma_pow256_monotonic((i + 1) as nat, 16);
            }
        }
        acc = acc * 256 + bytes[offset + i] as u128;
        i += 1;
    }
    assert(part.take(16) =~= part);
    acc
}

/// A larger exponent gives a power of 256 that is no smaller.
pub proof fn lemma_pow256_monotonic(a: nat, b: nat)
    requires
        a <= b,
    ensures
        pow256(a) <= pow256(b),
    decreases b - a,
{
    if a < b {
        lemma_pow256_monotonic(a, (b - 1) as nat);
    }
}

/// The identifier that a stored key of 16 bytes spells. A key of another
/// length is a key-size error.
pub fn decode_ulid<Backend, Codec>(bytes: &[u8]) -> (r: Result<u128, Error<Backend, Codec>>)
    ensures
        bytes@.len() == 16 ==> r == Ok::<u128, Error<Backend, Codec>>(be_value(bytes@) as u128),
        bytes@.len() == 16 ==> be_bytes(r->Ok_0) == bytes@,
        bytes@.len() != 16 ==> r == Err::<u128, Error<Backend, Codec>>(Error::KeySizeError),
{
    if bytes.len() != 16 {
        Err(Error::KeySizeError)
    } else {
        let id = decode_ulid_at(bytes, 0);
        proof {
            assert(bytes@.subrange(0, 16) =~= bytes@);
            lemma_bytes_of_value(bytes@);
        }
        Ok(id)
    }
}

impl IndexKey {
    /// The 48 bytes of the key.
    pub fn to_bytes(&self) -> (r: [u8; 48])
        ensures
            r@ == key_bytes(*self),
    {
        let first = encode_ulid(self.first);
        let second = encode_ulid(self.second);
        let third = encode_ulid(self.third);
        let mut out = [0u8;48];
        let mut i: usize = 0;
        while i < 16
            invariant
                i <= 16,
                out@.len() == 48,
                first@.len() == 16,
                second@.len() == 16,
                third@.len() == 16,
                forall|j: int| 0 <= j < i ==> out@[j] == first@[j],
                forall|j: int| 0 <= j < i ==> out@[16 + j] == second@[j],
                forall|j: int| 0 <= j < i ==> out@[32 + j] == third@[j],
            decreases 16 - i,
        {
            out[i] = first[i];
            out[16 + i] = second[i];
            out[32 + i] = third[i];
            i += 1;
        }
        out
    }

    /// The key that a stored key of 48 bytes spells. A key of another
    /// length is a key-size error.
    pub fn from_bytes<Backend, Codec>(bytes: &[u8]) -> (r: Result<IndexKey, Error<Backend, Codec>>)
        ensures
            bytes@.len() == 48 ==> r == Ok::<IndexKey, Error<Backend, Codec>>(key_of_bytes(bytes@)),
            bytes@.len() == 48 ==> key_bytes(r->Ok_0) == bytes@,
            bytes@.len() != 48 ==> r == Err::<IndexKey, Error<Backend, Codec>>(
                Error::KeySizeError,
            ),
    {
        if bytes.len() != 48 {
            Err(Error::KeySizeError)
        } else {
            let first = decode_ulid_at(bytes, 0);
            let second = decode_ulid_at(bytes, 16);
            let third = decode_ulid_at(bytes, 32);
            proof {
                lemma_key_bytes_of_key(bytes@);
            }
            Ok(IndexKey { first, second, third })
        }
    }
}

impl Triple {
    /// The 48 bytes of the triple's key in the index of the given order.
    pub open spec fn encoded(self, order: EdgeOrder) -> Seq<u8> {
        key_bytes(self.key_spec(order))
    }

    /// The triple whose key in the index of the given order the 48 bytes
    /// spell.
    pub open spec fn decoded(bytes: Seq<u8>, order: EdgeOrder) -> Triple {
        key_of_bytes(bytes).triple_spec(order)
    }

    /// The key of the triple in the index of the given order, as bytes.
    pub fn encode(&self, order: EdgeOrder) -> (r: [u8; 48])
        ensures
            r@ == self.encoded(order),
    {
        self.key(order).to_bytes()
    }

    /// The triple that a stored key of the index of the given order
    /// spells. A key that is not 48 bytes long is a key-size error.
    pub fn decode<Backend, Codec>(bytes: &[u8], order: EdgeOrder) -> (r: Result<
        Triple,
        Error<Backend, Codec>,
    >)
        ensures
            bytes@.len() == 48 ==> r == Ok::<Triple, Error<Backend, Codec>>(
                Triple::decoded(bytes@, order),
            ),
            bytes@.len() == 48 ==> r->Ok_0.encoded(order) == bytes@,
            bytes@.len() != 48 ==> r == Err::<Triple, Error<Backend, Codec>>(Error::KeySizeError),
    {
        match IndexKey::from_bytes(bytes) {
            Ok(key) => Ok(key.triple(order)),
            Err(e) => Err(e),
        }
    }

    /// Subject, predicate, object: 48 bytes.
    pub fn encode_spo(&self) -> (r: [u8; 48])
        ensures
            r@ == be_bytes(self.sub) + be_bytes(self.pred) + be_bytes(self.obj),
            r@ == self.encoded(EdgeOrder::SPO),
    {
        self.encode(EdgeOrder::SPO)
    }

    /// Predicate, object, subject: 48 bytes.
    pub fn encode_pos(&self) -> (r: [u8; 48])
        ensures
            r@ == be_bytes(self.pred) + be_bytes(self.obj) + be_bytes(self.sub),
            r@ == self.encoded(EdgeOrder::POS),
    {
        self.encode(EdgeOrder::POS)
    }

    /// Object, subject, predicate: 48 bytes.
    pub fn encode_osp(&self) -> (r: [u8; 48])
        ensures
            r@ == be_bytes(self.obj) + be_bytes(self.sub) + be_bytes(self.pred),
            r@ == self.encoded(EdgeOrder::OSP),
    {
        self.encode(EdgeOrder::OSP)
    }

    /// The triple that a key of the SPO index spells.
    pub fn decode_spo<Backend, Codec>(bytes: &[u8]) -> (r: Result<Triple, Error<Backend, Codec>>)
        ensures
            bytes@.len() == 48 ==> r == Ok::<Triple, Error<Backend, Codec>>(
                Triple::decoded(bytes@, EdgeOrder::SPO),
            ),
            bytes@.len() == 48 ==> r->Ok_0.encoded(EdgeOrder::SPO) == bytes@,
            bytes@.len() != 48 ==> r == Err::<Triple, Error<Backend, Codec>>(Error::KeySizeError),
    {
        Triple::decode(bytes, EdgeOrder::SPO)
    }

    /// The triple that a key of the POS index spells.
    pub fn decode_pos<Backend, Codec>(bytes: &[u8]) -> (r: Result<Triple, Error<Backend, Codec>>)
        ensures
            bytes@.len() == 48 ==> r == Ok::<Triple, Error<Backend, Codec>>(
                Triple::decoded(bytes@, EdgeOrder::POS),
            ),
            bytes@.len() == 48 ==> r->Ok_0.encoded(EdgeOrder::POS) == bytes@,
            bytes@.len() != 48 ==> r == Err::<Triple, Error<Backend, Codec>>(Error::KeySizeError),
    {
        Triple::decode(bytes, EdgeOrder::POS)
    }

    /// The triple that a key of the OSP index spells.
    pub fn decode_osp<Backend, Codec>(bytes: &[u8]) -> (r: Result<Triple, Error<Backend, Codec>>)
        ensures
            bytes@.len() == 48 ==> r == Ok::<Triple, Error<Backend, Codec>>(
                Triple::decoded(bytes@, EdgeOrder::OSP),
            ),
            bytes@.len() == 48 ==> r->Ok_0.encoded(EdgeOrder::OSP) == bytes@,
            bytes@.len() != 48 ==> r == Err::<Triple, Error<Backend, Codec>>(Error::KeySizeError),
    {
        Triple::decode(bytes, EdgeOrder::OSP)
    }
}

} // verus!
