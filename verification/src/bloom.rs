//! Derivation of the 2048-bit logs bloom filter: each filter input (an
//! address or a topic) is hashed and sets three bits; the filter of a log
//! sequence is the bitwise union of all contributions.

use vstd::prelude::*;

verus! {

/// What the Keccak-256 hash of a byte sequence is; a function of the bytes
/// alone, left unstated.
pub uninterp spec fn keccak_of(input: Seq<u8>) -> Seq<u8>;

/// Relies on alloy_primitives::keccak256: the 32-byte Keccak-256 digest,
/// a function of the input bytes alone.
#[verifier::external_body]
fn keccak256(input: &Vec<u8>) -> (r: Vec<u8>)
    ensures
        r@ == keccak_of(input@),
        r@.len() == 32,
{
    alloy_primitives::keccak256(input.as_slice()).to_vec()
}

/// One of the three bit indices (0 <= i < 3) that a hash selects: the low
/// 11 bits of the big-endian pair of hash bytes 2i and 2i+1.
pub open spec fn bloom_bit(h: Seq<u8>, i: int) -> nat {
    ((h[2 * i] % 8) * 256 + h[2 * i + 1]) as nat
}

/// The 256-byte sequence with exactly bit `bit` set (0 <= bit < 2048):
/// bytes are stored high-to-low, bits within a byte low-to-high.
pub open spec fn bit_mask(bit: nat) -> Seq<u8> {
    Seq::new(256, |i: int| if i == 255 - bit / 8 {
        1u8 << (bit % 8) as u8
    } else {
        0u8
    })
}

/// Bytewise OR; defined for sequences of equal length.
pub open spec fn bloom_or(a: Seq<u8>, b: Seq<u8>) -> Seq<u8> {
    Seq::new(a.len(), |i: int| a[i] | b[i])
}

/// The filter with all 2048 bits clear.
pub open spec fn zero_bloom() -> Seq<u8> {
    Seq::new(256, |i: int| 0u8)
}

/// The three-bit contribution of one filter input.
pub open spec fn input_mask(input: Seq<u8>) -> Seq<u8> {
    let h = keccak_of(input);
    bloom_or(
        bloom_or(bit_mask(bloom_bit(h, 0)), bit_mask(bloom_bit(h, 1))),
        bit_mask(bloom_bit(h, 2)),
    )
}

/// What the filter reads of one log: its address bytes, and its topic words
/// in order. The log's data contributes nothing.
pub type BloomKey = (Seq<u8>, Seq<Seq<u8>>);

/// The union of the contributions of a sequence of topic words.
pub open spec fn topics_mask(ts: Seq<Seq<u8>>) -> Seq<u8>
    decreases ts.len(),
{
    if ts.len() == 0 {
        zero_bloom()
    } else {
        bloom_or(topics_mask(ts.drop_last()), input_mask(ts.last()))
    }
}

/// The contribution of one log: address bits and topic bits.
pub open spec fn key_mask(k: BloomKey) -> Seq<u8> {
    bloom_or(input_mask(k.0), topics_mask(k.1))
}

/// The filter derived from a log sequence: the union of every log's
/// contribution, starting from the empty filter.
pub open spec fn bloom_of_keys(keys: Seq<BloomKey>) -> Seq<u8>
    decreases keys.len(),
{
    if keys.len() == 0 {
        zero_bloom()
    } else {
        bloom_or(bloom_of_keys(keys.drop_last()), key_mask(keys.last()))
    }
}

/// Bytewise OR keeps the length of its first argument.
pub proof fn lemma_or_len(a: Seq<u8>, b: Seq<u8>)
    ensures
        bloom_or(a, b).len() == a.len(),
{
}

/// Every mask is 256 bytes long.
pub proof fn lemma_topics_mask_len(ts: Seq<Seq<u8>>)
    ensures
        topics_mask(ts).len() == 256,
    decreases ts.len(),
{
    if ts.len() > 0 {
        lemma_topics_mask_len(ts.drop_last());
    }
}

/// The derived filter is 256 bytes long.
pub proof fn lemma_bloom_of_keys_len(keys: Seq<BloomKey>)
    ensures
        bloom_of_keys(keys).len() == 256,
    decreases keys.len(),
{
    if keys.len() > 0 {
        lemma_bloom_of_keys_len(keys.drop_last());
    }
}

/// Bytewise OR is commutative on equal-length sequences.
pub proof fn lemma_or_comm(a: Seq<u8>, b: Seq<u8>)
    requires
        a.len() == b.len(),
    ensures
        bloom_or(a, b) == bloom_or(b, a),
{
    assert forall|i: int| 0 <= i < a.len() implies bloom_or(a, b)[i] == bloom_or(b, a)[i] by {
        let x = a[i];
        let y = b[i];
        assert(x | y == y | x) by (bit_vector);
    }
    assert(bloom_or(a, b) =~= bloom_or(b, a));
}

/// Bytewise OR is associative on equal-length sequences.
pub proof fn lemma_or_assoc(a: Seq<u8>, b: Seq<u8>, c: Seq<u8>)
    requires
        a.len() == b.len(),
        b.len() == c.len(),
    ensures
        bloom_or(bloom_or(a, b), c) == bloom_or(a, bloom_or(b, c)),
{
    assert forall|i: int| 0 <= i < a.len() implies bloom_or(bloom_or(a, b), c)[i] == bloom_or(
        a,
        bloom_or(b, c),
    )[i] by {
        let x = a[i];
        let y = b[i];
        let z = c[i];
        assert((x | y) | z == x | (y | z)) by (bit_vector);
    }
    assert(bloom_or(bloom_or(a, b), c) =~= bloom_or(a, bloom_or(b, c)));
}

/// The empty filter is a unit for the union.
pub proof fn lemma_or_zero(a: Seq<u8>)
    requires
        a.len() == 256,
    ensures
        bloom_or(zero_bloom(), a) == a,
        bloom_or(a, zero_bloom()) == a,
{
    assert forall|i: int| 0 <= i < 256 implies bloom_or(zero_bloom(), a)[i] == a[i] && bloom_or(
        a,
        zero_bloom(),
    )[i] == a[i] by {
        let x = a[i];
        assert(0u8 | x == x) by (bit_vector);
        assert(x | 0u8 == x) by (bit_vector);
    }
    assert(bloom_or(zero_bloom(), a) =~= a);
    assert(bloom_or(a, zero_bloom()) =~= a);
}

/// Removing element `j` and OR-ing its contribution back yields the whole.
proof fn lemma_bloom_of_keys_remove(keys: Seq<BloomKey>, j: int)
    requires
        0 <= j < keys.len(),
    ensures
        bloom_of_keys(keys) == bloom_or(bloom_of_keys(keys.remove(j)), key_mask(keys[j])),
    decreases keys.len(),
{
    lemma_bloom_of_keys_len(keys.remove(j));
    lemma_bloom_of_keys_len(keys.drop_last());
    lemma_topics_mask_len(keys[j].1);
    lemma_topics_mask_len(keys.last().1);
    if j == keys.len() - 1 {
        assert(keys.remove(j) =~= keys.drop_last());
    } else {
        let d = keys.drop_last();
        assert(keys.remove(j).drop_last() =~= d.remove(j));
        assert(keys.remove(j).last() == keys.last());
        assert(keys.remove(j).len() > 0);
        lemma_bloom_of_keys_remove(d, j);
        lemma_bloom_of_keys_len(d.remove(j));
        // or(or(A, M_j), M_last) == or(or(A, M_last), M_j)
        let a = bloom_of_keys(d.remove(j));
        let m1 = key_mask(keys[j]);
        let m2 = key_mask(keys.last());
        lemma_or_assoc(a, m1, m2);
        lemma_or_comm(m1, m2);
        lemma_or_assoc(a, m2, m1);
        assert(bloom_of_keys(keys) == bloom_or(bloom_or(a, m1), m2));
        assert(bloom_of_keys(keys.remove(j)) == bloom_or(a, m2));
    }
}

/// The union is idempotent.
proof fn lemma_or_idem(a: Seq<u8>)
    ensures
        bloom_or(a, a) == a,
{
    assert forall|i: int| 0 <= i < a.len() implies bloom_or(a, a)[i] == a[i] by {
        let x = a[i];
        assert(x | x == x) by (bit_vector);
    }
    assert(bloom_or(a, a) =~= a);
}

/// Every contribution is 256 bytes long.
pub proof fn lemma_key_mask_len(k: BloomKey)
    ensures
        key_mask(k).len() == 256,
{
}

/// A contribution already present in the sequence is absorbed: OR-ing it
/// once more changes nothing.
proof fn lemma_bloom_absorb(keys: Seq<BloomKey>, x: BloomKey)
    requires
        keys.contains(x),
    ensures
        bloom_or(bloom_of_keys(keys), key_mask(x)) == bloom_of_keys(keys),
{
    let j = choose|j: int| 0 <= j < keys.len() && keys[j] == x;
    lemma_bloom_of_keys_remove(keys, j);
    let a = bloom_of_keys(keys.remove(j));
    let m = key_mask(x);
    lemma_bloom_of_keys_len(keys.remove(j));
    lemma_key_mask_len(x);
    lemma_or_assoc(a, m, m);
    lemma_or_idem(m);
}

/// When every key of `k1` occurs in `k2`, OR-ing the first filter into the
/// second changes nothing.
proof fn lemma_bloom_subset_absorb(k1: Seq<BloomKey>, k2: Seq<BloomKey>)
    requires
        forall|x: BloomKey| k1.contains(x) ==> k2.contains(x),
    ensures
        bloom_or(bloom_of_keys(k2), bloom_of_keys(k1)) == bloom_of_keys(k2),
    decreases k1.len(),
{
    lemma_bloom_of_keys_len(k1);
    lemma_bloom_of_keys_len(k2);
    if k1.len() == 0 {
        lemma_or_zero(bloom_of_keys(k2));
    } else {
        let d = k1.drop_last();
        let x = k1.last();
        assert forall|y: BloomKey| d.contains(y) implies k2.contains(y) by {
            let i = choose|i: int| 0 <= i < d.len() && d[i] == y;
            assert(k1[i] == y);
            assert(k1.contains(y));
        }
        lemma_bloom_subset_absorb(d, k2);
        assert(k1[k1.len() - 1] == x);
        assert(k1.contains(x));
        lemma_bloom_absorb(k2, x);
        lemma_bloom_of_keys_len(d);
        lemma_key_mask_len(x);
        lemma_or_assoc(bloom_of_keys(k2), bloom_of_keys(d), key_mask(x));
    }
}

/// The derived filter is a function of the set of (address, topics)
/// contributions alone: two key sequences with the same set of keys derive
/// the same filter, whatever their order or repetitions.
pub proof fn lemma_bloom_set_independent(k1: Seq<BloomKey>, k2: Seq<BloomKey>)
    requires
        k1.to_set() == k2.to_set(),
    ensures
        bloom_of_keys(k1) == bloom_of_keys(k2),
{
    assert forall|x: BloomKey| k1.contains(x) implies k2.contains(x) by {
        assert(k1.to_set().contains(x));
        assert(k2.to_set().contains(x));
    }
    assert forall|x: BloomKey| k2.contains(x) implies k1.contains(x) by {
        assert(k2.to_set().contains(x));
        assert(k1.to_set().contains(x));
    }
    lemma_bloom_subset_absorb(k1, k2);
    lemma_bloom_subset_absorb(k2, k1);
    lemma_bloom_of_keys_len(k1);
    lemma_bloom_of_keys_len(k2);
    lemma_or_comm(bloom_of_keys(k1), bloom_of_keys(k2));
}

/// Sets the three bits that `input` selects: ORs `input_mask(input@)` into
/// the filter.
pub fn accrue(bloom: &mut Vec<u8>, input: &Vec<u8>)
    requires
        old(bloom)@.len() == 256,
    ensures
        final(bloom)@ == bloom_or(old(bloom)@, input_mask(input@)),
{
    let h = keccak256(input);
    let ghost entry = bloom@;
    let mut i: usize = 0;
    while i < 3
        invariant
            0 <= i <= 3,
            h@ == keccak_of(input@),
            h@.len() == 32,
            bloom@.len() == 256,
            bloom@ == partial_mask_or(entry, keccak_of(input@), i as int),
        decreases 3 - i,
    {
        let hi = h[2 * i];
        let lo = h[2 * i + 1];
        let bit: usize = (hi as usize % 8) * 256 + lo as usize;
        let idx: usize = 255 - bit / 8;
        let shift: u8 = (bit % 8) as u8;
        let b = bloom[idx];
        bloom[idx] = b | (1u8 << shift);
        proof {
            let gb = bloom@;
            let prev = partial_mask_or(entry, keccak_of(input@), i as int);
            let bitn = bloom_bit(keccak_of(input@), i as int);
            assert(bitn == bit as nat);
            assert(gb =~= bloom_or(prev, bit_mask(bitn))) by {
                assert forall|k: int| 0 <= k < 256 implies gb[k] == bloom_or(
                    prev,
                    bit_mask(bitn),
                )[k] by {
                    if k == idx as int {
                    } else {
                        let x = prev[k];
                        assert(x | 0u8 == x) by (bit_vector);
                    }
                }
            }
        }
        i = i + 1;
    }
    proof {
        lemma_partial_mask_full(entry, keccak_of(input@));
    }
}

/// The filter after the first `i` of the three bits of a contribution.
pub open spec fn partial_mask_or(b: Seq<u8>, h: Seq<u8>, i: int) -> Seq<u8>
    decreases i,
{
    if i <= 0 {
        b
    } else {
        bloom_or(partial_mask_or(b, h, i - 1), bit_mask(bloom_bit(h, i - 1)))
    }
}

/// After all three bits, the contribution equals `input_mask`.
proof fn lemma_partial_mask_full(b: Seq<u8>, h: Seq<u8>)
    requires
        b.len() == 256,
    ensures
        partial_mask_or(b, h, 3) == bloom_or(b, bloom_or(
            bloom_or(bit_mask(bloom_bit(h, 0)), bit_mask(bloom_bit(h, 1))),
            bit_mask(bloom_bit(h, 2)),
        )),
{
    let m0 = bit_mask(bloom_bit(h, 0));
    let m1 = bit_mask(bloom_bit(h, 1));
    let m2 = bit_mask(bloom_bit(h, 2));
    lemma_or_assoc(b, m0, m1);
    lemma_or_len(bloom_or(m0, m1), m2);
    lemma_or_assoc(b, bloom_or(m0, m1), m2);
    assert(partial_mask_or(b, h, 0) == b);
    assert(partial_mask_or(b, h, 1) == bloom_or(b, m0));
    assert(partial_mask_or(b, h, 2) == bloom_or(bloom_or(b, m0), m1));
    assert(partial_mask_or(b, h, 3) == bloom_or(bloom_or(bloom_or(b, m0), m1), m2));
}

} // verus!
