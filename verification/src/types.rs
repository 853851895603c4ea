//! Plain-value primitives of the receipt model: 20-byte account addresses,
//! 32-byte words, the 2048-bit bloom filter and 256-bit unsigned integers
//! held as minimal big-endian bytes.

use vstd::prelude::*;

use crate::rlp::{be_bytes, be_value, lemma_be_bytes_len, lemma_be_bytes_minimal,
    lemma_trim_preserves_value, pow256, trim_zeros};

verus! {

/// Returns a vector of `n` zero bytes.
pub fn zero_bytes(n: usize) -> (r: Vec<u8>)
    ensures
        r@.len() == n,
        forall|i: int| 0 <= i < n ==> r@[i] == 0u8,
{
    let mut v: Vec<u8> = Vec::new();
    let mut i: usize = 0;
    while i < n
        invariant
            0 <= i <= n,
            v@.len() == i,
            forall|j: int| 0 <= j < i ==> v@[j] == 0u8,
        decreases n - i,
    {
        v.push(0);
        i = i + 1;
    }
    v
}

/// A 20-byte account identifier.
#[derive(Clone)]
pub struct Address {
    pub bytes: Vec<u8>,
}

impl Address {
    /// Well-formed: exactly 20 bytes.
    pub open spec fn wf(&self) -> bool {
        self.bytes@.len() == 20
    }

    /// Wraps 20 raw bytes as an address.
    pub fn new(bytes: Vec<u8>) -> (r: Address)
        requires
            bytes@.len() == 20,
        ensures
            r.bytes@ == bytes@,
            r.wf(),
    {
        Address { bytes }
    }

    /// The all-zero address.
    pub fn zero() -> (r: Address)
        ensures
            r.wf(),
            forall|i: int| 0 <= i < 20 ==> r.bytes@[i] == 0u8,
    {
        Address { bytes: zero_bytes(20) }
    }
}

/// A 32-byte word, as used for log topics.
#[derive(Clone)]
pub struct B256 {
    pub bytes: Vec<u8>,
}

impl B256 {
    /// Well-formed: exactly 32 bytes.
    pub open spec fn wf(&self) -> bool {
        self.bytes@.len() == 32
    }

    /// Wraps 32 raw bytes as a word.
    pub fn new(bytes: Vec<u8>) -> (r: B256)
        requires
            bytes@.len() == 32,
        ensures
            r.bytes@ == bytes@,
            r.wf(),
    {
        B256 { bytes }
    }

    /// The all-zero word.
    pub fn zero() -> (r: B256)
        ensures
            r.wf(),
            forall|i: int| 0 <= i < 32 ==> r.bytes@[i] == 0u8,
    {
        B256 { bytes: zero_bytes(32) }
    }
}

/// A 2048-bit bloom filter, stored as 256 bytes.
#[derive(Clone)]
pub struct Bloom {
    pub bytes: Vec<u8>,
}

impl Bloom {
    /// Well-formed: exactly 256 bytes.
    pub open spec fn wf(&self) -> bool {
        self.bytes@.len() == 256
    }

    /// The empty filter: all 2048 bits clear.
    pub fn zero() -> (r: Bloom)
        ensures
            r.wf(),
            forall|i: int| 0 <= i < 256 ==> r.bytes@[i] == 0u8,
    {
        Bloom { bytes: zero_bytes(256) }
    }
}

/// A 256-bit unsigned integer, stored as its minimal big-endian bytes
/// (no leading zero byte; the empty sequence stands for zero).
#[derive(Clone)]
pub struct U256 {
    pub bytes: Vec<u8>,
}

impl U256 {
    /// Well-formed: at most 32 bytes, with no leading zero byte.
    pub open spec fn wf(&self) -> bool {
        self.bytes@.len() <= 32 && (self.bytes@.len() > 0 ==> self.bytes@[0] != 0)
    }

    /// The number this integer denotes.
    pub open spec fn value(&self) -> nat {
        be_value(self.bytes@)
    }

    /// The integer zero.
    pub fn zero() -> (r: U256)
        ensures
            r.wf(),
            r.value() == 0,
    {
        let v: Vec<u8> = Vec::new();
        assert(be_value(Seq::<u8>::empty()) == 0);
        U256 { bytes: v }
    }

    /// The integer with the given 64-bit value.
    pub fn from_u64(v: u64) -> (r: U256)
        ensures
            r.wf(),
            r.value() == v as nat,
            r.bytes@ == be_bytes(v as nat),
    {
        let mut bytes: Vec<u8> = Vec::new();
        crate::rlp::push_be(v, &mut bytes);
        proof {
            assert(bytes@ =~= be_bytes(v as nat));
            assert(pow256(8) == 0x1_0000_0000_0000_0000) by {
                reveal_with_fuel(pow256, 9);
            }
            lemma_be_bytes_len(v as nat, 8);
            lemma_be_bytes_minimal(v as nat);
            crate::rlp::lemma_be_value_of_bytes(v as nat);
        }
        U256 { bytes }
    }

    /// The integer denoted by up to 32 big-endian bytes; leading zero bytes
    /// are removed so that the stored form is minimal.
    pub fn from_be_bytes(b: &Vec<u8>) -> (r: U256)
        requires
            b@.len() <= 32,
        ensures
            r.wf(),
            r.value() == be_value(b@),
            r.bytes@ == trim_zeros(b@),
    {
        let t = trim_leading_zeros(b);
        proof {
            lemma_trim_preserves_value(b@);
            lemma_trim_len(b@);
        }
        U256 { bytes: t }
    }
}

/// Trimming never lengthens a sequence.
pub proof fn lemma_trim_len(s: Seq<u8>)
    ensures
        trim_zeros(s).len() <= s.len(),
    decreases s.len(),
{
    if s.len() > 0 && s[0] == 0 {
        lemma_trim_len(s.drop_first());
    }
}

/// If the first `i` bytes are zero and byte `i` (if any) is not, trimming
/// yields the suffix from `i` on.
proof fn lemma_trim_at(s: Seq<u8>, i: int)
    requires
        0 <= i <= s.len(),
        forall|j: int| 0 <= j < i ==> s[j] == 0u8,
        i < s.len() ==> s[i] != 0u8,
    ensures
        trim_zeros(s) == s.skip(i),
    decreases i,
{
    if i == 0 {
        assert(s.skip(0) =~= s);
    } else {
        assert(s.len() > 0 && s[0] == 0);
        lemma_trim_at(s.drop_first(), i - 1);
        assert(s.drop_first().skip(i - 1) =~= s.skip(i));
    }
}

/// Returns `s` with its leading zero bytes removed.
pub fn trim_leading_zeros(s: &Vec<u8>) -> (r: Vec<u8>)
    ensures
        r@ == trim_zeros(s@),
{
    let mut i: usize = 0;
    while i < s.len() && s[i] == 0
        invariant
            0 <= i <= s@.len(),
            forall|j: int| 0 <= j < i ==> s@[j] == 0u8,
        decreases s@.len() - i,
    {
        i = i + 1;
    }
    proof {
        lemma_trim_at(s@, i as int);
    }
    let mut r: Vec<u8> = Vec::new();
    let mut k: usize = i;
    while k < s.len()
        invariant
            i <= k <= s@.len(),
            r@ == s@.subrange(i as int, k as int),
        decreases s@.len() - k,
    {
        r.push(s[k]);
        assert(s@.subrange(i as int, k + 1) =~= s@.subrange(i as int, k as int).push(
            s@[k as int],
        ));
        k = k + 1;
    }
    assert(s@.subrange(i as int, s@.len() as int) =~= s@.skip(i as int));
    r
}

} // verus!
