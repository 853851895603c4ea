//! Core RLP building blocks: minimal big-endian integers, string and list
//! headers, and the executable routines that append those encodings to a
//! byte buffer.

use vstd::prelude::*;

verus! {

/// Minimal big-endian byte representation of a natural number; empty for zero.
pub open spec fn be_bytes(n: nat) -> Seq<u8>
    decreases n,
{
    if n == 0 {
        Seq::empty()
    } else {
        be_bytes(n / 256).push((n % 256) as u8)
    }
}

/// 256 raised to the power `k`.
pub open spec fn pow256(k: nat) -> nat
    decreases k,
{
    if k == 0 {
        1
    } else {
        256 * pow256((k - 1) as nat)
    }
}

/// The value that a big-endian byte sequence denotes.
pub open spec fn be_value(s: Seq<u8>) -> nat
    decreases s.len(),
{
    if s.len() == 0 {
        0
    } else {
        (be_value(s.drop_last()) * 256 + s.last()) as nat
    }
}

/// The byte sequence with its leading zero bytes removed.
pub open spec fn trim_zeros(s: Seq<u8>) -> Seq<u8>
    decreases s.len(),
{
    if s.len() > 0 && s[0] == 0 {
        trim_zeros(s.drop_first())
    } else {
        s
    }
}

/// Header of an RLP item whose payload is `len` bytes long: a single tagged
/// byte for short payloads, otherwise a tag holding the length of the length
/// followed by the big-endian length itself.
pub open spec fn rlp_header(base_short: u8, base_long: u8, len: nat) -> Seq<u8> {
    if len < 56 {
        seq![(base_short + len) as u8]
    } else {
        seq![(base_long + be_bytes(len).len()) as u8] + be_bytes(len)
    }
}

/// RLP encoding of a byte string: a single byte below 0x80 stands for itself,
/// anything else is prefixed with a string header.
pub open spec fn rlp_string(s: Seq<u8>) -> Seq<u8> {
    if s.len() == 1 && s[0] < 0x80 {
        s
    } else {
        rlp_header(0x80, 0xb7, s.len()) + s
    }
}

/// RLP encoding of a list whose concatenated element encodings are `payload`.
pub open spec fn rlp_list(payload: Seq<u8>) -> Seq<u8> {
    rlp_header(0xc0, 0xf7, payload.len()) + payload
}

/// RLP encoding of an unsigned integer: its minimal big-endian bytes,
/// encoded as a string.
pub open spec fn rlp_uint(n: nat) -> Seq<u8> {
    rlp_string(be_bytes(n))
}

/// A number below `pow256(k)` needs at most `k` big-endian bytes.
pub proof fn lemma_be_bytes_len(n: nat, k: nat)
    requires
        n < pow256(k),
    ensures
        be_bytes(n).len() <= k,
    decreases k,
{
    if n == 0 {
    } else {
        assert(k > 0) by {
            if k == 0 {
                assert(pow256(0) == 1);
            }
        }
        assert(n / 256 < pow256((k - 1) as nat)) by (nonlinear_arith)
            requires
                n < 256 * pow256((k - 1) as nat),
        ;
        lemma_be_bytes_len(n / 256, (k - 1) as nat);
    }
}

/// The minimal big-endian bytes of a positive number start with a non-zero byte.
pub proof fn lemma_be_bytes_minimal(n: nat)
    ensures
        n > 0 ==> be_bytes(n).len() > 0 && be_bytes(n)[0] != 0,
    decreases n,
{
    if n > 0 {
        lemma_be_bytes_minimal(n / 256);
        assert(be_bytes(n) == be_bytes(n / 256).push((n % 256) as u8));
        if n / 256 == 0 {
            assert(be_bytes(0) =~= Seq::<u8>::empty());
            assert(n < 256);
            assert(n % 256 == n);
            assert(be_bytes(n)[0] == (n % 256) as u8);
        } else {
            assert(be_bytes(n / 256).len() > 0);
            assert(be_bytes(n)[0] == be_bytes(n / 256)[0]);
        }
    }
}

/// Round trip: the minimal big-endian bytes of the value a sequence denotes
/// are that sequence with its leading zeros removed.
pub proof fn lemma_be_bytes_of_value(s: Seq<u8>)
    requires
        s.len() == 0 || s[0] != 0,
    ensures
        be_bytes(be_value(s)) == s,
    decreases s.len(),
{
    if s.len() == 0 {
        assert(be_bytes(0) =~= Seq::<u8>::empty());
    } else {
        let s0 = s.drop_last();
        let b = s.last();
        let v0 = be_value(s0);
        let v: nat = (v0 * 256 + b) as nat;
        assert(be_value(s) == v);
        if s0.len() == 0 {
            assert(b != 0);
            assert(v == b);
            assert(v / 256 == 0 && v % 256 == b) by (nonlinear_arith)
                requires
                    v == b as nat && b < 256 && b > 0,
            ;
            assert(be_bytes(v) =~= be_bytes(0).push(b));
            assert(be_bytes(v) =~= s);
        } else {
            assert(s0[0] == s[0]);
            lemma_be_bytes_of_value(s0);
            assert(v0 > 0) by {
                if v0 == 0 {
                    assert(be_bytes(0) =~= Seq::<u8>::empty());
                    assert(s0.len() == 0);
                    assert(false);
                }
            }
            assert(v > 0 && v / 256 == v0 && v % 256 == b) by (nonlinear_arith)
                requires
                    v == v0 * 256 + b && b < 256 && v0 > 0,
            ;
            assert(be_bytes(v) =~= be_bytes(v0).push(b));
            assert(s =~= s0.push(b));
        }
    }
}

/// The minimal big-endian bytes of `n` denote `n`.
pub proof fn lemma_be_value_of_bytes(n: nat)
    ensures
        be_value(be_bytes(n)) == n,
    decreases n,
{
    if n == 0 {
    } else {
        lemma_be_value_of_bytes(n / 256);
        let s = be_bytes(n);
        assert(s == be_bytes(n / 256).push((n % 256) as u8));
        assert(s.drop_last() =~= be_bytes(n / 256));
        assert(s.last() == (n % 256) as u8);
        assert(be_value(s) == ((n / 256) * 256 + n % 256) as nat);
        assert((n / 256) * 256 + n % 256 == n) by (nonlinear_arith);
    }
}

/// Leading zero bytes do not change the denoted value.
pub proof fn lemma_trim_preserves_value(s: Seq<u8>)
    ensures
        be_value(trim_zeros(s)) == be_value(s),
        trim_zeros(s).len() == 0 || trim_zeros(s)[0] != 0,
    decreases s.len(),
{
    if s.len() > 0 && s[0] == 0 {
        lemma_drop_first_zero_value(s);
        lemma_trim_preserves_value(s.drop_first());
    }
}

/// Dropping a leading zero byte keeps the denoted value.
proof fn lemma_drop_first_zero_value(s: Seq<u8>)
    requires
        s.len() > 0,
        s[0] == 0,
    ensures
        be_value(s.drop_first()) == be_value(s),
    decreases s.len(),
{
    if s.len() == 1 {
        assert(s.drop_first() =~= Seq::<u8>::empty());
        assert(s.drop_last() =~= Seq::<u8>::empty());
        assert(be_value(Seq::<u8>::empty()) == 0);
        assert(s.last() == s[0]);
        assert(be_value(s) == (be_value(s.drop_last()) * 256 + s.last()) as nat);
        assert(be_value(s) == (0 * 256 + s.last()) as nat);
    } else {
        let t = s.drop_last();
        assert(t.len() > 0);
        assert(t[0] == 0);
        lemma_drop_first_zero_value(t);
        assert(s.drop_first().drop_last() =~= t.drop_first());
        assert(s.drop_first().last() == s.last());
        assert(be_value(s.drop_first()) == be_value(t.drop_first()) * 256 + s.last());
    }
}

/// Trimming leading zeros yields the minimal big-endian form of the value.
pub proof fn lemma_trim_is_be_bytes(s: Seq<u8>)
    ensures
        trim_zeros(s) == be_bytes(be_value(s)),
{
    lemma_trim_preserves_value(s);
    lemma_be_bytes_of_value(trim_zeros(s));
}

/// Appends the minimal big-endian bytes of `v` to `out`.
pub fn push_be(v: u64, out: &mut Vec<u8>)
    ensures
        final(out)@ == old(out)@ + be_bytes(v as nat),
    decreases v,
{
    if v == 0 {
        assert(old(out)@ + be_bytes(0) =~= old(out)@);
    } else {
        assert(v / 256 < v) by (nonlinear_arith)
            requires
                v > 0,
        ;
        push_be(v / 256, out);
        out.push((v % 256) as u8);
        assert(old(out)@ + be_bytes(v as nat) =~= (old(out)@ + be_bytes((v / 256) as nat)).push(
            (v % 256) as u8,
        ));
    }
}

/// Appends the RLP header for a payload of `len` bytes, with the short and
/// long base tags of either the string or the list form.
pub fn push_header(base_short: u8, base_long: u8, len: usize, out: &mut Vec<u8>)
    requires
        base_short == 0x80 || base_short == 0xc0,
        base_long == base_short + 0x37,
    ensures
        final(out)@ == old(out)@ + rlp_header(base_short, base_long, len as nat),
{
    if len < 56 {
        out.push(base_short + len as u8);
        assert(old(out)@ + rlp_header(base_short, base_long, len as nat) =~= old(out)@.push(
            (base_short + len) as u8,
        ));
    } else {
        let mut tmp: Vec<u8> = Vec::new();
        push_be(len as u64, &mut tmp);
        proof {
            assert(pow256(8) == 0x1_0000_0000_0000_0000) by {
                reveal_with_fuel(pow256, 9);
            }
            lemma_be_bytes_len(len as nat, 8);
            lemma_be_bytes_minimal(len as nat);
        }
        out.push(base_long + tmp.len() as u8);
        out.append(&mut tmp);
        assert(old(out)@ + rlp_header(base_short, base_long, len as nat) =~= old(out)@.push(
            (base_long + be_bytes(len as nat).len()) as u8,
        ) + be_bytes(len as nat));
    }
}

/// Appends every byte of `s` to `out`.
pub fn push_bytes(s: &Vec<u8>, out: &mut Vec<u8>)
    ensures
        final(out)@ == old(out)@ + s@,
{
    let mut i: usize = 0;
    while i < s.len()
        invariant
            0 <= i <= s@.len(),
            out@ == old(out)@ + s@.take(i as int),
        decreases s@.len() - i,
    {
        out.push(s[i]);
        proof {
            assert(s@.take(i + 1) =~= s@.take(i as int).push(s@[i as int]));
            assert(old(out)@ + s@.take(i + 1) =~= (old(out)@ + s@.take(i as int)).push(
                s@[i as int],
            ));
        }
        i = i + 1;
    }
    assert(s@.take(s@.len() as int) =~= s@);
}

/// Appends the RLP encoding of the byte string `s` to `out`.
pub fn push_string(s: &Vec<u8>, out: &mut Vec<u8>)
    ensures
        final(out)@ == old(out)@ + rlp_string(s@),
{
    if s.len() == 1 && s[0] < 0x80 {
        out.push(s[0]);
        assert(old(out)@ + rlp_string(s@) =~= old(out)@.push(s@[0]));
    } else {
        push_header(0x80, 0xb7, s.len(), out);
        push_bytes(s, out);
        assert(old(out)@ + rlp_string(s@) =~= (old(out)@ + rlp_header(0x80, 0xb7, s@.len()))
            + s@);
    }
}

/// Returns the number of bytes in the minimal big-endian form of `v`.
pub fn be_len(v: u64) -> (r: usize)
    ensures
        r as nat == be_bytes(v as nat).len(),
        r <= 8,
{
    proof {
        assert(pow256(8) == 0x1_0000_0000_0000_0000) by {
            reveal_with_fuel(pow256, 9);
        }
        lemma_be_bytes_len(v as nat, 8);
    }
    let mut c: usize = 0;
    let mut x = v;
    while x > 0
        invariant
            be_bytes(v as nat).len() == c + be_bytes(x as nat).len(),
            be_bytes(v as nat).len() <= 8,
            c <= 8,
        decreases x,
    {
        assert(x / 256 < x) by (nonlinear_arith)
            requires
                x > 0,
        ;
        assert(be_bytes(x as nat) == be_bytes((x / 256) as nat).push((x % 256) as u8));
        x = x / 256;
        c = c + 1;
    }
    c
}

/// Returns the length of an RLP header for a payload of `len` bytes; the
/// string form and the list form have headers of the same length.
pub fn header_len(len: usize) -> (r: usize)
    ensures
        r as nat == rlp_header(0x80, 0xb7, len as nat).len(),
        r as nat == rlp_header(0xc0, 0xf7, len as nat).len(),
        1 <= r <= 9,
{
    if len < 56 {
        1
    } else {
        1 + be_len(len as u64)
    }
}

/// Returns the length of the RLP encoding of the byte string `s`.
pub fn rlp_string_len(s: &Vec<u8>) -> (r: usize)
    requires
        rlp_string(s@).len() <= usize::MAX,
    ensures
        r as nat == rlp_string(s@).len(),
{
    if s.len() == 1 && s[0] < 0x80 {
        1
    } else {
        let hl = header_len(s.len());
        hl + s.len()
    }
}

/// Returns the length of the RLP encoding of the unsigned integer `v`.
pub fn rlp_uint_len(v: u64) -> (r: usize)
    ensures
        r as nat == rlp_uint(v as nat).len(),
        1 <= r <= 9,
{
    let bl = be_len(v);
    if v == 0 {
        assert(be_bytes(0) =~= Seq::<u8>::empty());
        assert(rlp_uint(0) =~= seq![0x80u8]);
        1
    } else if v < 0x80 {
        proof {
            assert(be_bytes((v / 256) as nat) =~= Seq::<u8>::empty());
            assert(be_bytes(v as nat) =~= seq![(v % 256) as u8]);
        }
        1
    } else {
        proof {
            lemma_be_bytes_minimal(v as nat);
            if be_bytes(v as nat).len() == 1 {
                assert(be_bytes(v as nat) == be_bytes((v / 256) as nat).push((v % 256) as u8));
                assert(be_bytes((v / 256) as nat).len() == 0);
                assert(v / 256 > 0 ==> be_bytes((v / 256) as nat).len() > 0) by {
                    lemma_be_bytes_minimal((v / 256) as nat);
                }
                assert(v / 256 == 0);
                assert(be_bytes(v as nat)[0] == (v % 256) as u8);
                assert(v % 256 == v);
            }
        }
        1 + bl
    }
}

/// Appends the RLP encoding of the unsigned integer `v` to `out`.
pub fn push_uint(v: u64, out: &mut Vec<u8>)
    ensures
        final(out)@ == old(out)@ + rlp_uint(v as nat),
{
    let mut tmp: Vec<u8> = Vec::new();
    push_be(v, &mut tmp);
    assert(tmp@ =~= be_bytes(v as nat));
    push_string(&tmp, out);
}

} // verus!
