//! Mathematical model of the bit stream: what value a run of bits holds, in
//! both bit orderings, and how bit runs compose. The stream reader's bit- and
//! byte-level contracts are stated over these functions.

use vstd::prelude::*;

use vstd::arithmetic::div_mod::lemma_fundamental_div_mod;
use vstd::arithmetic::div_mod::lemma_fundamental_div_mod_converse;
use vstd::arithmetic::power2::lemma2_to64;
use vstd::arithmetic::power2::lemma_pow2_adds;
use vstd::arithmetic::power2::lemma_pow2_pos;
use vstd::arithmetic::power2::lemma_pow2_unfold;
use vstd::arithmetic::power2::pow2;

verus! {

/// Bit `i` of the stream in big-endian bit order: bit `7 - i % 8` of byte
/// `i / 8`, so each byte's most significant bit comes first.
pub open spec fn stream_bit_be(data: Seq<u8>, i: int) -> nat
    recommends
        0 <= i < data.len() * 8,
{
    ((data[i / 8] as nat) / pow2((7 - i % 8) as nat)) % 2
}

/// Bit `i` of the stream in little-endian bit order: bit `i % 8` of byte
/// `i / 8`, so each byte's least significant bit comes first.
pub open spec fn stream_bit_le(data: Seq<u8>, i: int) -> nat
    recommends
        0 <= i < data.len() * 8,
{
    ((data[i / 8] as nat) / pow2((i % 8) as nat)) % 2
}

/// Value of the `n` bits starting at bit position `p`, big-endian bit order:
/// the first bit is the most significant.
pub open spec fn bits_be(data: Seq<u8>, p: int, n: nat) -> nat
    decreases n,
{
    if n == 0 {
        0
    } else {
        bits_be(data, p, (n - 1) as nat) * 2 + stream_bit_be(data, p + n - 1)
    }
}

/// Value of the `n` bits starting at bit position `p`, little-endian bit
/// order: the first bit is the least significant.
pub open spec fn bits_le(data: Seq<u8>, p: int, n: nat) -> nat
    decreases n,
{
    if n == 0 {
        0
    } else {
        stream_bit_le(data, p) + 2 * bits_le(data, p + 1, (n - 1) as nat)
    }
}

/// Bytes interpreted as a big-endian unsigned integer.
pub open spec fn be_val(s: Seq<u8>) -> nat
    decreases s.len(),
{
    if s.len() == 0 {
        0
    } else {
        (be_val(s.drop_last()) * 256 + s.last()) as nat
    }
}

/// Bytes interpreted as a little-endian unsigned integer.
pub open spec fn le_val(s: Seq<u8>) -> nat
    decreases s.len(),
{
    if s.len() == 0 {
        0
    } else {
        (s[0] + 256 * le_val(s.subrange(1, s.len() as int))) as nat
    }
}

pub proof fn lemma_bits_be_bound(data: Seq<u8>, p: int, n: nat)
    ensures
        bits_be(data, p, n) < pow2(n),
    decreases n,
{
    if n == 0 {
        lemma2_to64();
    } else {
        lemma_bits_be_bound(data, p, (n - 1) as nat);
        lemma_pow2_unfold(n);
    }
}

pub proof fn lemma_bits_le_bound(data: Seq<u8>, p: int, n: nat)
    ensures
        bits_le(data, p, n) < pow2(n),
    decreases n,
{
    if n == 0 {
        lemma2_to64();
    } else {
        lemma_bits_le_bound(data, p + 1, (n - 1) as nat);
        lemma_pow2_unfold(n);
    }
}

pub proof fn lemma_be_val_bound(s: Seq<u8>)
    ensures
        be_val(s) < pow2((8 * s.len()) as nat),
    decreases s.len(),
{
    if s.len() == 0 {
        lemma2_to64();
    } else {
        lemma_be_val_bound(s.drop_last());
        lemma_pow2_adds((8 * (s.len() - 1)) as nat, 8);
        lemma2_to64();
    }
}

pub proof fn lemma_le_val_bound(s: Seq<u8>)
    ensures
        le_val(s) < pow2((8 * s.len()) as nat),
    decreases s.len(),
{
    if s.len() == 0 {
        lemma2_to64();
    } else {
        lemma_le_val_bound(s.subrange(1, s.len() as int));
        lemma_pow2_adds((8 * (s.len() - 1)) as nat, 8);
        lemma2_to64();
    }
}

/// Law: the `n1 + n2` bits at `p` are the `n1` bits at `p` followed by the
/// `n2` bits at `p + n1`; in big-endian bit order the first block is shifted
/// up by `n2` positions. Hence reading `n1` bits and then `n2` bits yields
/// the same combined value as reading `n1 + n2` bits in one call.
pub proof fn lemma_bits_be_split(data: Seq<u8>, p: int, n1: nat, n2: nat)
    ensures
        bits_be(data, p, (n1 + n2) as nat) == bits_be(data, p, n1) * pow2(n2) + bits_be(
            data,
            p + n1,
            n2,
        ),
    decreases n2,
{
    if n2 == 0 {
        lemma2_to64();
    } else {
        lemma_bits_be_split(data, p, n1, (n2 - 1) as nat);
        lemma_pow2_unfold(n2);
        let a = bits_be(data, p, n1);
        let q = pow2((n2 - 1) as nat);
        let b = bits_be(data, p + n1, (n2 - 1) as nat);
        let bit = stream_bit_be(data, p + n1 + n2 - 1);
        assert(bits_be(data, p, (n1 + n2) as nat) == (a * q + b) * 2 + bit);
        assert((a * q + b) * 2 + bit == a * (2 * q) + (b * 2 + bit)) by (nonlinear_arith);
    }
}

/// Law: the `n1 + n2` bits at `p` are the `n1` bits at `p` followed by the
/// `n2` bits at `p + n1`; in little-endian bit order the second block is
/// shifted up by `n1` positions. Hence reading `n1` bits and then `n2` bits
/// yields the same combined value as reading `n1 + n2` bits in one call.
pub proof fn lemma_bits_le_split(data: Seq<u8>, p: int, n1: nat, n2: nat)
    ensures
        bits_le(data, p, (n1 + n2) as nat) == bits_le(data, p, n1) + pow2(n1) * bits_le(
            data,
            p + n1,
            n2,
        ),
    decreases n1,
{
    if n1 == 0 {
        lemma2_to64();
    } else {
        lemma_bits_le_split(data, p + 1, (n1 - 1) as nat, n2);
        lemma_pow2_unfold(n1);
        let bit = stream_bit_le(data, p);
        let a = bits_le(data, p + 1, (n1 - 1) as nat);
        let q = pow2((n1 - 1) as nat);
        let b = bits_le(data, p + n1, n2);
        assert(bits_le(data, p, (n1 + n2) as nat) == bit + 2 * (a + q * b));
        assert(bit + 2 * (a + q * b) == (bit + 2 * a) + (2 * q) * b) by (nonlinear_arith);
    }
}

proof fn proof_div_mod_byte(p: int, q: int, j: int)
    requires
        0 <= j < 8,
        p == 8 * q,
    ensures
        (p + j) / 8 == q,
        (p + j) % 8 == j,
{
    lemma_fundamental_div_mod_converse(p + j, 8, q, j);
}

/// The eight bits of byte `q`, read most significant first, are the byte
/// itself.
pub proof fn lemma_bits_be_byte(data: Seq<u8>, q: int)
    requires
        0 <= q < data.len(),
    ensures
        bits_be(data, 8 * q, 8) == data[q],
{
    let b = data[q];
    let p = 8 * q;
    lemma2_to64();
    proof_div_mod_byte(p, q, 0);
    proof_div_mod_byte(p, q, 1);
    proof_div_mod_byte(p, q, 2);
    proof_div_mod_byte(p, q, 3);
    proof_div_mod_byte(p, q, 4);
    proof_div_mod_byte(p, q, 5);
    proof_div_mod_byte(p, q, 6);
    proof_div_mod_byte(p, q, 7);
    assert(stream_bit_be(data, p) == (b as nat) / pow2(7) % 2);
    assert(stream_bit_be(data, p + 1) == (b as nat) / pow2(6) % 2);
    assert(stream_bit_be(data, p + 2) == (b as nat) / pow2(5) % 2);
    assert(stream_bit_be(data, p + 3) == (b as nat) / pow2(4) % 2);
    assert(stream_bit_be(data, p + 4) == (b as nat) / pow2(3) % 2);
    assert(stream_bit_be(data, p + 5) == (b as nat) / pow2(2) % 2);
    assert(stream_bit_be(data, p + 6) == (b as nat) / pow2(1) % 2);
    assert(stream_bit_be(data, p + 7) == (b as nat) / pow2(0) % 2);
    assert(b / 128 % 2 * 128 + b / 64 % 2 * 64 + b / 32 % 2 * 32 + b / 16 % 2 * 16 + b / 8 % 2 * 8
        + b / 4 % 2 * 4 + b / 2 % 2 * 2 + b % 2 == b) by (bit_vector);
    assert(bits_be(data, p, 1) == bits_be(data, p, 0) * 2 + stream_bit_be(data, p));
    assert(bits_be(data, p, 2) == bits_be(data, p, 1) * 2 + stream_bit_be(data, p + 1));
    assert(bits_be(data, p, 3) == bits_be(data, p, 2) * 2 + stream_bit_be(data, p + 2));
    assert(bits_be(data, p, 4) == bits_be(data, p, 3) * 2 + stream_bit_be(data, p + 3));
    assert(bits_be(data, p, 5) == bits_be(data, p, 4) * 2 + stream_bit_be(data, p + 4));
    assert(bits_be(data, p, 6) == bits_be(data, p, 5) * 2 + stream_bit_be(data, p + 5));
    assert(bits_be(data, p, 7) == bits_be(data, p, 6) * 2 + stream_bit_be(data, p + 6));
    assert(bits_be(data, p, 8) == bits_be(data, p, 7) * 2 + stream_bit_be(data, p + 7));
}

/// The eight bits of byte `q`, read least significant first, are the byte
/// itself.
pub proof fn lemma_bits_le_byte(data: Seq<u8>, q: int)
    requires
        0 <= q < data.len(),
    ensures
        bits_le(data, 8 * q, 8) == data[q],
{
    let b = data[q];
    let p = 8 * q;
    lemma2_to64();
    proof_div_mod_byte(p, q, 0);
    proof_div_mod_byte(p, q, 1);
    proof_div_mod_byte(p, q, 2);
    proof_div_mod_byte(p, q, 3);
    proof_div_mod_byte(p, q, 4);
    proof_div_mod_byte(p, q, 5);
    proof_div_mod_byte(p, q, 6);
    proof_div_mod_byte(p, q, 7);
    assert(stream_bit_le(data, p) == (b as nat) / pow2(0) % 2);
    assert(stream_bit_le(data, p + 1) == (b as nat) / pow2(1) % 2);
    assert(stream_bit_le(data, p + 2) == (b as nat) / pow2(2) % 2);
    assert(stream_bit_le(data, p + 3) == (b as nat) / pow2(3) % 2);
    assert(stream_bit_le(data, p + 4) == (b as nat) / pow2(4) % 2);
    assert(stream_bit_le(data, p + 5) == (b as nat) / pow2(5) % 2);
    assert(stream_bit_le(data, p + 6) == (b as nat) / pow2(6) % 2);
    assert(stream_bit_le(data, p + 7) == (b as nat) / pow2(7) % 2);
    assert(b % 2 + b / 2 % 2 * 2 + b / 4 % 2 * 4 + b / 8 % 2 * 8 + b / 16 % 2 * 16 + b / 32 % 2
        * 32 + b / 64 % 2 * 64 + b / 128 % 2 * 128 == b) by (bit_vector);
    assert(bits_le(data, p + 7, 1) == stream_bit_le(data, p + 7) + 2 * bits_le(data, p + 8, 0));
    assert(bits_le(data, p + 6, 2) == stream_bit_le(data, p + 6) + 2 * bits_le(data, p + 7, 1));
    assert(bits_le(data, p + 5, 3) == stream_bit_le(data, p + 5) + 2 * bits_le(data, p + 6, 2));
    assert(bits_le(data, p + 4, 4) == stream_bit_le(data, p + 4) + 2 * bits_le(data, p + 5, 3));
    assert(bits_le(data, p + 3, 5) == stream_bit_le(data, p + 3) + 2 * bits_le(data, p + 4, 4));
    assert(bits_le(data, p + 2, 6) == stream_bit_le(data, p + 2) + 2 * bits_le(data, p + 3, 5));
    assert(bits_le(data, p + 1, 7) == stream_bit_le(data, p + 1) + 2 * bits_le(data, p + 2, 6));
    assert(bits_le(data, p, 8) == stream_bit_le(data, p) + 2 * bits_le(data, p + 1, 7));
}

/// The big-endian integer in bytes `[q, q + k)` is the value of the bits
/// starting at bit position `8 q`, big-endian bit order.
pub proof fn lemma_be_val_is_bits(data: Seq<u8>, q: int, k: nat)
    requires
        0 <= q,
        q + k <= data.len(),
    ensures
        be_val(data.subrange(q, q + k)) == bits_be(data, 8 * q, (8 * k) as nat),
    decreases k,
{
    let sub = data.subrange(q, q + k);
    if k == 0 {
        assert(sub =~= Seq::<u8>::empty());
    } else {
        assert(sub.drop_last() =~= data.subrange(q, q + k - 1));
        lemma_be_val_is_bits(data, q, (k - 1) as nat);
        lemma_bits_be_split(data, 8 * q, (8 * (k - 1)) as nat, 8);
        lemma_bits_be_byte(data, q + k - 1);
        lemma2_to64();
        assert(sub.last() == data[q + k - 1]);
    }
}

/// The little-endian integer in bytes `[q, q + k)` is the value of the bits
/// starting at bit position `8 q`, little-endian bit order.
pub proof fn lemma_le_val_is_bits(data: Seq<u8>, q: int, k: nat)
    requires
        0 <= q,
        q + k <= data.len(),
    ensures
        le_val(data.subrange(q, q + k)) == bits_le(data, 8 * q, (8 * k) as nat),
    decreases k,
{
    let sub = data.subrange(q, q + k);
    if k == 0 {
        assert(sub =~= Seq::<u8>::empty());
    } else {
        assert(sub.subrange(1, sub.len() as int) =~= data.subrange(q + 1, q + k));
        lemma_le_val_is_bits(data, q + 1, (k - 1) as nat);
        lemma_bits_le_split(data, 8 * q, 8, (8 * (k - 1)) as nat);
        lemma_bits_le_byte(data, q);
        lemma2_to64();
        assert(sub[0] == data[q]);
    }
}

} // verus!
