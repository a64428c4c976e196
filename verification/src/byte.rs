//! One byte as eight bits: which bits are set, how many, and the byte they make.

use vstd::prelude::*;
use crate::model::{
    count_ones, lemma_count_ones_none, lemma_count_ones_take_next, lemma_count_ones_update, one_if,
};

verus! {

/// Whether bit `k` of `b` is set. Bit 0 is the least significant one.
pub open spec fn bit8(b: u8, k: u8) -> bool {
    (b >> k) & 1 == 1
}

/// The eight bits of `b`, bit 0 first.
pub open spec fn byte_bits(b: u8) -> Seq<bool> {
    Seq::new(8, |k: int| bit8(b, k as u8))
}

/// What a bit adds to the value of its byte: `weight` where it is set.
pub open spec fn bit_value(set: bool, weight: int) -> int {
    if set {
        weight
    } else {
        0
    }
}

/// The byte made of the first eight entries of `bits`, entry 0 being bit 0.
pub open spec fn pack_byte(bits: Seq<bool>) -> u8 {
    (bit_value(bits[0], 1) + bit_value(bits[1], 2) + bit_value(bits[2], 4) + bit_value(bits[3], 8)
        + bit_value(bits[4], 16) + bit_value(bits[5], 32) + bit_value(bits[6], 64) + bit_value(
        bits[7],
        128,
    )) as u8
}

/// The number of bits set in `b`.
pub open spec fn byte_popcount(b: u8) -> nat {
    count_ones(byte_bits(b))
}

/// Counts the bits that are set in one byte.
pub fn popcount8(b: u8) -> (count: u8)
    ensures
        count == byte_popcount(b),
        count <= 8,
{
    let mut count: u8 = 0;
    for i in 0u8..8
        invariant
            count == count_ones(byte_bits(b).take(i as int)),
            count <= i,
    {
        proof {
            lemma_bit8_by_shift(b, i);
            lemma_count_ones_take_next(byte_bits(b), i as int);
        }
        count += (b >> i) & 1;
    }
    proof {
        assert(byte_bits(b).take(8) =~= byte_bits(b));
    }
    count
}

/// Bit `k`, shifted down to the lowest place and masked, is 0 or 1.
pub proof fn lemma_bit8_by_shift(b: u8, k: u8)
    by (bit_vector)
    requires
        k < 8,
    ensures
        (b >> k) & 1 == 0 || (b >> k) & 1 == 1,
{
}

/// Masking with a single bit tests that bit.
pub proof fn lemma_bit8_by_mask(b: u8, k: u8)
    by (bit_vector)
    requires
        k < 8,
    ensures
        (b & (1u8 << k) != 0) == bit8(b, k),
{
}

/// Setting bit `k` sets that bit and leaves the other seven.
pub proof fn lemma_bit8_after_or(b: u8, k: u8, j: u8)
    by (bit_vector)
    requires
        k < 8,
        j < 8,
    ensures
        bit8(b | (1u8 << k), j) == (j == k || bit8(b, j)),
{
}

/// Clearing bit `k` clears that bit and leaves the other seven.
pub proof fn lemma_bit8_after_and_not(b: u8, k: u8, j: u8)
    by (bit_vector)
    requires
        k < 8,
        j < 8,
    ensures
        bit8(b & !(1u8 << k), j) == (j != k && bit8(b, j)),
{
}

/// No bit of the zero byte is set.
pub proof fn lemma_byte_popcount_zero()
    ensures
        byte_popcount(0) == 0,
        forall|k: u8| k < 8 ==> !bit8(0, k),
{
    assert forall|k: u8| k < 8 implies !bit8(0, k) by {
        assert(!bit8(0, k)) by (bit_vector)
            requires
                k < 8,
        ;
    }
    lemma_count_ones_none(byte_bits(0));
}

/// Setting bit `k` of a byte writes `true` at place `k` of its bits, and adds
/// one to its popcount exactly where the bit was clear.
pub proof fn lemma_byte_set_bit(b: u8, k: u8)
    requires
        k < 8,
    ensures
        byte_bits(b | (1u8 << k)) == byte_bits(b).update(k as int, true),
        byte_popcount(b | (1u8 << k)) == byte_popcount(b) + one_if(!bit8(b, k)),
{
    let after: u8 = b | (1u8 << k);
    assert forall|j: int| 0 <= j < 8 implies byte_bits(after)[j] == byte_bits(b).update(k as int, true)[j] by {
        lemma_bit8_after_or(b, k, j as u8);
    }
    assert(byte_bits(after) =~= byte_bits(b).update(k as int, true));
    lemma_count_ones_update(byte_bits(b), k as int, true);
}

/// Clearing bit `k` of a byte writes `false` at place `k` of its bits, and
/// takes one from its popcount exactly where the bit was set.
pub proof fn lemma_byte_clear_bit(b: u8, k: u8)
    requires
        k < 8,
    ensures
        byte_bits(b & !(1u8 << k)) == byte_bits(b).update(k as int, false),
        byte_popcount(b & !(1u8 << k)) == byte_popcount(b) - one_if(bit8(b, k)),
{
    let after: u8 = b & !(1u8 << k);
    assert forall|j: int| 0 <= j < 8 implies byte_bits(after)[j] == byte_bits(b).update(k as int, false)[j] by {
        lemma_bit8_after_and_not(b, k, j as u8);
    }
    assert(byte_bits(after) =~= byte_bits(b).update(k as int, false));
    lemma_count_ones_update(byte_bits(b), k as int, false);
}

/// A byte is the sum of the weights of its set bits.
pub proof fn lemma_pack_byte_bits(b: u8)
    ensures
        pack_byte(byte_bits(b)) == b,
{
    let b0 = bit8(b, 0);
    let b1 = bit8(b, 1);
    let b2 = bit8(b, 2);
    let b3 = bit8(b, 3);
    let b4 = bit8(b, 4);
    let b5 = bit8(b, 5);
    let b6 = bit8(b, 6);
    let b7 = bit8(b, 7);
    assert(b == bit_value(b0, 1) + bit_value(b1, 2) + bit_value(b2, 4) + bit_value(b3, 8) + bit_value(b4, 16)
        + bit_value(b5, 32) + bit_value(b6, 64) + bit_value(b7, 128)) by (bit_vector)
        requires
            b0 == bit8(b, 0),
            b1 == bit8(b, 1),
            b2 == bit8(b, 2),
            b3 == bit8(b, 3),
            b4 == bit8(b, 4),
            b5 == bit8(b, 5),
            b6 == bit8(b, 6),
            b7 == bit8(b, 7),
    ;
}

/// Eight bits are the bits of the byte they make.
pub proof fn lemma_byte_bits_pack(bits: Seq<bool>)
    requires
        bits.len() == 8,
    ensures
        byte_bits(pack_byte(bits)) == bits,
{
    let b0 = bits[0];
    let b1 = bits[1];
    let b2 = bits[2];
    let b3 = bits[3];
    let b4 = bits[4];
    let b5 = bits[5];
    let b6 = bits[6];
    let b7 = bits[7];
    let v: u8 = pack_byte(bits);
    assert(bit8(v, 0) == b0 && bit8(v, 1) == b1 && bit8(v, 2) == b2 && bit8(v, 3) == b3 && bit8(v, 4) == b4
        && bit8(v, 5) == b5 && bit8(v, 6) == b6 && bit8(v, 7) == b7) by (bit_vector)
        requires
            v == bit_value(b0, 1) + bit_value(b1, 2) + bit_value(b2, 4) + bit_value(b3, 8) + bit_value(b4, 16)
                + bit_value(b5, 32) + bit_value(b6, 64) + bit_value(b7, 128),
    ;
    assert forall|k: int| 0 <= k < 8 implies byte_bits(v)[k] == bits[k] by {
        assert(k == 0 || k == 1 || k == 2 || k == 3 || k == 4 || k == 5 || k == 6 || k == 7);
    }
    assert(byte_bits(v) =~= bits);
}

} // verus!
