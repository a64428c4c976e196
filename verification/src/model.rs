//! The mathematical model of a bit-set: a sequence of booleans, lowest index first.

use vstd::prelude::*;
use crate::byte::{bit8, byte_bits, byte_popcount, lemma_byte_bits_pack, pack_byte};

verus! {

/// One where `set` holds, else zero.
pub open spec fn one_if(set: bool) -> nat {
    if set {
        1
    } else {
        0
    }
}

/// How many entries of `bits` are set.
pub open spec fn count_ones(bits: Seq<bool>) -> nat
    decreases bits.len(),
{
    if bits.len() == 0 {
        0
    } else {
        count_ones(bits.drop_last()) + one_if(bits.last())
    }
}

/// A sequence of `n` bits, none of them set.
pub open spec fn all_clear(n: nat) -> Seq<bool> {
    Seq::new(n, |i: int| false)
}

/// The least multiple of eight that is not below `n`.
pub open spec fn round_up8(n: int) -> int {
    (n + 7) / 8 * 8
}

/// The byte at byte index `b`: entries `8 * b` to `8 * b + 7`, the lowest index
/// being bit 0.
pub open spec fn byte_at(bits: Seq<bool>, b: int) -> u8 {
    pack_byte(bits.subrange(8 * b, 8 * b + 8))
}

/// `bits` with the byte at byte index `b` replaced by `v`.
pub open spec fn with_byte(bits: Seq<bool>, b: int, v: u8) -> Seq<bool> {
    Seq::new(
        bits.len(),
        |i: int|
            if 8 * b <= i < 8 * b + 8 {
                bit8(v, (i - 8 * b) as u8)
            } else {
                bits[i]
            },
    )
}

/// No more entries are set than there are entries.
pub proof fn lemma_count_ones_bound(bits: Seq<bool>)
    ensures
        count_ones(bits) <= bits.len(),
    decreases bits.len(),
{
    if bits.len() > 0 {
        lemma_count_ones_bound(bits.drop_last());
    }
}

/// Counting one entry more adds one exactly where that entry is set.
pub proof fn lemma_count_ones_take_next(bits: Seq<bool>, n: int)
    requires
        0 <= n < bits.len(),
    ensures
        count_ones(bits.take(n + 1)) == count_ones(bits.take(n)) + one_if(bits[n]),
{
    assert(bits.take(n + 1).drop_last() =~= bits.take(n));
}

/// The count of a concatenation is the sum of the counts of its parts.
pub proof fn lemma_count_ones_concat(a: Seq<bool>, b: Seq<bool>)
    ensures
        count_ones(a + b) == count_ones(a) + count_ones(b),
    decreases b.len(),
{
    if b.len() == 0 {
        assert(a + b =~= a);
    } else {
        assert((a + b).drop_last() =~= a + b.drop_last());
        lemma_count_ones_concat(a, b.drop_last());
    }
}

/// Writing one entry changes the count by what that entry gained or lost.
pub proof fn lemma_count_ones_update(bits: Seq<bool>, i: int, v: bool)
    requires
        0 <= i < bits.len(),
    ensures
        count_ones(bits.update(i, v)) == count_ones(bits) - one_if(bits[i]) + one_if(v),
    decreases bits.len(),
{
    if i == bits.len() - 1 {
        assert(bits.update(i, v).drop_last() =~= bits.drop_last());
    } else {
        assert(bits.update(i, v).drop_last() =~= bits.drop_last().update(i, v));
        lemma_count_ones_update(bits.drop_last(), i, v);
    }
}

/// Where no entry is set the count is zero.
pub proof fn lemma_count_ones_none(bits: Seq<bool>)
    requires
        forall|i: int| 0 <= i < bits.len() ==> !bits[i],
    ensures
        count_ones(bits) == 0,
    decreases bits.len(),
{
    if bits.len() > 0 {
        lemma_count_ones_none(bits.drop_last());
    }
}

/// Replacing a byte changes the count by the popcount of the new byte less that
/// of the old one.
pub proof fn lemma_count_ones_with_byte(bits: Seq<bool>, b: int, v: u8)
    requires
        0 <= b,
        8 * b + 8 <= bits.len(),
    ensures
        count_ones(with_byte(bits, b, v)) == count_ones(bits) - byte_popcount(byte_at(bits, b))
            + byte_popcount(v),
        byte_popcount(byte_at(bits, b)) <= count_ones(bits),
{
    let below = bits.subrange(0, 8 * b);
    let old_byte = bits.subrange(8 * b, 8 * b + 8);
    let above = bits.subrange(8 * b + 8, bits.len() as int);
    assert(bits =~= below + old_byte + above);
    assert(with_byte(bits, b, v) =~= below + byte_bits(v) + above);
    lemma_count_ones_concat(below, old_byte);
    lemma_count_ones_concat(below + old_byte, above);
    lemma_count_ones_concat(below, byte_bits(v));
    lemma_count_ones_concat(below + byte_bits(v), above);
    lemma_byte_bits_pack(old_byte);
}

} // verus!
