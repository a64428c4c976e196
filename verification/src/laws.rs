//! What holds of the operations taken together, whichever strategy stores the bits.

use vstd::prelude::*;
use crate::byte::{bit8, byte_bits, lemma_pack_byte_bits};
use crate::contract::BitmapTrait;
use crate::dense::{lemma_byte_at_bytes_bits, lemma_popcount_sum_counts_bits, Bitmap};
use crate::model::{
    all_clear, byte_at, count_ones, lemma_count_ones_none, lemma_count_ones_update, one_if, with_byte,
};
use crate::sparse::{lemma_indices_count, SparseBitmap};

verus! {

/// After a bit is set it reads as set, and the count of set bits has grown by
/// one exactly where the bit was clear before.
pub proof fn lemma_set_then_get(bits: Seq<bool>, idx: int)
    requires
        0 <= idx < bits.len(),
    ensures
        bits.update(idx, true)[idx],
        count_ones(bits.update(idx, true)) == count_ones(bits) + one_if(!bits[idx]),
        bits[idx] ==> bits.update(idx, true) == bits,
{
    lemma_count_ones_update(bits, idx, true);
    if bits[idx] {
        assert(bits.update(idx, true) =~= bits);
    }
}

/// Setting a bit that was clear and clearing it again gives back the bits as
/// they were, and with them the count of set bits.
pub proof fn lemma_set_then_clear(bits: Seq<bool>, idx: int)
    requires
        0 <= idx < bits.len(),
        !bits[idx],
    ensures
        !bits.update(idx, true).update(idx, false)[idx],
        bits.update(idx, true).update(idx, false) == bits,
        count_ones(bits.update(idx, true).update(idx, false)) == count_ones(bits),
{
    assert(bits.update(idx, true).update(idx, false) =~= bits);
}

/// Clearing a bit right after setting it leaves it clear whatever it was
/// before, and leaves the count one below what it was where the bit was set.
pub proof fn lemma_set_then_clear_count(bits: Seq<bool>, idx: int)
    requires
        0 <= idx < bits.len(),
    ensures
        !bits.update(idx, true).update(idx, false)[idx],
        count_ones(bits.update(idx, true).update(idx, false)) == count_ones(bits) - one_if(bits[idx]),
{
    lemma_count_ones_update(bits, idx, true);
    lemma_count_ones_update(bits.update(idx, true), idx, false);
}

/// A byte that was written is the byte that is read back, and the other bytes
/// stay as they were.
pub proof fn lemma_set_ubyte_then_get_ubyte(bits: Seq<bool>, idx: int, byte: u8, other: int)
    requires
        0 <= idx,
        8 * idx + 8 <= bits.len(),
        0 <= other,
        8 * other + 8 <= bits.len(),
    ensures
        byte_at(with_byte(bits, idx, byte), idx) == byte,
        other != idx ==> byte_at(with_byte(bits, idx, byte), other) == byte_at(bits, other),
{
    assert(with_byte(bits, idx, byte).subrange(8 * idx, 8 * idx + 8) =~= byte_bits(byte));
    lemma_pack_byte_bits(byte);
    if other != idx {
        assert(with_byte(bits, idx, byte).subrange(8 * other, 8 * other + 8) =~= bits.subrange(
            8 * other,
            8 * other + 8,
        ));
    }
}

/// After `clear_all` no bit reads as set and the count is zero.
pub proof fn lemma_all_clear(n: nat, idx: int)
    requires
        0 <= idx < n,
    ensures
        all_clear(n).len() == n,
        !all_clear(n)[idx],
        count_ones(all_clear(n)) == 0,
{
    lemma_count_ones_none(all_clear(n));
}

/// Representation independence. Two bit-sets that hold the same bits, however
/// each of them stores them, have the same length and the same count of set
/// bits, read every bit and every byte alike, and hold the same bits again
/// after the same change.
pub proof fn lemma_representation_independence<A: BitmapTrait, B: BitmapTrait>(
    a: A,
    b: B,
    idx: usize,
    byte: u8,
)
    requires
        a.wf(),
        b.wf(),
        a@ == b@,
    ensures
        a@.len() == b@.len(),
        count_ones(a@) == count_ones(b@),
        idx < a@.len() ==> a@[idx as int] == b@[idx as int],
        idx < a@.len() ==> a@.update(idx as int, true) == b@.update(idx as int, true),
        idx < a@.len() ==> a@.update(idx as int, false) == b@.update(idx as int, false),
        idx < a@.len() / 8 ==> byte_at(a@, idx as int) == byte_at(b@, idx as int),
        idx < a@.len() / 8 ==> with_byte(a@, idx as int, byte) == with_byte(b@, idx as int, byte),
        all_clear(a@.len()) == all_clear(b@.len()),
{
}

/// What holding the same bits means for the fields of a dense and a sparse
/// bit-set: the dense counter is the number of listed indices, a bit of the
/// buffer is set exactly where its index is listed, and each byte of the
/// buffer is the byte that the listed indices make.
pub proof fn lemma_dense_and_sparse_fields_agree(dense: Bitmap, sparse: SparseBitmap)
    requires
        dense.wf(),
        sparse.wf(),
        dense@ == sparse@,
    ensures
        dense.buf@.len() * 8 == sparse.len,
        dense.popcnt == sparse.indices@.len(),
        forall|i: usize|
            i < sparse.len ==> #[trigger] sparse.indices@.contains(i) == bit8(
                dense.buf@[i as int / 8],
                (i % 8) as u8,
            ),
        forall|j: int| 0 <= j < dense.buf@.len() ==> dense.buf@[j] == byte_at(sparse@, j),
{
    lemma_popcount_sum_counts_bits(dense.buf@);
    lemma_indices_count(sparse.indices@, sparse.len);
    assert forall|i: usize| i < sparse.len implies #[trigger] sparse.indices@.contains(i) == bit8(
        dense.buf@[i as int / 8],
        (i % 8) as u8,
    ) by {
        assert(dense@[i as int] == bit8(dense.buf@[i as int / 8], (i % 8) as u8));
        assert(sparse@[i as int] == sparse.indices@.contains(i));
    }
    assert forall|j: int| 0 <= j < dense.buf@.len() implies dense.buf@[j] == byte_at(sparse@, j) by {
        lemma_byte_at_bytes_bits(dense.buf@, j);
    }
}

/// A dense bit-set is determined by its bits: there is one buffer and one
/// count for them.
pub proof fn lemma_dense_is_determined_by_its_bits(a: Bitmap, b: Bitmap)
    requires
        a.wf(),
        b.wf(),
        a@ == b@,
    ensures
        a.buf@ == b.buf@,
        a.popcnt == b.popcnt,
{
    assert(a.buf@.len() == b.buf@.len()) by {
        assert(a@.len() == 8 * a.buf@.len());
        assert(b@.len() == 8 * b.buf@.len());
    }
    assert forall|j: int| 0 <= j < a.buf@.len() implies a.buf@[j] == b.buf@[j] by {
        lemma_byte_at_bytes_bits(a.buf@, j);
        lemma_byte_at_bytes_bits(b.buf@, j);
    }
    assert(a.buf@ =~= b.buf@);
}

/// The order of a sparse bit-set's list has no meaning: two of them hold the
/// same bits exactly when they have the same length and list the same indices,
/// in whatever order.
pub proof fn lemma_sparse_order_is_incidental(a: SparseBitmap, b: SparseBitmap)
    requires
        a.wf(),
        b.wf(),
    ensures
        a@ == b@ <==> a.len == b.len && a.indices@.to_set() == b.indices@.to_set(),
{
    if a@ == b@ {
        assert(a.len == b.len) by {
            assert(a@.len() == b@.len());
        }
        assert forall|x: usize| a.indices@.contains(x) == b.indices@.contains(x) by {
            if x < a.len {
                assert(a@[x as int] == a.indices@.contains(x));
                assert(b@[x as int] == b.indices@.contains(x));
            }
        }
        assert(a.indices@.to_set() =~= b.indices@.to_set());
    }
    if a.len == b.len && a.indices@.to_set() == b.indices@.to_set() {
        assert forall|i: int| 0 <= i < a.len implies a@[i] == b@[i] by {
            assert(a.indices@.to_set().contains(i as usize) == b.indices@.to_set().contains(i as usize));
        }
        assert(a@ =~= b@);
    }
}

} // verus!
