//! The dense strategy: eight bits to a byte, and a running count of the set bits.

use vstd::prelude::*;
use crate::byte::{
    bit8, byte_bits, byte_popcount, lemma_bit8_after_and_not, lemma_bit8_after_or, lemma_bit8_by_mask,
    lemma_byte_clear_bit, lemma_byte_popcount_zero, lemma_byte_set_bit, lemma_pack_byte_bits, popcount8,
};
use crate::contract::BitmapTrait;
use crate::error::BitmapError;
use crate::model::{
    all_clear, byte_at, count_ones, lemma_count_ones_bound, lemma_count_ones_concat,
    lemma_count_ones_none, lemma_count_ones_with_byte, one_if, round_up8, with_byte,
};

verus! {

/// A bit-set packed into bytes: bit `k` of byte `j` is index `8 * j + k`.
#[derive(Debug, PartialEq)]
pub struct Bitmap {
    /// The bits, eight to a byte.
    pub buf: Vec<u8>,
    /// The number of bits that are set in `buf`.
    pub popcnt: usize,
}

/// The bits that a run of bytes holds: entry `i` is bit `i % 8` of byte `i / 8`.
pub open spec fn bytes_bits(bytes: Seq<u8>) -> Seq<bool> {
    Seq::new(8 * bytes.len(), |i: int| bit8(bytes[i / 8], (i % 8) as u8))
}

/// The popcounts of the bytes, added up.
pub open spec fn popcount_sum(bytes: Seq<u8>) -> nat
    decreases bytes.len(),
{
    if bytes.len() == 0 {
        0
    } else {
        popcount_sum(bytes.drop_last()) + byte_popcount(bytes.last())
    }
}

impl Bitmap {
    /// A bitmap of `len` bits, rounded up to whole bytes, with no bit set.
    pub fn new(len: usize) -> (bitmap: Bitmap)
        requires
            len + 7 <= usize::MAX,
        ensures
            bitmap.wf(),
            bitmap@.len() == round_up8(len as int),
            bitmap@ == all_clear(bitmap@.len()),
            count_ones(bitmap@) == 0,
            bitmap.popcnt == 0,
    {
        let bytes: usize = (len + 7) / 8;
        let bitmap = Bitmap { buf: vec![0u8; bytes], popcnt: 0 };
        proof {
            lemma_zero_bytes(bitmap.buf@);
        }
        bitmap
    }

    /// Whether the fields satisfy `wf`. A bitmap that was put together field by
    /// field is checked with this before an operation is asked of it.
    pub fn is_well_formed(&self) -> (ok: bool)
        ensures
            ok == self.wf(),
    {
        let n: usize = self.buf.len();
        if n > usize::MAX / 8 {
            return false;
        }
        let mut sum: usize = 0;
        for j in 0..n
            invariant
                n == self.buf@.len(),
                n * 8 <= usize::MAX,
                sum == popcount_sum(self.buf@.take(j as int)),
        {
            proof {
                lemma_popcount_sum_bound(self.buf@.take(j as int));
                assert(self.buf@.take(j + 1).drop_last() =~= self.buf@.take(j as int));
            }
            sum += popcount8(self.buf[j]) as usize;
        }
        proof {
            assert(self.buf@.take(n as int) =~= self.buf@);
        }
        sum == self.popcnt
    }
}

impl Clone for Bitmap {
    /// A copy with the same bytes and the same count.
    fn clone(&self) -> (copy: Self)
        ensures
            copy.buf@ == self.buf@,
            copy.popcnt == self.popcnt,
    {
        Bitmap { buf: self.buf.clone(), popcnt: self.popcnt }
    }
}

impl Default for Bitmap {
    /// The bitmap of length zero.
    fn default() -> (bitmap: Self)
        ensures
            bitmap.wf(),
            bitmap@ == Seq::<bool>::empty(),
            count_ones(bitmap@) == 0,
    {
        let bitmap = Bitmap::new(0);
        proof {
            assert(bitmap@ =~= Seq::<bool>::empty());
        }
        bitmap
    }
}

impl BitmapTrait for Bitmap {
    /// The length in bits fits a `usize`, and `popcnt` is the sum of the
    /// popcounts of the bytes.
    open spec fn wf(&self) -> bool {
        &&& self.buf@.len() * 8 <= usize::MAX
        &&& self.popcnt == popcount_sum(self.buf@)
    }

    open spec fn view(&self) -> Seq<bool> {
        bytes_bits(self.buf@)
    }

    proof fn lemma_whole_bytes(&self) {
    }

    /// In the fields: eight times the number of bytes.
    fn len(&self) -> (n: usize)
        ensures
            n == self.buf@.len() * 8,
    {
        self.buf.len() * 8
    }

    fn get(&self, idx: usize) -> (r: Result<bool, BitmapError>) {
        if idx >= self.len() {
            return Err(BitmapError::IndexOutOfRange);
        }
        let byte: u8 = self.buf[idx / 8];
        let k: u8 = (idx % 8) as u8;
        proof {
            lemma_bit8_by_mask(byte, k);
        }
        Ok((byte & (1u8 << k)) != 0)
    }

    /// In the fields: the byte at `idx`.
    fn get_ubyte(&self, idx: usize) -> (r: Result<u8, BitmapError>)
        ensures
            idx < self.buf@.len() ==> r == Ok::<u8, BitmapError>(self.buf@[idx as int]),
    {
        if idx >= self.len() / 8 {
            return Err(BitmapError::IndexOutOfRange);
        }
        proof {
            lemma_byte_at_bytes_bits(self.buf@, idx as int);
        }
        Ok(self.buf[idx])
    }

    /// In the fields: the byte at `idx` is overwritten, and the count moves by
    /// the popcount of the new byte less that of the old one.
    fn set_ubyte(&mut self, idx: usize, byte: u8) -> (r: Result<(), BitmapError>)
        ensures
            idx < old(self).buf@.len() ==> final(self).buf@ == old(self).buf@.update(idx as int, byte),
            idx < old(self).buf@.len() ==> final(self).popcnt == old(self).popcnt - byte_popcount(
                old(self).buf@[idx as int],
            ) + byte_popcount(byte),
            idx >= old(self).buf@.len() ==> *final(self) == *old(self),
    {
        if idx >= self.len() / 8 {
            return Err(BitmapError::IndexOutOfRange);
        }
        let old_byte: u8 = self.buf[idx];
        proof {
            lemma_write_byte(self.buf@, idx as int, byte);
        }
        self.popcnt = self.popcnt - popcount8(old_byte) as usize + popcount8(byte) as usize;
        self.buf[idx] = byte;
        Ok(())
    }

    /// In the fields: the count that is kept.
    fn popcount(&self) -> (n: usize)
        ensures
            n == self.popcnt,
    {
        proof {
            lemma_popcount_sum_counts_bits(self.buf@);
        }
        self.popcnt
    }

    /// In the fields: one bit of one byte is set, and the count grows by one
    /// where that bit was clear.
    fn set(&mut self, idx: usize) -> (r: Result<(), BitmapError>)
        ensures
            idx < old(self)@.len() ==> final(self).buf@ == old(self).buf@.update(
                idx as int / 8,
                old(self).buf@[idx as int / 8] | (1u8 << (idx % 8) as u8),
            ),
            idx < old(self)@.len() ==> final(self).popcnt == old(self).popcnt + one_if(!old(self)@[idx as int]),
            idx >= old(self)@.len() ==> *final(self) == *old(self),
    {
        if idx >= self.len() {
            return Err(BitmapError::IndexOutOfRange);
        }
        let j: usize = idx / 8;
        let k: u8 = (idx % 8) as u8;
        let byte: u8 = self.buf[j];
        proof {
            lemma_bit8_by_mask(byte, k);
            lemma_set_bit(self.buf@, idx as int);
        }
        if byte & (1u8 << k) == 0 {
            self.popcnt += 1;
        }
        self.buf[j] = byte | (1u8 << k);
        Ok(())
    }

    /// In the fields: one bit of one byte is cleared, and the count falls by
    /// one where that bit was set.
    fn clear(&mut self, idx: usize) -> (r: Result<(), BitmapError>)
        ensures
            idx < old(self)@.len() ==> final(self).buf@ == old(self).buf@.update(
                idx as int / 8,
                old(self).buf@[idx as int / 8] & !(1u8 << (idx % 8) as u8),
            ),
            idx < old(self)@.len() ==> final(self).popcnt == old(self).popcnt - one_if(old(self)@[idx as int]),
            idx >= old(self)@.len() ==> *final(self) == *old(self),
    {
        if idx >= self.len() {
            return Err(BitmapError::IndexOutOfRange);
        }
        let j: usize = idx / 8;
        let k: u8 = (idx % 8) as u8;
        let byte: u8 = self.buf[j];
        proof {
            lemma_bit8_by_mask(byte, k);
            lemma_clear_bit(self.buf@, idx as int);
        }
        if byte & (1u8 << k) != 0 {
            self.popcnt -= 1;
        }
        self.buf[j] = byte & !(1u8 << k);
        Ok(())
    }

    /// In the fields: every byte becomes zero, and so does the count.
    fn clear_all(&mut self)
        ensures
            final(self).buf@ == Seq::new(old(self).buf@.len(), |j: int| 0u8),
            final(self).popcnt == 0,
    {
        let n: usize = self.buf.len();
        for j in 0..n
            invariant
                self.buf@.len() == n,
                forall|i: int| 0 <= i < j ==> self.buf@[i] == 0,
        {
            self.buf[j] = 0;
        }
        self.popcnt = 0;
        proof {
            lemma_zero_bytes(self.buf@);
        }
    }
}

/// The sum of the bytes' popcounts is the number of bits set in them.
pub proof fn lemma_popcount_sum_counts_bits(bytes: Seq<u8>)
    ensures
        popcount_sum(bytes) == count_ones(bytes_bits(bytes)),
    decreases bytes.len(),
{
    if bytes.len() == 0 {
        assert(bytes_bits(bytes) =~= Seq::<bool>::empty());
    } else {
        let front = bytes.drop_last();
        lemma_popcount_sum_counts_bits(front);
        assert(bytes_bits(bytes) =~= bytes_bits(front) + byte_bits(bytes.last()));
        lemma_count_ones_concat(bytes_bits(front), byte_bits(bytes.last()));
    }
}

/// No more bits are set than the bytes have.
pub proof fn lemma_popcount_sum_bound(bytes: Seq<u8>)
    ensures
        popcount_sum(bytes) <= 8 * bytes.len(),
{
    lemma_popcount_sum_counts_bits(bytes);
    lemma_count_ones_bound(bytes_bits(bytes));
}

/// Writing one byte changes the sum by the popcount of the new byte less that
/// of the old one.
pub proof fn lemma_popcount_sum_update(bytes: Seq<u8>, j: int, v: u8)
    requires
        0 <= j < bytes.len(),
    ensures
        popcount_sum(bytes.update(j, v)) == popcount_sum(bytes) - byte_popcount(bytes[j]) + byte_popcount(v),
    decreases bytes.len(),
{
    if j == bytes.len() - 1 {
        assert(bytes.update(j, v).drop_last() =~= bytes.drop_last());
    } else {
        assert(bytes.update(j, v).drop_last() =~= bytes.drop_last().update(j, v));
        lemma_popcount_sum_update(bytes.drop_last(), j, v);
    }
}

/// The byte at byte index `j` of the bits is byte `j` of the bytes.
pub proof fn lemma_byte_at_bytes_bits(bytes: Seq<u8>, j: int)
    requires
        0 <= j < bytes.len(),
    ensures
        bytes_bits(bytes).subrange(8 * j, 8 * j + 8) == byte_bits(bytes[j]),
        byte_at(bytes_bits(bytes), j) == bytes[j],
{
    assert(bytes_bits(bytes).subrange(8 * j, 8 * j + 8) =~= byte_bits(bytes[j]));
    lemma_pack_byte_bits(bytes[j]);
}

/// Bytes that are all zero hold no set bit.
proof fn lemma_zero_bytes(bytes: Seq<u8>)
    requires
        forall|j: int| 0 <= j < bytes.len() ==> bytes[j] == 0,
    ensures
        bytes == Seq::new(bytes.len(), |j: int| 0u8),
        bytes_bits(bytes) == all_clear(8 * bytes.len()),
        popcount_sum(bytes) == 0,
        count_ones(bytes_bits(bytes)) == 0,
{
    lemma_byte_popcount_zero();
    assert forall|i: int| 0 <= i < 8 * bytes.len() implies !bytes_bits(bytes)[i] by {
        assert(bytes[i / 8] == 0);
    }
    assert(bytes =~= Seq::new(bytes.len(), |j: int| 0u8));
    assert(bytes_bits(bytes) =~= all_clear(8 * bytes.len()));
    lemma_count_ones_none(bytes_bits(bytes));
    lemma_popcount_sum_counts_bits(bytes);
}

/// What overwriting byte `j` does to the bits and to the sum of popcounts.
proof fn lemma_write_byte(bytes: Seq<u8>, j: int, v: u8)
    requires
        0 <= j < bytes.len(),
    ensures
        bytes_bits(bytes.update(j, v)) == with_byte(bytes_bits(bytes), j, v),
        byte_at(bytes_bits(bytes), j) == bytes[j],
        byte_popcount(bytes[j]) <= popcount_sum(bytes),
        popcount_sum(bytes.update(j, v)) == popcount_sum(bytes) - byte_popcount(bytes[j]) + byte_popcount(v),
        popcount_sum(bytes.update(j, v)) <= 8 * bytes.len(),
        count_ones(with_byte(bytes_bits(bytes), j, v)) == count_ones(bytes_bits(bytes)) - byte_popcount(
            bytes[j],
        ) + byte_popcount(v),
{
    assert(bytes_bits(bytes.update(j, v)) =~= with_byte(bytes_bits(bytes), j, v));
    lemma_byte_at_bytes_bits(bytes, j);
    lemma_popcount_sum_update(bytes, j, v);
    lemma_popcount_sum_bound(bytes.update(j, v));
    lemma_popcount_sum_counts_bits(bytes);
    lemma_count_ones_with_byte(bytes_bits(bytes), j, v);
}

/// What setting bit `i % 8` of byte `i / 8` does to the bits and to the sum of
/// popcounts.
proof fn lemma_set_bit(bytes: Seq<u8>, i: int)
    requires
        0 <= i < 8 * bytes.len(),
    ensures
        ({
            let after = bytes.update(i / 8, bytes[i / 8] | (1u8 << (i % 8) as u8));
            &&& bytes_bits(after) == bytes_bits(bytes).update(i, true)
            &&& popcount_sum(after) == popcount_sum(bytes) + one_if(!bytes_bits(bytes)[i])
            &&& popcount_sum(after) <= 8 * bytes.len()
            &&& count_ones(bytes_bits(after)) == count_ones(bytes_bits(bytes)) + one_if(!bytes_bits(bytes)[i])
        }),
{
    let byte: u8 = bytes[i / 8];
    let k: u8 = (i % 8) as u8;
    let after = bytes.update(i / 8, byte | (1u8 << k));
    assert forall|n: int| 0 <= n < 8 * bytes.len() implies bytes_bits(after)[n] == bytes_bits(bytes).update(
        i,
        true,
    )[n] by {
        lemma_bit8_after_or(byte, k, (n % 8) as u8);
    }
    assert(bytes_bits(after) =~= bytes_bits(bytes).update(i, true));
    lemma_byte_set_bit(byte, k);
    lemma_popcount_sum_update(bytes, i / 8, byte | (1u8 << k));
    lemma_popcount_sum_bound(after);
    lemma_popcount_sum_counts_bits(bytes);
    lemma_popcount_sum_counts_bits(after);
}

/// What clearing bit `i % 8` of byte `i / 8` does to the bits and to the sum
/// of popcounts.
proof fn lemma_clear_bit(bytes: Seq<u8>, i: int)
    requires
        0 <= i < 8 * bytes.len(),
    ensures
        ({
            let after = bytes.update(i / 8, bytes[i / 8] & !(1u8 << (i % 8) as u8));
            &&& bytes_bits(after) == bytes_bits(bytes).update(i, false)
            &&& popcount_sum(after) == popcount_sum(bytes) - one_if(bytes_bits(bytes)[i])
            &&& count_ones(bytes_bits(after)) == count_ones(bytes_bits(bytes)) - one_if(bytes_bits(bytes)[i])
        }),
{
    let byte: u8 = bytes[i / 8];
    let k: u8 = (i % 8) as u8;
    let after = bytes.update(i / 8, byte & !(1u8 << k));
    assert forall|n: int| 0 <= n < 8 * bytes.len() implies bytes_bits(after)[n] == bytes_bits(bytes).update(
        i,
        false,
    )[n] by {
        lemma_bit8_after_and_not(byte, k, (n % 8) as u8);
    }
    assert(bytes_bits(after) =~= bytes_bits(bytes).update(i, false));
    lemma_byte_clear_bit(byte, k);
    lemma_popcount_sum_update(bytes, i / 8, byte & !(1u8 << k));
    lemma_popcount_sum_counts_bits(bytes);
    lemma_popcount_sum_counts_bits(after);
}

} // verus!
