//! The sparse strategy: the list of the indices that are set, searched linearly.

use vstd::prelude::*;
use crate::byte::{
    bit8, byte_bits, lemma_bit8_after_or, lemma_bit8_by_mask, lemma_byte_popcount_zero,
    lemma_pack_byte_bits,
};
use crate::contract::BitmapTrait;
use crate::error::BitmapError;
use crate::model::{
    all_clear, count_ones, lemma_count_ones_none, lemma_count_ones_update, lemma_count_ones_with_byte,
    round_up8, with_byte,
};

verus! {

/// A bit-set kept as the list of its set indices. An index joins the list at
/// its end; the order of the list has no meaning.
#[derive(Debug, PartialEq)]
pub struct SparseBitmap {
    /// The indices that are set, each of them once.
    pub indices: Vec<usize>,
    /// The number of addressable bits, a multiple of eight.
    pub len: usize,
}

/// The bits that a list of indices stands for: entry `i` is set where `i` is listed.
pub open spec fn indices_bits(indices: Seq<usize>, len: usize) -> Seq<bool> {
    Seq::new(len as nat, |i: int| indices.contains(i as usize))
}

/// Every listed index is below `len`.
pub open spec fn indices_below(indices: Seq<usize>, len: usize) -> bool {
    forall|p: int| 0 <= p < indices.len() ==> indices[p] < len
}

impl SparseBitmap {
    /// A bitmap of `len` bits, rounded up to whole bytes, with no bit set.
    pub fn new(len: usize) -> (bitmap: SparseBitmap)
        requires
            len + 7 <= usize::MAX,
        ensures
            bitmap.wf(),
            bitmap@.len() == round_up8(len as int),
            bitmap@ == all_clear(bitmap@.len()),
            count_ones(bitmap@) == 0,
            bitmap.indices@ == Seq::<usize>::empty(),
    {
        let bitmap = SparseBitmap { indices: Vec::new(), len: (len + 7) / 8 * 8 };
        proof {
            assert(bitmap@ =~= all_clear(round_up8(len as int) as nat));
            lemma_count_ones_none(bitmap@);
        }
        bitmap
    }

    /// Whether the fields satisfy `wf`. A bitmap that was put together field by
    /// field is checked with this before an operation is asked of it.
    pub fn is_well_formed(&self) -> (ok: bool)
        ensures
            ok == self.wf(),
    {
        if self.len % 8 != 0 {
            return false;
        }
        let n: usize = self.indices.len();
        for p in 0..n
            invariant
                n == self.indices@.len(),
                forall|q: int| 0 <= q < p ==> self.indices@[q] < self.len,
                forall|q: int, r: int| 0 <= q < r < p ==> self.indices@[q] != self.indices@[r],
        {
            let x: usize = self.indices[p];
            if x >= self.len {
                return false;
            }
            for q in 0..p
                invariant
                    n == self.indices@.len(),
                    p < n,
                    x == self.indices@[p as int],
                    forall|r: int| 0 <= r < q ==> self.indices@[r] != x,
            {
                if self.indices[q] == x {
                    return false;
                }
            }
        }
        true
    }

    /// Where `idx` is listed, if it is.
    fn position(&self, idx: usize) -> (r: Option<usize>)
        ensures
            r is Some ==> r->0 < self.indices@.len() && self.indices@[r->0 as int] == idx,
            r is None ==> !self.indices@.contains(idx),
    {
        let n: usize = self.indices.len();
        for p in 0..n
            invariant
                n == self.indices@.len(),
                forall|q: int| 0 <= q < p ==> self.indices@[q] != idx,
        {
            if self.indices[p] == idx {
                return Some(p);
            }
        }
        None
    }

    /// Lists `idx`, at the end, unless it is listed already.
    fn insert(&mut self, idx: usize)
        requires
            old(self).wf(),
            idx < old(self).len,
        ensures
            final(self).wf(),
            final(self).len == old(self).len,
            final(self)@ == old(self)@.update(idx as int, true),
            old(self)@[idx as int] ==> final(self).indices@ == old(self).indices@,
            !old(self)@[idx as int] ==> final(self).indices@ == old(self).indices@.push(idx),
    {
        if self.position(idx).is_none() {
            proof {
                lemma_indices_bits_push(self.indices@, self.len, idx);
            }
            self.indices.push(idx);
        } else {
            assert(self@ =~= self@.update(idx as int, true));
        }
    }

    /// Takes `idx` off the list if it is on it; the others keep their order.
    fn remove(&mut self, idx: usize)
        requires
            old(self).wf(),
            idx < old(self).len,
        ensures
            final(self).wf(),
            final(self).len == old(self).len,
            final(self)@ == old(self)@.update(idx as int, false),
            old(self)@[idx as int] ==> final(self).indices@ == old(self).indices@.remove(
                old(self).indices@.index_of(idx),
            ),
            !old(self)@[idx as int] ==> final(self).indices@ == old(self).indices@,
    {
        match self.position(idx) {
            Some(p) => {
                proof {
                    lemma_indices_bits_remove(self.indices@, self.len, p as int);
                }
                self.indices.remove(p);
            },
            None => {
                assert(self@ =~= self@.update(idx as int, false));
            },
        }
    }
}

impl Clone for SparseBitmap {
    /// A copy with the same list and the same length.
    fn clone(&self) -> (copy: Self)
        ensures
            copy.indices@ == self.indices@,
            copy.len == self.len,
    {
        SparseBitmap { indices: self.indices.clone(), len: self.len }
    }
}

impl BitmapTrait for SparseBitmap {
    /// The length is a multiple of eight, no index is listed twice, and every
    /// listed index is below the length.
    open spec fn wf(&self) -> bool {
        &&& self.len % 8 == 0
        &&& self.indices@.no_duplicates()
        &&& indices_below(self.indices@, self.len)
    }

    open spec fn view(&self) -> Seq<bool> {
        indices_bits(self.indices@, self.len)
    }

    proof fn lemma_whole_bytes(&self) {
    }

    fn len(&self) -> (n: usize)
        ensures
            n == self.len,
    {
        self.len
    }

    fn get(&self, idx: usize) -> (r: Result<bool, BitmapError>) {
        if idx >= self.len() {
            return Err(BitmapError::IndexOutOfRange);
        }
        Ok(self.position(idx).is_some())
    }

    fn get_ubyte(&self, idx: usize) -> (r: Result<u8, BitmapError>) {
        if idx >= self.len() / 8 {
            return Err(BitmapError::IndexOutOfRange);
        }
        let mut byte: u8 = 0;
        proof {
            lemma_byte_popcount_zero();
        }
        for i in 0u8..8
            invariant
                idx < self.len / 8,
                forall|k: u8| k < 8 ==> bit8(byte, k) == (k < i && self@[idx * 8 + k]),
        {
            let ghost before = byte;
            if self.position(idx * 8 + i as usize).is_some() {
                byte |= 1u8 << i;
                proof {
                    assert forall|k: u8| k < 8 implies bit8(byte, k) == (k < i + 1 && self@[idx * 8 + k]) by {
                        lemma_bit8_after_or(before, i, k);
                    }
                }
            }
        }
        proof {
            assert(byte_bits(byte) =~= self@.subrange(8 * idx, 8 * idx + 8));
            lemma_pack_byte_bits(byte);
        }
        Ok(byte)
    }

    /// In the fields: all eight indices of the byte are looked up in turn, each
    /// one listed or taken off the list as its bit of `byte` says.
    fn set_ubyte(&mut self, idx: usize, byte: u8) -> (r: Result<(), BitmapError>)
        ensures
            final(self).len == old(self).len,
            idx >= old(self).len / 8 ==> *final(self) == *old(self),
    {
        if idx >= self.len() / 8 {
            return Err(BitmapError::IndexOutOfRange);
        }
        proof {
            lemma_count_ones_with_byte(self@, idx as int, byte);
        }
        for i in 0u8..8
            invariant
                self.wf(),
                self.len == old(self).len,
                idx < self.len / 8,
                forall|j: int|
                    0 <= j < self.len ==> self@[j] == if 8 * idx <= j < 8 * idx + i {
                        bit8(byte, (j - 8 * idx) as u8)
                    } else {
                        old(self)@[j]
                    },
        {
            proof {
                lemma_bit8_by_mask(byte, i);
            }
            if (byte & (1u8 << i)) != 0 {
                self.insert(idx * 8 + i as usize);
            } else {
                self.remove(idx * 8 + i as usize);
            }
        }
        proof {
            assert(self@ =~= with_byte(old(self)@, idx as int, byte));
        }
        Ok(())
    }

    /// In the fields: the length of the list.
    fn popcount(&self) -> (n: usize)
        ensures
            n == self.indices@.len(),
    {
        proof {
            lemma_indices_count(self.indices@, self.len);
        }
        self.indices.len()
    }

    /// In the fields: an index that was not set joins the list at its end, and
    /// one that was set leaves the list as it is.
    fn set(&mut self, idx: usize) -> (r: Result<(), BitmapError>)
        ensures
            final(self).len == old(self).len,
            idx < old(self).len && old(self)@[idx as int] ==> final(self).indices@ == old(self).indices@,
            idx < old(self).len && !old(self)@[idx as int] ==> final(self).indices@ == old(
                self,
            ).indices@.push(idx),
            idx >= old(self).len ==> *final(self) == *old(self),
    {
        if idx >= self.len() {
            return Err(BitmapError::IndexOutOfRange);
        }
        proof {
            lemma_count_ones_update(self@, idx as int, true);
        }
        self.insert(idx);
        Ok(())
    }

    /// In the fields: an index that was set leaves the list, the others keeping
    /// their order, and one that was not set leaves the list as it is.
    fn clear(&mut self, idx: usize) -> (r: Result<(), BitmapError>)
        ensures
            final(self).len == old(self).len,
            idx < old(self).len && old(self)@[idx as int] ==> final(self).indices@ == old(
                self,
            ).indices@.remove(old(self).indices@.index_of(idx)),
            idx < old(self).len && !old(self)@[idx as int] ==> final(self).indices@ == old(self).indices@,
            idx >= old(self).len ==> *final(self) == *old(self),
    {
        if idx >= self.len() {
            return Err(BitmapError::IndexOutOfRange);
        }
        proof {
            lemma_count_ones_update(self@, idx as int, false);
        }
        self.remove(idx);
        Ok(())
    }

    /// In the fields: the list is emptied.
    fn clear_all(&mut self)
        ensures
            final(self).len == old(self).len,
            final(self).indices@ == Seq::<usize>::empty(),
    {
        self.indices.clear();
        proof {
            assert(self@ =~= all_clear(self.len as nat));
            lemma_count_ones_none(self@);
        }
    }
}

/// Listing one index more sets its bit.
pub proof fn lemma_indices_bits_push(indices: Seq<usize>, len: usize, x: usize)
    requires
        x < len,
    ensures
        indices_bits(indices.push(x), len) == indices_bits(indices, len).update(x as int, true),
{
    let before = indices_bits(indices, len);
    let after = indices_bits(indices.push(x), len);
    assert forall|i: int| 0 <= i < len implies after[i] == before.update(x as int, true)[i] by {
        if i == x {
            assert(indices.push(x)[indices.len() as int] == x);
        } else if indices.contains(i as usize) {
            let p: int = choose|p: int| 0 <= p < indices.len() && indices[p] == i as usize;
            assert(indices.push(x)[p] == i as usize);
        }
    }
    assert(after =~= before.update(x as int, true));
}

/// Dropping the one entry that lists an index clears its bit, and leaves a
/// list without repetitions whose entries are below `len` as before.
pub proof fn lemma_indices_bits_remove(indices: Seq<usize>, len: usize, p: int)
    requires
        indices.no_duplicates(),
        indices_below(indices, len),
        0 <= p < indices.len(),
    ensures
        indices.remove(p).no_duplicates(),
        indices_below(indices.remove(p), len),
        indices_bits(indices.remove(p), len) == indices_bits(indices, len).update(indices[p] as int, false),
{
    let x: usize = indices[p];
    let rest = indices.remove(p);
    let before = indices_bits(indices, len);
    let after = indices_bits(rest, len);
    assert forall|i: int| 0 <= i < len implies after[i] == before.update(x as int, false)[i] by {
        if rest.contains(i as usize) {
            let q: int = choose|q: int| 0 <= q < rest.len() && rest[q] == i as usize;
            let s: int = if q < p {
                q
            } else {
                q + 1
            };
            assert(indices[s] == i as usize);
        } else if i != x && indices.contains(i as usize) {
            let s: int = choose|s: int| 0 <= s < indices.len() && indices[s] == i as usize;
            let q: int = if s < p {
                s
            } else {
                s - 1
            };
            assert(rest[q] == i as usize);
        }
    }
    assert(after =~= before.update(x as int, false));
}

/// A list without repetitions, all of it below `len`, has as many entries as
/// its bits hold set ones: the length of the list is the popcount.
pub proof fn lemma_indices_count(indices: Seq<usize>, len: usize)
    requires
        indices.no_duplicates(),
        indices_below(indices, len),
    ensures
        count_ones(indices_bits(indices, len)) == indices.len(),
    decreases indices.len(),
{
    if indices.len() == 0 {
        lemma_count_ones_none(indices_bits(indices, len));
    } else {
        let front = indices.drop_last();
        let x: usize = indices.last();
        lemma_indices_count(front, len);
        lemma_indices_bits_push(front, len, x);
        assert(front.push(x) =~= indices);
        assert(!front.contains(x));
        lemma_count_ones_update(indices_bits(front, len), x as int, true);
    }
}

} // verus!
