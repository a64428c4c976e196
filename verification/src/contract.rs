//! The operations that every storage strategy offers, stated over the bits alone.

use vstd::prelude::*;
use crate::byte::byte_popcount;
use crate::error::BitmapError;
use crate::model::{all_clear, byte_at, count_ones, one_if, with_byte};

verus! {

/// A bit-set over the indices `0 .. len()`, with `len()` a multiple of eight.
///
/// Every contract speaks of the view only: a sequence of booleans, entry `i`
/// telling whether index `i` is set. Two implementors that hold the same view
/// therefore answer alike and, after the same operation, hold the same view
/// again. An operation that fails leaves the bits as they were.
pub trait BitmapTrait {
    /// What the stored fields must satisfy for the operations to work.
    spec fn wf(&self) -> bool;

    /// The bits, lowest index first.
    spec fn view(&self) -> Seq<bool>;

    /// The bits of a well-formed bit-set come in whole bytes, and their number
    /// fits a `usize`.
    proof fn lemma_whole_bytes(&self)
        requires
            self.wf(),
        ensures
            self@.len() % 8 == 0,
            self@.len() <= usize::MAX,
    ;

    /// The number of addressable bits.
    fn len(&self) -> (n: usize)
        requires
            self.wf(),
        ensures
            n == self@.len(),
            n % 8 == 0,
    ;

    /// Whether the bit at `idx` is set.
    fn get(&self, idx: usize) -> (r: Result<bool, BitmapError>)
        requires
            self.wf(),
        ensures
            idx < self@.len() ==> r == Ok::<bool, BitmapError>(self@[idx as int]),
            idx >= self@.len() ==> r == Err::<bool, BitmapError>(BitmapError::IndexOutOfRange),
    ;

    /// The eight bits from index `idx * 8` on, as one byte whose bit 0 is the
    /// lowest index.
    fn get_ubyte(&self, idx: usize) -> (r: Result<u8, BitmapError>)
        requires
            self.wf(),
        ensures
            idx < self@.len() / 8 ==> r == Ok::<u8, BitmapError>(byte_at(self@, idx as int)),
            idx >= self@.len() / 8 ==> r == Err::<u8, BitmapError>(BitmapError::IndexOutOfRange),
    ;

    /// Replaces the eight bits from index `idx * 8` on by the bits of `byte`.
    /// The count of set bits moves by the popcount of `byte` less that of the
    /// byte it replaces.
    fn set_ubyte(&mut self, idx: usize, byte: u8) -> (r: Result<(), BitmapError>)
        requires
            old(self).wf(),
        ensures
            final(self).wf(),
            idx < old(self)@.len() / 8 ==> r == Ok::<(), BitmapError>(()),
            idx < old(self)@.len() / 8 ==> final(self)@ == with_byte(old(self)@, idx as int, byte),
            idx < old(self)@.len() / 8 ==> count_ones(final(self)@) == count_ones(old(self)@)
                - byte_popcount(byte_at(old(self)@, idx as int)) + byte_popcount(byte),
            idx >= old(self)@.len() / 8 ==> r == Err::<(), BitmapError>(BitmapError::IndexOutOfRange),
            idx >= old(self)@.len() / 8 ==> final(self)@ == old(self)@,
    ;

    /// The number of bits that are set.
    fn popcount(&self) -> (n: usize)
        requires
            self.wf(),
        ensures
            n == count_ones(self@),
    ;

    /// Sets the bit at `idx`. The count of set bits grows by one where the bit
    /// was clear, and stays where it was set already.
    fn set(&mut self, idx: usize) -> (r: Result<(), BitmapError>)
        requires
            old(self).wf(),
        ensures
            final(self).wf(),
            idx < old(self)@.len() ==> r == Ok::<(), BitmapError>(()),
            idx < old(self)@.len() ==> final(self)@ == old(self)@.update(idx as int, true),
            idx < old(self)@.len() ==> count_ones(final(self)@) == count_ones(old(self)@) + one_if(
                !old(self)@[idx as int],
            ),
            idx >= old(self)@.len() ==> r == Err::<(), BitmapError>(BitmapError::IndexOutOfRange),
            idx >= old(self)@.len() ==> final(self)@ == old(self)@,
    ;

    /// Clears the bit at `idx`. The count of set bits falls by one where the
    /// bit was set, and stays where it was clear already.
    fn clear(&mut self, idx: usize) -> (r: Result<(), BitmapError>)
        requires
            old(self).wf(),
        ensures
            final(self).wf(),
            idx < old(self)@.len() ==> r == Ok::<(), BitmapError>(()),
            idx < old(self)@.len() ==> final(self)@ == old(self)@.update(idx as int, false),
            idx < old(self)@.len() ==> count_ones(final(self)@) == count_ones(old(self)@) - one_if(
                old(self)@[idx as int],
            ),
            idx >= old(self)@.len() ==> r == Err::<(), BitmapError>(BitmapError::IndexOutOfRange),
            idx >= old(self)@.len() ==> final(self)@ == old(self)@,
    ;

    /// Clears every bit; the length stays.
    fn clear_all(&mut self)
        requires
            old(self).wf(),
        ensures
            final(self).wf(),
            final(self)@ == all_clear(old(self)@.len()),
            count_ones(final(self)@) == 0,
    ;
}

} // verus!
