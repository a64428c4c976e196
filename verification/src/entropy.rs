//! Turning what was read from the system's entropy device into a 64-bit number.

use vstd::prelude::*;
use crate::error::BitmapError;

verus! {

/// The number that eight bytes spell when the first byte is the most significant.
pub open spec fn be_value(bytes: Seq<u8>) -> int {
    bytes[0] * 0x0100_0000_0000_0000 + bytes[1] * 0x0001_0000_0000_0000 + bytes[2] * 0x0000_0100_0000_0000
        + bytes[3] * 0x0000_0001_0000_0000 + bytes[4] * 0x0000_0000_0100_0000 + bytes[5]
        * 0x0000_0000_0001_0000 + bytes[6] * 0x0000_0000_0000_0100 + bytes[7]
}

/// The random number that a read of the entropy device gave: the eight bytes
/// of `buf` as a big-endian number where `got`, the count of bytes read, is
/// eight, and no number after a short read.
pub fn rand64_from_read(buf: &[u8; 8], got: usize) -> (r: Result<u64, BitmapError>)
    ensures
        got == 8 ==> (r matches Ok(value) && value == be_value(buf@)),
        got != 8 ==> r == Err::<u64, BitmapError>(BitmapError::EntropyUnavailable),
{
    if got != 8 {
        return Err(BitmapError::EntropyUnavailable);
    }
    let value: u64 = buf[0] as u64 * 0x0100_0000_0000_0000 + buf[1] as u64 * 0x0001_0000_0000_0000 + buf[2] as u64
        * 0x0000_0100_0000_0000 + buf[3] as u64 * 0x0000_0001_0000_0000 + buf[4] as u64
        * 0x0000_0000_0100_0000 + buf[5] as u64 * 0x0000_0000_0001_0000 + buf[6] as u64
        * 0x0000_0000_0000_0100 + buf[7] as u64;
    Ok(value)
}

} // verus!
