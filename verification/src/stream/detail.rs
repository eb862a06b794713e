pub mod read;
pub mod write;

use vstd::prelude::*;

verus! {

/// Smaller of a buffer length and a 64-bit frame length.
pub open spec fn spec_min_len(buf_len: usize, length: u64) -> int {
    if (buf_len as int) <= (length as int) {
        buf_len as int
    } else {
        length as int
    }
}

/// Number of payload bytes of a frame of `length` bytes that fit in a
/// buffer of `buf_len` bytes.
pub fn min_len(buf_len: usize, length: u64) -> (r: usize)
    ensures
        r == spec_min_len(buf_len, length),
{
    if (buf_len as u64) <= length {
        buf_len
    } else {
        length as usize
    }
}

} // verus!
