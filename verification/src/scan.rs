//! Where in a ROM containers are looked for.

use vstd::prelude::*;
use crate::header::HEADER_LEN;

verus! {

/// Containers start on a 64K boundary.
pub const SCAN_STRIDE: usize = 0x1_0000;

/// The number of offsets that are probed in a ROM of `mem_len` bytes: the
/// multiples of the stride at which a whole header window still fits.
pub open spec fn candidate_count(mem_len: int) -> int {
    if mem_len < HEADER_LEN {
        0
    } else {
        (mem_len - HEADER_LEN) / (SCAN_STRIDE as int) + 1
    }
}

/// The offsets to probe in a ROM of `mem_len` bytes, in rising order.
pub fn scan_offsets(mem_len: usize) -> (offsets: Vec<usize>)
    ensures
        offsets@.len() == candidate_count(mem_len as int),
        forall|i: int|
            0 <= i < offsets@.len() ==> #[trigger] offsets@[i] == i * SCAN_STRIDE && offsets@[i]
                + HEADER_LEN <= mem_len,
{
    let mut offsets: Vec<usize> = Vec::new();
    if mem_len < HEADER_LEN {
        return offsets;
    }
    let last: usize = mem_len - HEADER_LEN;
    let mut offset: usize = 0;
    loop
        invariant_except_break
            offset <= last,
            offset == offsets@.len() * SCAN_STRIDE,
        invariant
            last == mem_len - HEADER_LEN,
            forall|i: int|
                0 <= i < offsets@.len() ==> #[trigger] offsets@[i] == i * SCAN_STRIDE
                    && offsets@[i] <= last,
        ensures
            offsets@.len() == last / SCAN_STRIDE + 1,
        decreases last - offset,
    {
        offsets.push(offset);
        if last - offset < SCAN_STRIDE {
            break ;
        }
        offset = offset + SCAN_STRIDE;
    }
    offsets
}

} // verus!
