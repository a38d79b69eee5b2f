//! Filling a byte range, as runtime init does to clear the
//! uninitialized-data region.

use vstd::prelude::*;

verus! {

/// Sets the `n` bytes of `mem` starting at `start` to `c`, in one forward
/// sweep. Every byte of `[start, start + n)` ends equal to `c`; every other
/// byte keeps its value. A zero-length range is a no-op.
pub fn memset(mem: &mut [u8], start: usize, c: u8, n: usize)
    requires
        start + n <= old(mem)@.len(),
    ensures
        final(mem)@.len() == old(mem)@.len(),
        forall|i: int| start <= i < start + n ==> #[trigger] final(mem)@[i] == c,
        forall|i: int|
            0 <= i < old(mem)@.len() && !(start <= i < start + n) ==> #[trigger] final(mem)@[i]
                == old(mem)@[i],
{
    let mut p: usize = start;
    let mut count: usize = n;
    while count > 0
        invariant
            p + count == start + n,
            start <= p,
            start + n <= mem@.len(),
            mem@.len() == old(mem)@.len(),
            forall|i: int| start <= i < p ==> #[trigger] mem@[i] == c,
            forall|i: int|
                0 <= i < mem@.len() && !(start <= i < p) ==> #[trigger] mem@[i] == old(mem)@[i],
        decreases count,
    {
        mem[p] = c;
        p = p + 1;
        count = count - 1;
    }
}

} // verus!
