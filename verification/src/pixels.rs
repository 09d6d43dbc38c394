//! Handing pixels to the host: an exact copy into a buffer that the caller
//! owns and has sized.

use vstd::prelude::*;

verus! {

/// Overwrites `dest` with `source`, byte for byte.
pub fn copy_pixels(source: &[u8], dest: &mut [u8])
    requires
        old(dest)@.len() == source@.len(),
    ensures
        final(dest)@ == source@,
{
    let mut i: usize = 0;
    while i < source.len()
        invariant
            i <= source@.len(),
            dest@.len() == source@.len(),
            forall|j: int| 0 <= j < i ==> dest@[j] == source@[j],
        decreases source@.len() - i,
    {
        dest[i] = source[i];
        i += 1;
    }
    assert(dest@ =~= source@);
}

} // verus!
