//! Physics bookkeeping that does not depend on floating-point arithmetic.

pub mod broadphase;
pub mod integrator;

use vstd::prelude::*;

verus! {

/// Borrows two distinct elements of a slice mutably at the same time.
///
/// The first reference points at `slice[a]`, the second at `slice[b]`;
/// when both borrows end, the slice holds their final values at those
/// positions and is unchanged elsewhere.
pub fn get_two_mut<T>(slice: &mut [T], a: usize, b: usize) -> (ret: (&mut T, &mut T))
    requires
        a != b,
        a < old(slice)@.len(),
        b < old(slice)@.len(),
    ensures
        *ret.0 == old(slice)@[a as int],
        *ret.1 == old(slice)@[b as int],
        final(slice)@ == old(slice)@.update(a as int, *final(ret.0)).update(b as int, *final(ret.1)),
{
    if a < b {
        let (first, second) = slice.split_at_mut(b);
        (&mut first[a], &mut second[0])
    } else {
        let (first, second) = slice.split_at_mut(a);
        (&mut second[0], &mut first[b])
    }
}

} // verus!
