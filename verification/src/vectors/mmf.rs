//! Which poles carry a resultant MMF arrow.

use vstd::prelude::*;

verus! {

/// Poles that get a resultant arrow: the north of each pole pair.
///
/// The `2p` pole axes alternate north/south and are evenly spaced, so every
/// south sits exactly halfway between two norths — it marks nothing the norths
/// have not already fixed.
pub fn resultant_poles(pole_pairs: usize) -> (r: Vec<usize>)
    requires
        2 * pole_pairs <= usize::MAX,
    ensures
        r@.len() == pole_pairs,
        forall|i: int| 0 <= i < pole_pairs ==> #[trigger] r@[i] == 2 * i,
{
    let mut r: Vec<usize> = Vec::new();
    let mut pole: usize = 0;
    while pole < 2 * pole_pairs
        invariant
            2 * pole_pairs <= usize::MAX,
            pole % 2 == 0,
            pole <= 2 * pole_pairs,
            r@.len() == pole / 2,
            forall|i: int| 0 <= i < r@.len() ==> #[trigger] r@[i] == 2 * i,
        decreases 2 * pole_pairs - pole,
    {
        r.push(pole);
        pole = pole + 2;
    }
    r
}

} // verus!
