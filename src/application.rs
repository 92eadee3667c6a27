//! Layout helpers for the palette images of the themes.
use vstd::prelude::*;

verus! {

/// The index of pixel `(x, y)` in a palette image seven pixels wide.
pub fn pixel_index(x: usize, y: usize) -> (r: usize)
    requires
        y * 7 + x <= usize::MAX,
    ensures
        r == y * 7 + x,
{
    (y * 7) + x
}

} // verus!
