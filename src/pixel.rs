use vstd::prelude::*;

verus! {

/// The row, counted from the bottom of the image plane, that the camera
/// samples for the output row `row` (counted from the top of the image).
pub fn camera_row(row: u32, height: u32) -> (r: u32)
    requires
        row < height,
    ensures
        r == height - row,
{
    height - row
}

} // verus!
