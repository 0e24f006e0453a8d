//! Per-pixel coverage masks. A mask rides with its entity's rendered
//! footprint: a masked draw composites every written pixel through the
//! mask's coverage byte at that pixel instead of painting directly.
use vstd::prelude::*;

verus! {

/// A per-pixel coverage grid, row-major; `255` is full coverage, `0` none.
/// The grid is centered on the masked sprite's position; destination pixels
/// outside the grid have coverage `0`.
#[derive(Clone, Debug, PartialEq, Eq)]
pub struct Mask {
    pub coverage: Vec<Vec<u8>>,
}

impl Mask {
    /// Every row has the same length: the grid is a proper rectangle.
    pub open spec fn well_formed(self) -> bool {
        forall|i: int| 0 <= i < self.coverage@.len()
            ==> (#[trigger] self.coverage@[i])@.len() == self.width_spec()
    }

    pub open spec fn height_spec(self) -> nat {
        self.coverage@.len()
    }

    pub open spec fn width_spec(self) -> nat {
        if self.coverage@.len() == 0 { 0 } else { self.coverage@[0]@.len() }
    }
}

} // verus!
