//! Cycling palette slots for coloring the plots.

use vstd::prelude::*;

verus! {

/// Number of distinct colors in the palette.
pub const PALETTE_SIZE: usize = 6;

/// Hands out palette slots one after another, cycling back to the first
/// slot once the palette is exhausted.  The renderer maps each slot to an
/// actual terminal color.
pub struct Colormap {
    /// Next palette slot to hand out
    pub index: usize,
}

impl Colormap {
    /// The next slot always lies within the palette.
    pub open spec fn wf(self) -> bool {
        self.index < PALETTE_SIZE
    }

    /// Create a new colormap, starting at the first slot.
    pub fn new() -> (r: Colormap)
        ensures
            r.wf(),
            r.index == 0,
    {
        Colormap { index: 0 }
    }

    /// Hand out the next palette slot and advance, cycling.
    pub fn next(&mut self) -> (r: usize)
        requires
            old(self).wf(),
        ensures
            final(self).wf(),
            r == old(self).index,
            final(self).index == (old(self).index + 1) % (PALETTE_SIZE as int),
    {
        let color = self.index;
        self.index += 1;
        if self.index >= PALETTE_SIZE {
            self.index = 0;
        }
        color
    }
}

} // verus!
