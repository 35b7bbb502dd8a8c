//! Integer extents in physical device pixels.

use vstd::prelude::*;

verus! {

/// An integer pixel extent in physical device pixels: the unit the platform
/// layer and the render surface allocate buffers in.
#[derive(Clone, Copy, Debug, Default, PartialEq, Eq, Structural)]
pub struct PhysicalSize {
    pub width: u32,
    pub height: u32,
}

impl PhysicalSize {
    /// Number of pixels in an extent, as a mathematical integer.
    pub open spec fn area(self) -> nat {
        (self.width as nat) * (self.height as nat)
    }

    pub fn new(width: u32, height: u32) -> (s: Self)
        ensures
            s.width == width,
            s.height == height,
    {
        PhysicalSize { width, height }
    }

    /// Number of pixels (`width × height`).
    pub fn pixel_count(self) -> (n: u64)
        ensures
            n == self.area(),
    {
        assert(self.width as int * self.height as int <= 0xffff_fffe_0000_0001int) by (nonlinear_arith)
            requires self.width <= 0xffff_ffff, self.height <= 0xffff_ffff;
        (self.width as u64) * (self.height as u64)
    }
}

} // verus!
