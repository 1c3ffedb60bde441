//! Screen-facing value types: resolutions and color depths.
//!
//! These are the plain values the windowing shell and the pixel buffer
//! agree on; the window itself (and everything that talks to the display)
//! lives outside this crate.

use crate::common::lemma_area_fits;
use vstd::prelude::*;

verus! {

/// Supported color depths of a raw frame.
#[derive(Clone, Copy, Debug, PartialEq, Eq, Structural)]
pub enum ColorDepth {
    L8,
    La8,
    Rgb8,
    Rgba8,
}

/// Bytes per pixel at a given color depth.
pub open spec fn depth_bytes(depth: ColorDepth) -> int {
    match depth {
        ColorDepth::L8 => 1,
        ColorDepth::La8 => 2,
        ColorDepth::Rgb8 => 3,
        ColorDepth::Rgba8 => 4,
    }
}

impl ColorDepth {
    /// How many bytes one pixel takes at this depth.
    pub fn bytes_per_pixel(self) -> (r: usize)
        ensures
            r == depth_bytes(self),
    {
        match self {
            ColorDepth::L8 => 1,
            ColorDepth::La8 => 2,
            ColorDepth::Rgb8 => 3,
            ColorDepth::Rgba8 => 4,
        }
    }
}

/// A fixed width-by-height extent, in cells or pixels.
#[derive(Clone, Copy, Debug, PartialEq, Eq, Structural)]
pub struct Resolution {
    pub width: u16,
    pub height: u16,
}

impl Resolution {
    pub fn new(width: u16, height: u16) -> (r: Self)
        ensures
            r.width == width,
            r.height == height,
    {
        Self { width, height }
    }

    /// The number of cells the extent covers.
    pub fn area(self) -> (r: usize)
        ensures
            r == self.width * self.height,
    {
        proof {
            lemma_area_fits(self.width as int, self.height as int);
        }
        (self.width as usize) * (self.height as usize)
    }

    /// The extent's central cell.
    pub fn center(self) -> (r: (u16, u16))
        ensures
            r.0 == self.width / 2,
            r.1 == self.height / 2,
    {
        (self.width / 2, self.height / 2)
    }
}

} // verus!
