//! A single 4-channel pixel: red, green, blue, alpha, each in 0..=255.

use vstd::prelude::*;

verus! {

/// One RGBA pixel. Alpha 0 is fully transparent, 255 fully opaque.
#[derive(Clone, Copy, PartialEq, Eq, Structural, Debug)]
pub struct Px {
    pub r: u8,
    pub g: u8,
    pub b: u8,
    pub a: u8,
}

/// The zero-initialized, fully transparent pixel.
pub open spec fn clear_px() -> Px {
    Px { r: 0, g: 0, b: 0, a: 0 }
}

/// The pixel value that marks a blocked cell in the collision raster.
pub open spec fn blocked_px() -> Px {
    Px { r: 0, g: 0, b: 0, a: 255 }
}

impl Px {
    /// The zero-initialized, fully transparent pixel.
    pub fn transparent() -> (p: Px)
        ensures
            p == clear_px(),
    {
        Px { r: 0, g: 0, b: 0, a: 0 }
    }

    /// The pixel value that marks a blocked cell in the collision raster.
    pub fn blocked() -> (p: Px)
        ensures
            p == blocked_px(),
    {
        Px { r: 0, g: 0, b: 0, a: 255 }
    }
}

} // verus!
