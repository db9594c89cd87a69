//! Plain color values used throughout the library.

use vstd::prelude::*;

verus! {

/// RGB color triple, as read from skin configuration files.
#[derive(Debug, Clone, Copy, PartialEq, Eq, Structural)]
pub struct RgbColor {
    pub r: u8,
    pub g: u8,
    pub b: u8,
}

/// RGBA pixel value.
#[derive(Debug, Clone, Copy, PartialEq, Eq, Structural)]
pub struct RgbaColor {
    pub r: u8,
    pub g: u8,
    pub b: u8,
    pub a: u8,
}

impl RgbaColor {
    /// An RGB color as a fully opaque pixel.
    pub fn from_rgb(c: RgbColor) -> (r: RgbaColor)
        ensures
            r == (RgbaColor { r: c.r, g: c.g, b: c.b, a: 255u8 }),
    {
        RgbaColor { r: c.r, g: c.g, b: c.b, a: 255 }
    }
}

/// The reserved transparency-key color that fills the parts of a
/// reconstructed sheet not covered by any sprite (#00C6FF, opaque).
pub open spec fn transparency_key() -> RgbaColor {
    RgbaColor { r: 0, g: 198, b: 255, a: 255 }
}

/// Returns the transparency-key color.
pub fn transparency_key_color() -> (r: RgbaColor)
    ensures
        r == transparency_key(),
{
    RgbaColor { r: 0, g: 198, b: 255, a: 255 }
}

} // verus!
