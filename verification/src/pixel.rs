//! RGBA pixel values and the fixed palette-adjacent color constants.
//!
//! A pixel is four 8-bit channels; equality is exact channel-wise equality.
//! A pixel whose alpha channel is below 255 is "not fully opaque" and is
//! rendered as the terminal's default background by the surrounding
//! application; no blending is modeled here.

use vstd::prelude::*;

verus! {

/// An RGBA color value, the atomic unit of the canvas.
#[derive(Clone, Copy, PartialEq, Eq, Structural, Debug)]
pub struct Pixel {
    pub r: u8,
    pub g: u8,
    pub b: u8,
    pub a: u8,
}

impl Pixel {
    /// Opaque white, the initial value of every canvas cell.
    pub open spec fn spec_white() -> Pixel {
        Pixel { r: 255, g: 255, b: 255, a: 255 }
    }

    /// Opaque black, the initial drawing color.
    pub open spec fn spec_black() -> Pixel {
        Pixel { r: 0, g: 0, b: 0, a: 0xff }
    }

    #[verifier::when_used_as_spec(spec_white)]
    pub fn white() -> (p: Pixel)
        ensures
            p == Pixel::spec_white(),
    {
        Pixel { r: 255, g: 255, b: 255, a: 255 }
    }

    #[verifier::when_used_as_spec(spec_black)]
    pub fn black() -> (p: Pixel)
        ensures
            p == Pixel::spec_black(),
    {
        Pixel { r: 0, g: 0, b: 0, a: 255 }
    }

    pub fn from_rgba(r: u8, g: u8, b: u8, a: u8) -> (p: Pixel)
        ensures
            p == (Pixel { r, g, b, a }),
    {
        Pixel { r, g, b, a }
    }

    /// A fully opaque color: alpha is fixed at 255.
    pub fn from_rgb(r: u8, g: u8, b: u8) -> (p: Pixel)
        ensures
            p == (Pixel { r, g, b, a: 255 }),
    {
        Pixel::from_rgba(r, g, b, 255)
    }

    /// Whether this pixel is drawn as a solid color rather than the
    /// terminal's default background.
    pub open spec fn spec_is_opaque(&self) -> bool {
        self.a == 255
    }

    #[verifier::when_used_as_spec(spec_is_opaque)]
    pub fn is_opaque(&self) -> (r: bool)
        ensures
            r == self.spec_is_opaque(),
    {
        self.a == 255
    }
}

impl Default for Pixel {
    /// The default cell value is opaque white.
    fn default() -> (p: Pixel)
        ensures
            p == Pixel::spec_white(),
    {
        Pixel::white()
    }
}

} // verus!
