//! RGBA color samples: four 8-bit channels, straight (non-premultiplied) alpha.

use vstd::prelude::*;

verus! {

/// One RGBA sample. Channels are 8-bit; alpha is straight, not premultiplied.
#[derive(Clone, Copy, Debug, PartialEq, Eq, Structural)]
pub struct Rgba {
    pub r: u8,
    pub g: u8,
    pub b: u8,
    pub a: u8,
}

impl Rgba {
    /// Fully transparent white, as a specification-level value.
    pub open spec fn spec_transparent_white() -> Rgba {
        Rgba { r: 255, g: 255, b: 255, a: 0 }
    }

    /// Fully transparent white, the backdrop every composite starts from and
    /// the fill of a freshly created layer.
    #[verifier::when_used_as_spec(spec_transparent_white)]
    pub fn transparent_white() -> (c: Rgba)
        ensures
            c == (Rgba { r: 255, g: 255, b: 255, a: 0 }),
    {
        Rgba { r: 255, g: 255, b: 255, a: 0 }
    }

    /// Builds a sample from its four channels.
    pub fn new(r: u8, g: u8, b: u8, a: u8) -> (c: Rgba)
        ensures
            c == (Rgba { r, g, b, a }),
    {
        Rgba { r, g, b, a }
    }
}

} // verus!
