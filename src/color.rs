use vstd::prelude::*;

verus! {

/// An RGBA colour with one byte per channel.
#[derive(Debug, Clone, Copy, PartialEq, Eq, Structural)]
pub struct Rgba {
    pub r: u8,
    pub g: u8,
    pub b: u8,
    pub a: u8,
}

/// Two colours agree on their red, green and blue channels; alpha is ignored.
pub open spec fn rgb_eq(c: Rgba, d: Rgba) -> bool {
    c.r == d.r && c.g == d.g && c.b == d.b
}

impl Rgba {
    pub fn new(r: u8, g: u8, b: u8, a: u8) -> (c: Rgba)
        ensures
            c == (Rgba { r, g, b, a }),
    {
        Rgba { r, g, b, a }
    }

    /// Colour equality that ignores the alpha channel.
    pub fn alphaless_match(&self, other: &Rgba) -> (m: bool)
        ensures
            m == rgb_eq(*self, *other),
    {
        self.r == other.r && self.g == other.g && self.b == other.b
    }
}

} // verus!
