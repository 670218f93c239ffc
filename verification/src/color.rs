use vstd::prelude::*;

verus! {

/// One RGBA pixel: sRGB channels with straight (non-premultiplied) alpha.
#[derive(Clone, Copy, Debug, PartialEq, Eq, Structural)]
pub struct Color {
    pub r: u8,
    pub g: u8,
    pub b: u8,
    pub a: u8,
}

impl Color {
    /// A fully opaque color from its three sRGB channels.
    pub fn rgb(r: u8, g: u8, b: u8) -> (c: Color)
        ensures
            c == (Color { r, g, b, a: 255 }),
    {
        Color { r, g, b, a: 255 }
    }

    /// The all-zero pixel that a freshly allocated raster holds.
    pub fn zero() -> (c: Color)
        ensures
            c == (Color { r: 0, g: 0, b: 0, a: 0 }),
    {
        Color { r: 0, g: 0, b: 0, a: 0 }
    }
}

/// The given pixel with its alpha channel forced to full opacity.
pub open spec fn with_full_alpha(c: Color) -> Color {
    Color { r: c.r, g: c.g, b: c.b, a: 255 }
}

/// Every pixel of the sequence with its alpha channel forced to full
/// opacity.
pub open spec fn with_full_alpha_seq(s: Seq<Color>) -> Seq<Color> {
    s.map_values(|p: Color| with_full_alpha(p))
}

/// Every pixel of the sequence is fully opaque.
pub open spec fn all_opaque(s: Seq<Color>) -> bool {
    forall|i: int| 0 <= i < s.len() ==> #[trigger] s[i].a == 255
}

} // verus!
