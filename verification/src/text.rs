use vstd::prelude::*;

use crate::canvas::Canvas;
use crate::color::Color;

verus! {

/// Whether ab_glyph can parse the bytes as a TrueType font: the success of
/// `FontRef::try_from_slice`, which depends on the bytes alone.
pub uninterp spec fn font_parses(data: Seq<u8>) -> bool;

/// The pixels after imageproc's `draw_text_mut` composites the glyph run of
/// `text` onto `pixels` (a row-major canvas of width `w` and height `h`),
/// in `color`, with the run starting at (x, y) and glyphs `px` pixels tall,
/// using the font parsed from `font`. The result depends on the arguments
/// alone.
pub uninterp spec fn rendered_text(
    pixels: Seq<Color>,
    w: int,
    h: int,
    color: Color,
    x: int,
    y: int,
    px: int,
    font: Seq<u8>,
    text: Seq<char>,
) -> Seq<Color>;

/// Relies on ab_glyph's `FontRef::try_from_slice`: a pure parse of the byte
/// slice that succeeds or fails deterministically.
#[verifier::external_body]
fn font_ok(data: &[u8]) -> (r: bool)
    ensures
        r == font_parses(data@),
{
    ab_glyph::FontRef::try_from_slice(data).is_ok()
}

/// Relies on imageproc's `drawing::draw_text_mut` (and on ab_glyph's
/// `FontRef::try_from_slice` to turn the already-checked bytes into the font
/// it needs): glyph coverage is composited onto the canvas pixel by pixel, a
/// deterministic function of the canvas, color, origin, glyph height, font
/// bytes and text, named `rendered_text` here; the canvas dimensions do not
/// change. The origin, glyph height and text length are bounded so that the
/// 32-bit pixel arithmetic of the glyph layout inside the call stays in
/// range.
#[verifier::external_body]
fn render_text(img: &mut Canvas, color: Color, x: i32, y: i32, px: u32, font: &[u8], text: &str)
    requires
        old(img).wf(),
        font_parses(font@),
        -0x4000_0000 <= x <= 0x4000_0000,
        -0x4000_0000 <= y <= 0x4000_0000,
        px <= 0x1_0000,
        text@.len() <= 0x1000,
    ensures
        final(img).wf(),
        final(img).width == old(img).width,
        final(img).height == old(img).height,
        final(img)@ == rendered_text(
            old(img)@,
            old(img).width as int,
            old(img).height as int,
            color,
            x as int,
            y as int,
            px as int,
            font@,
            text@,
        ),
{
    let parsed = ab_glyph::FontRef::try_from_slice(font).unwrap();
    let mut buf = image::RgbaImage::from_raw(img.width, img.height, img.to_rgba_bytes()).unwrap();
    let scale = ab_glyph::PxScale { x: px as _, y: px as _ };
    imageproc::drawing::draw_text_mut(
        &mut buf,
        image::Rgba([color.r, color.g, color.b, color.a]),
        x,
        y,
        scale,
        &parsed,
        text,
    );
    *img = Canvas::from_rgba_bytes(img.width, img.height, buf.into_raw());
}

impl Canvas {
    /// Rasterizes `text` onto the canvas with its glyph run starting at
    /// (x, y), `px` pixels tall, in the given color, using the TrueType font
    /// in `font`. Returns whether the font bytes parsed; on failure the
    /// canvas is left untouched. The origin, glyph height and text length
    /// are bounded so that the pixel arithmetic of the glyph layout stays in
    /// range.
    pub fn draw_text(
        &mut self,
        color: Color,
        x: i32,
        y: i32,
        px: u32,
        font: &[u8],
        text: &str,
    ) -> (ok: bool)
        requires
            old(self).wf(),
            -0x4000_0000 <= x <= 0x4000_0000,
            -0x4000_0000 <= y <= 0x4000_0000,
            px <= 0x1_0000,
            text@.len() <= 0x1000,
        ensures
            final(self).wf(),
            final(self).width == old(self).width,
            final(self).height == old(self).height,
            ok == font_parses(font@),
            ok ==> final(self)@ == rendered_text(
                old(self)@,
                old(self).width as int,
                old(self).height as int,
                color,
                x as int,
                y as int,
                px as int,
                font@,
                text@,
            ),
            !ok ==> final(self)@ == old(self)@,
    {
        if font_ok(font) {
            render_text(self, color, x, y, px, font, text);
            true
        } else {
            false
        }
    }
}

} // verus!
