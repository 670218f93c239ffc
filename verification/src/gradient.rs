use vstd::arithmetic::div_mod::lemma_fundamental_div_mod_converse;
use vstd::arithmetic::mul::lemma_mul_inequality;
use vstd::prelude::*;

use crate::canvas::Canvas;
use crate::color::Color;
use crate::round::{lemma_round_frac_bounds, lemma_round_frac_exact, round_frac, round_frac_exec};

verus! {

/// One channel of the vertical gradient: the linear interpolation from `s`
/// (top row) to `e` (bottom row) at row `y` of `h` rows, rounded to the
/// nearest integer. A single-row canvas keeps the start value.
pub open spec fn lerp_channel(s: int, e: int, y: int, h: int) -> int {
    if h <= 1 {
        s
    } else {
        s + round_frac(y * (e - s), h - 1)
    }
}

/// The pixel that the vertical gradient from `start` to `end` puts on row `y`
/// of an `h`-row canvas.
pub open spec fn grad_color(start: Color, end: Color, y: int, h: int) -> Color {
    Color {
        r: lerp_channel(start.r as int, end.r as int, y, h) as u8,
        g: lerp_channel(start.g as int, end.g as int, y, h) as u8,
        b: lerp_channel(start.b as int, end.b as int, y, h) as u8,
        a: lerp_channel(start.a as int, end.a as int, y, h) as u8,
    }
}

/// The whole canvas content after a vertical gradient fill: the pixel at
/// row-major index `i` lies on row `i / w`.
pub open spec fn gradient_seq(w: int, h: int, start: Color, end: Color) -> Seq<Color> {
    Seq::new((w * h) as nat, |i: int| grad_color(start, end, i / w, h))
}

/// The interpolated channel stays between its two endpoints.
pub proof fn lemma_lerp_channel_bounds(s: int, e: int, y: int, h: int)
    requires
        0 <= y < h,
    ensures
        lerp_channel(s, e, y, h) <= if s <= e { e } else { s },
        lerp_channel(s, e, y, h) >= if s <= e { s } else { e },
{
    if h > 1 {
        if s <= e {
            lemma_mul_inequality(y, h - 1, e - s);
            lemma_round_frac_bounds(y * (e - s), h - 1, 0, e - s);
        } else {
            lemma_mul_inequality(y, h - 1, s - e);
            assert(y * (e - s) == -(y * (s - e))) by (nonlinear_arith);
            assert((e - s) * (h - 1) == -((s - e) * (h - 1))) by (nonlinear_arith);
            lemma_round_frac_bounds(y * (e - s), h - 1, e - s, 0);
        }
    }
}

/// The top row of the gradient carries exactly the start color, the bottom
/// row exactly the end color.
pub proof fn lemma_gradient_endpoints(s: int, e: int, h: int)
    requires
        1 <= h,
    ensures
        lerp_channel(s, e, 0, h) == s,
        h >= 2 ==> lerp_channel(s, e, h - 1, h) == e,
{
    if h > 1 {
        lemma_round_frac_exact(0, h - 1);
        assert(0 * (h - 1) == 0) by (nonlinear_arith);
        assert(0 * (e - s) == 0) by (nonlinear_arith);
        lemma_round_frac_exact(e - s, h - 1);
        assert((h - 1) * (e - s) == (e - s) * (h - 1)) by (nonlinear_arith);
        assert(round_frac((h - 1) * (e - s), h - 1) == e - s);
        assert(lerp_channel(s, e, h - 1, h) == s + (e - s));
    }
}

/// Law: on a freshly drawn vertical gradient the whole top row is exactly the
/// start color and, when there are at least two rows, the whole bottom row is
/// exactly the end color, channel by channel.
pub proof fn lemma_gradient_boundary(w: int, h: int, start: Color, end: Color, x: int)
    requires
        0 <= x < w,
        1 <= h,
    ensures
        gradient_seq(w, h, start, end)[x] == start,
        h >= 2 ==> gradient_seq(w, h, start, end)[(h - 1) * w + x] == end,
{
    lemma_gradient_endpoints(start.r as int, end.r as int, h);
    lemma_gradient_endpoints(start.g as int, end.g as int, h);
    lemma_gradient_endpoints(start.b as int, end.b as int, h);
    lemma_gradient_endpoints(start.a as int, end.a as int, h);
    lemma_fundamental_div_mod_converse(x, w, 0, x);
    assert(x < w * h) by (nonlinear_arith)
        requires
            0 <= x < w,
            1 <= h,
    ;
    assert(gradient_seq(w, h, start, end)[x] == grad_color(start, end, 0, h));
    if h >= 2 {
        assert(0 <= (h - 1) * w + x < w * h) by (nonlinear_arith)
            requires
                0 <= x < w,
                2 <= h,
        ;
        lemma_fundamental_div_mod_converse((h - 1) * w + x, w, h - 1, x);
        assert(gradient_seq(w, h, start, end)[(h - 1) * w + x] == grad_color(
            start,
            end,
            h - 1,
            h,
        ));
    }
}

/// One gradient channel on machine integers, with the result shown to lie in
/// the byte range.
fn lerp_channel_exec(s: u8, e: u8, y: u32, h: u32) -> (r: u8)
    requires
        y < h,
    ensures
        r as int == lerp_channel(s as int, e as int, y as int, h as int),
{
    if h <= 1 {
        s
    } else {
        proof {
            assert(-0x100_0000_0000 <= (y as int) * ((e as int) - (s as int)) <= 0x100_0000_0000)
                by (nonlinear_arith)
                requires
                    0 <= (y as int) < 0x1_0000_0000,
                    -255 <= (e as int) - (s as int) <= 255,
            ;
        }
        let num: i128 = (y as i128) * ((e as i128) - (s as i128));
        let den: i128 = (h as i128) - 1;
        let rf = round_frac_exec(num, den);
        proof {
            lemma_lerp_channel_bounds(s as int, e as int, y as int, h as int);
        }
        (s as i128 + rf) as u8
    }
}

impl Canvas {
    /// Fills the canvas with a vertical gradient: the top row holds `start`,
    /// the bottom row holds `end`, and every row between them the rounded
    /// per-channel linear interpolation of the two.
    pub fn fill_vertical_gradient(&mut self, start: Color, end: Color)
        requires
            old(self).wf(),
        ensures
            final(self).wf(),
            final(self).width == old(self).width,
            final(self).height == old(self).height,
            final(self)@ == gradient_seq(
                old(self).width as int,
                old(self).height as int,
                start,
                end,
            ),
    {
        let w = self.width;
        let h = self.height;
        let ghost gw = w as int;
        let ghost gh = h as int;
        let mut y: u32 = 0;
        while y < h
            invariant
                self.wf(),
                self.width == w,
                self.height == h,
                gw == w as int,
                gh == h as int,
                y <= h,
                forall|i: int|
                    0 <= i < y * gw ==> self@[i] == grad_color(start, end, i / gw, gh),
            decreases h - y,
        {
            let c = Color {
                r: lerp_channel_exec(start.r, end.r, y, h),
                g: lerp_channel_exec(start.g, end.g, y, h),
                b: lerp_channel_exec(start.b, end.b, y, h),
                a: lerp_channel_exec(start.a, end.a, y, h),
            };
            proof {
                assert(c == grad_color(start, end, y as int, gh));
            }
            let mut x: u32 = 0;
            while x < w
                invariant
                    self.wf(),
                    self.width == w,
                    self.height == h,
                    y < h,
                    x <= w,
                    c == grad_color(start, end, y as int, gh),
                    gw == w as int,
                    gh == h as int,
                    forall|i: int|
                        0 <= i < y * gw + x ==> self@[i] == grad_color(start, end, i / gw, gh),
                decreases w - x,
            {
                self.put_pixel(x as i64, y as i64, c);
                proof {
                    assert((y as int) * gw + (x as int) < self@.len()) by (nonlinear_arith)
                        requires
                            self@.len() == gw * gh,
                            0 <= (y as int) < gh,
                            0 <= (x as int) < gw,
                    ;
                    lemma_fundamental_div_mod_converse(
                        (y as int) * gw + (x as int),
                        gw,
                        y as int,
                        x as int,
                    );
                }
                x += 1;
            }
            proof {
                assert(y * gw + gw == (y + 1) * gw) by (nonlinear_arith);
            }
            y += 1;
        }
        proof {
            assert(gh * gw == gw * gh);
            assert(final(self)@ =~= gradient_seq(gw, gh, start, end));
        }
    }
}

} // verus!
