use vstd::prelude::*;

use crate::bezier::bezier_points;
use crate::canvas::{lemma_paint_opaque, lemma_put_opaque, paint, put_spec, Canvas};
use crate::color::{all_opaque, with_full_alpha_seq, Color};
use crate::gradient::gradient_seq;
use crate::line::line_points;
use crate::rng::RandomSource;
use crate::text::{font_parses, rendered_text};

verus! {

/// The ways a generation can fail.
#[derive(Clone, Copy, Debug, PartialEq, Eq, Structural)]
pub enum CaptchaError {
    /// The embedded font bytes are not a parseable TrueType font.
    InvalidFont,
}

/// The code point of the alphabet entry at `i`: the capital letters, then
/// the small letters, then the digits.
pub open spec fn spec_code_byte(i: int) -> int {
    if i < 26 {
        65 + i
    } else if i < 52 {
        97 + (i - 26)
    } else {
        48 + (i - 52)
    }
}

/// The character belongs to the code alphabet `A-Z`, `a-z`, `0-9`.
pub open spec fn is_code_char(c: char) -> bool {
    let u = c as u32;
    ('A' as u32 <= u && u <= 'Z' as u32) || ('a' as u32 <= u && u <= 'z' as u32) || ('0' as u32
        <= u && u <= '9' as u32)
}

/// The alphabet byte at index `idx`.
fn code_byte(idx: u8) -> (b: u8)
    requires
        idx < 62,
    ensures
        b as int == spec_code_byte(idx as int),
        b < 128,
{
    if idx < 26 {
        65 + idx
    } else if idx < 52 {
        97 + (idx - 26)
    } else {
        48 + (idx - 52)
    }
}

/// Relies on String::from_utf8: bytes below 128 are ASCII and decode to one
/// character per byte with the same code point.
#[verifier::external_body]
fn string_from_ascii(bytes: Vec<u8>) -> (r: String)
    requires
        forall|i: int| 0 <= i < bytes@.len() ==> bytes@[i] < 128,
    ensures
        r@ == bytes@.map_values(|b: u8| b as char),
{
    String::from_utf8(bytes).unwrap()
}

/// Samples a fresh code: five characters drawn independently from the
/// 62-character alphabet through the given random source.
pub fn code_with<R: RandomSource>(rng: &mut R) -> (code: String)
    ensures
        code@.len() == 5,
        forall|i: int| 0 <= i < 5 ==> is_code_char(#[trigger] code@[i]),
{
    let mut bytes: Vec<u8> = Vec::new();
    let mut k: usize = 0;
    while k < 5
        invariant
            bytes@.len() == k,
            k <= 5,
            forall|i: int|
                0 <= i < k ==> bytes@[i] < 128 && is_code_char(#[trigger] bytes@[i] as char),
        decreases 5 - k,
    {
        let idx = rng.next_below(62);
        let b = code_byte(idx as u8);
        bytes.push(b);
        k += 1;
    }
    let code = string_from_ascii(bytes);
    proof {
        assert(forall|i: int| 0 <= i < 5 ==> is_code_char(#[trigger] code@[i]));
    }
    code
}

/// How many draws the noise elements before element `k` consume: five for
/// each point, seven for each line segment, eleven for each curve.
pub open spec fn noise_draw_base(k: int) -> int {
    if k <= 50 {
        5 * k
    } else if k <= 60 {
        250 + 7 * (k - 50)
    } else {
        320 + 11 * (k - 60)
    }
}

/// The canvas after noise element `k` is drawn over `s` with the draws of
/// `d`: elements 0 to 49 are single points, 50 to 59 line segments, 60 to 64
/// cubic Bezier curves, each in the opaque color its three last draws give.
pub open spec fn noise_elem(s: Seq<Color>, w: int, h: int, d: Seq<int>, k: int) -> Seq<Color> {
    let b = noise_draw_base(k);
    if k < 50 {
        put_spec(
            s,
            w,
            h,
            d[b],
            d[b + 1],
            Color { r: d[b + 2] as u8, g: d[b + 3] as u8, b: d[b + 4] as u8, a: 255 },
        )
    } else if k < 60 {
        paint(
            s,
            w,
            h,
            line_points(d[b], d[b + 1], d[b + 2], d[b + 3]),
            Color { r: d[b + 4] as u8, g: d[b + 5] as u8, b: d[b + 6] as u8, a: 255 },
        )
    } else {
        paint(
            s,
            w,
            h,
            bezier_points(d[b], d[b + 1], d[b + 2], d[b + 3], d[b + 4], d[b + 5], d[b + 6], d[b + 7]),
            Color { r: d[b + 8] as u8, g: d[b + 9] as u8, b: d[b + 10] as u8, a: 255 },
        )
    }
}

/// The canvas after the first `k` noise elements.
pub open spec fn noise_prefix(s: Seq<Color>, w: int, h: int, d: Seq<int>, k: int) -> Seq<Color>
    decreases k,
{
    if k <= 0 {
        s
    } else {
        noise_elem(noise_prefix(s, w, h, d, k - 1), w, h, d, k - 1)
    }
}

/// The canvas after the whole noise pass: 50 points, then 10 line segments,
/// then 5 curves, in that order.
pub open spec fn noise_result(s: Seq<Color>, w: int, h: int, d: Seq<int>) -> Seq<Color> {
    noise_prefix(s, w, h, d, 65)
}

/// The draws of point element `k` lie in the ranges the pass samples them
/// from.
pub open spec fn point_draws_ok(d: Seq<int>, w: int, h: int, k: int) -> bool {
    let b = noise_draw_base(k);
    &&& 0 <= d[b] < w
    &&& 0 <= d[b + 1] < h
    &&& 0 <= d[b + 2] < 256
    &&& 0 <= d[b + 3] < 256
    &&& 0 <= d[b + 4] < 256
}

/// The draws of line element `k` lie in the ranges the pass samples them
/// from.
pub open spec fn line_draws_ok(d: Seq<int>, w: int, h: int, k: int) -> bool {
    let b = noise_draw_base(k);
    &&& 0 <= d[b] < w
    &&& 0 <= d[b + 1] < h
    &&& 0 <= d[b + 2] < w
    &&& 0 <= d[b + 3] < h
    &&& 0 <= d[b + 4] < 256
    &&& 0 <= d[b + 5] < 256
    &&& 0 <= d[b + 6] < 256
}

/// The draws of curve element `k` lie in the ranges the pass samples them
/// from: endpoints on the canvas, the first control point in [0, 360) on
/// each axis, the second below the first (a zero clamped up to one).
pub open spec fn curve_draws_ok(d: Seq<int>, w: int, h: int, k: int) -> bool {
    let b = noise_draw_base(k);
    &&& 0 <= d[b] < w
    &&& 0 <= d[b + 1] < h
    &&& 0 <= d[b + 2] < w
    &&& 0 <= d[b + 3] < h
    &&& 0 <= d[b + 4] < 360
    &&& 0 <= d[b + 5] < 360
    &&& 0 <= d[b + 6] < (if d[b + 4] == 0 { 1 } else { d[b + 4] })
    &&& 0 <= d[b + 7] < (if d[b + 5] == 0 { 1 } else { d[b + 5] })
    &&& 0 <= d[b + 8] < 256
    &&& 0 <= d[b + 9] < 256
    &&& 0 <= d[b + 10] < 256
}

/// Every one of the 375 noise draws lies in the range it is sampled from.
pub open spec fn noise_draws_ok(d: Seq<int>, w: int, h: int) -> bool {
    &&& d.len() == 375
    &&& forall|k: int| 0 <= k < 50 ==> #[trigger] point_draws_ok(d, w, h, k)
    &&& forall|k: int| 50 <= k < 60 ==> #[trigger] line_draws_ok(d, w, h, k)
    &&& forall|k: int| 60 <= k < 65 ==> #[trigger] curve_draws_ok(d, w, h, k)
}

/// The first `k` noise elements read only the first `noise_draw_base(k)`
/// draws.
proof fn lemma_noise_prefix_extend(s: Seq<Color>, w: int, h: int, d1: Seq<int>, d2: Seq<int>, k: int)
    requires
        0 <= k <= 65,
        forall|i: int| 0 <= i < noise_draw_base(k) ==> d1[i] == d2[i],
    ensures
        noise_prefix(s, w, h, d1, k) == noise_prefix(s, w, h, d2, k),
    decreases k,
{
    if k > 0 {
        assert(noise_draw_base(k - 1) >= 0);
        assert(noise_draw_base(k - 1) + 5 <= noise_draw_base(k));
        lemma_noise_prefix_extend(s, w, h, d1, d2, k - 1);
        let b = noise_draw_base(k - 1);
        assert(d1[b] == d2[b] && d1[b + 1] == d2[b + 1] && d1[b + 2] == d2[b + 2] && d1[b + 3]
            == d2[b + 3] && d1[b + 4] == d2[b + 4]);
        if k - 1 >= 50 {
            assert(d1[b + 5] == d2[b + 5] && d1[b + 6] == d2[b + 6]);
        }
        if k - 1 >= 60 {
            assert(d1[b + 7] == d2[b + 7] && d1[b + 8] == d2[b + 8] && d1[b + 9] == d2[b + 9]
                && d1[b + 10] == d2[b + 10]);
        }
        assert(noise_elem(noise_prefix(s, w, h, d1, k - 1), w, h, d1, k - 1) == noise_elem(
            noise_prefix(s, w, h, d2, k - 1),
            w,
            h,
            d2,
            k - 1,
        ));
    }
}

/// Overlays the random noise of a generation onto the canvas: 50 random
/// points, 10 random line segments and 5 random cubic Bezier curves, every
/// color fully opaque with independently drawn channels. The second control
/// point of each curve is drawn below the first one, a zero coordinate
/// clamped up to one so that the range of the draw is never empty. A fully
/// opaque canvas stays fully opaque.
pub fn apply_noise<R: RandomSource>(img: &mut Canvas, rng: &mut R)
    requires
        old(img).wf(),
        1 <= old(img).width <= 0x8000_0000,
        1 <= old(img).height <= 0x8000_0000,
    ensures
        final(img).wf(),
        final(img).width == old(img).width,
        final(img).height == old(img).height,
        all_opaque(old(img)@) ==> all_opaque(final(img)@),
        exists|d: Seq<int>|
            #[trigger] noise_draws_ok(d, old(img).width as int, old(img).height as int)
                && final(img)@ == noise_result(
                old(img)@,
                old(img).width as int,
                old(img).height as int,
                d,
            ),
{
    let w = img.width;
    let h = img.height;
    let ghost gw = w as int;
    let ghost gh = h as int;
    let ghost orig = img@;
    let ghost mut log = Seq::<int>::empty();
    let mut k: u32 = 0;
    while k < 50
        invariant
            img.wf(),
            img.width == w,
            img.height == h,
            gw == w as int,
            gh == h as int,
            1 <= w <= 0x8000_0000,
            1 <= h <= 0x8000_0000,
            all_opaque(orig) ==> all_opaque(img@),
            k <= 50,
            log.len() == noise_draw_base(k as int),
            img@ == noise_prefix(orig, gw, gh, log, k as int),
            forall|j: int| 0 <= j < k ==> #[trigger] point_draws_ok(log, gw, gh, j),
        decreases 50 - k,
    {
        let ghost before = img@;
        let ghost old_log = log;
        let x = rng.next_below(w);
        let y = rng.next_below(h);
        let r = rng.next_below(256) as u8;
        let g = rng.next_below(256) as u8;
        let b = rng.next_below(256) as u8;
        let c = Color { r, g, b, a: 255 };
        img.put_pixel(x as i64, y as i64, c);
        proof {
            if all_opaque(before) {
                lemma_put_opaque(before, gw, gh, x as int, y as int, c);
            }
            log = log + seq![x as int, y as int, r as int, g as int, b as int];
            lemma_noise_prefix_extend(orig, gw, gh, old_log, log, k as int);
            let bix = noise_draw_base(k as int);
            assert(log[bix] == x as int && log[bix + 1] == y as int && log[bix + 2] == r as int
                && log[bix + 3] == g as int && log[bix + 4] == b as int);
            assert(img@ == noise_elem(before, gw, gh, log, k as int));
            assert(img@ == noise_prefix(orig, gw, gh, log, k as int + 1));
            assert(point_draws_ok(log, gw, gh, k as int));
            assert forall|j: int| 0 <= j < k + 1 implies #[trigger] point_draws_ok(
                log,
                gw,
                gh,
                j,
            ) by {
                if j < k {
                    assert(point_draws_ok(old_log, gw, gh, j));
                    assert(noise_draw_base(j) + 5 <= noise_draw_base(k as int));
                }
            }
        }
        k += 1;
    }
    let mut k: u32 = 0;
    while k < 10
        invariant
            img.wf(),
            img.width == w,
            img.height == h,
            gw == w as int,
            gh == h as int,
            1 <= w <= 0x8000_0000,
            1 <= h <= 0x8000_0000,
            all_opaque(orig) ==> all_opaque(img@),
            k <= 10,
            log.len() == noise_draw_base(50 + k as int),
            img@ == noise_prefix(orig, gw, gh, log, 50 + k as int),
            forall|j: int| 0 <= j < 50 ==> #[trigger] point_draws_ok(log, gw, gh, j),
            forall|j: int| 50 <= j < 50 + k ==> #[trigger] line_draws_ok(log, gw, gh, j),
        decreases 10 - k,
    {
        let ghost before = img@;
        let ghost old_log = log;
        let x0 = rng.next_below(w);
        let y0 = rng.next_below(h);
        let x1 = rng.next_below(w);
        let y1 = rng.next_below(h);
        let r = rng.next_below(256) as u8;
        let g = rng.next_below(256) as u8;
        let b = rng.next_below(256) as u8;
        let c = Color { r, g, b, a: 255 };
        img.draw_line(x0 as i32, y0 as i32, x1 as i32, y1 as i32, c);
        proof {
            if all_opaque(before) {
                lemma_paint_opaque(
                    before,
                    gw,
                    gh,
                    line_points(x0 as int, y0 as int, x1 as int, y1 as int),
                    c,
                );
            }
            log = log + seq![
                x0 as int,
                y0 as int,
                x1 as int,
                y1 as int,
                r as int,
                g as int,
                b as int,
            ];
            lemma_noise_prefix_extend(orig, gw, gh, old_log, log, 50 + k as int);
            let bix = noise_draw_base(50 + k as int);
            assert(log[bix] == x0 as int && log[bix + 1] == y0 as int && log[bix + 2] == x1 as int
                && log[bix + 3] == y1 as int && log[bix + 4] == r as int && log[bix + 5]
                == g as int && log[bix + 6] == b as int);
            assert(img@ == noise_elem(before, gw, gh, log, 50 + k as int));
            assert(img@ == noise_prefix(orig, gw, gh, log, 50 + k as int + 1));
            assert(line_draws_ok(log, gw, gh, 50 + k as int));
            assert forall|j: int| 0 <= j < 50 implies #[trigger] point_draws_ok(
                log,
                gw,
                gh,
                j,
            ) by {
                assert(point_draws_ok(old_log, gw, gh, j));
                assert(noise_draw_base(j) + 5 <= noise_draw_base(50));
            }
            assert forall|j: int| 50 <= j < 50 + k + 1 implies #[trigger] line_draws_ok(
                log,
                gw,
                gh,
                j,
            ) by {
                if j < 50 + k {
                    assert(line_draws_ok(old_log, gw, gh, j));
                    assert(noise_draw_base(j) + 7 <= noise_draw_base(50 + k as int));
                }
            }
        }
        k += 1;
    }
    let mut k: u32 = 0;
    while k < 5
        invariant
            img.wf(),
            img.width == w,
            img.height == h,
            gw == w as int,
            gh == h as int,
            1 <= w <= 0x8000_0000,
            1 <= h <= 0x8000_0000,
            all_opaque(orig) ==> all_opaque(img@),
            k <= 5,
            log.len() == noise_draw_base(60 + k as int),
            img@ == noise_prefix(orig, gw, gh, log, 60 + k as int),
            forall|j: int| 0 <= j < 50 ==> #[trigger] point_draws_ok(log, gw, gh, j),
            forall|j: int| 50 <= j < 60 ==> #[trigger] line_draws_ok(log, gw, gh, j),
            forall|j: int| 60 <= j < 60 + k ==> #[trigger] curve_draws_ok(log, gw, gh, j),
        decreases 5 - k,
    {
        let ghost before = img@;
        let ghost old_log = log;
        let x0 = rng.next_below(w);
        let y0 = rng.next_below(h);
        let x1 = rng.next_below(w);
        let y1 = rng.next_below(h);
        let cax = rng.next_below(360);
        let cay = rng.next_below(360);
        let cbx = rng.next_below(if cax == 0 {
            1
        } else {
            cax
        });
        let cby = rng.next_below(if cay == 0 {
            1
        } else {
            cay
        });
        let r = rng.next_below(256) as u8;
        let g = rng.next_below(256) as u8;
        let b = rng.next_below(256) as u8;
        let c = Color { r, g, b, a: 255 };
        img.draw_cubic_bezier(
            x0 as i32,
            y0 as i32,
            x1 as i32,
            y1 as i32,
            cax as i32,
            cay as i32,
            cbx as i32,
            cby as i32,
            c,
        );
        proof {
            if all_opaque(before) {
                lemma_paint_opaque(
                    before,
                    gw,
                    gh,
                    bezier_points(
                        x0 as int,
                        y0 as int,
                        x1 as int,
                        y1 as int,
                        cax as int,
                        cay as int,
                        cbx as int,
                        cby as int,
                    ),
                    c,
                );
            }
            log = log + seq![
                x0 as int,
                y0 as int,
                x1 as int,
                y1 as int,
                cax as int,
                cay as int,
                cbx as int,
                cby as int,
                r as int,
                g as int,
                b as int,
            ];
            lemma_noise_prefix_extend(orig, gw, gh, old_log, log, 60 + k as int);
            let bix = noise_draw_base(60 + k as int);
            assert(log[bix] == x0 as int && log[bix + 1] == y0 as int && log[bix + 2] == x1 as int
                && log[bix + 3] == y1 as int && log[bix + 4] == cax as int && log[bix + 5]
                == cay as int && log[bix + 6] == cbx as int && log[bix + 7] == cby as int
                && log[bix + 8] == r as int && log[bix + 9] == g as int && log[bix + 10]
                == b as int);
            assert(img@ == noise_elem(before, gw, gh, log, 60 + k as int));
            assert(img@ == noise_prefix(orig, gw, gh, log, 60 + k as int + 1));
            assert(curve_draws_ok(log, gw, gh, 60 + k as int));
            assert forall|j: int| 0 <= j < 50 implies #[trigger] point_draws_ok(
                log,
                gw,
                gh,
                j,
            ) by {
                assert(point_draws_ok(old_log, gw, gh, j));
                assert(noise_draw_base(j) + 5 <= noise_draw_base(50));
            }
            assert forall|j: int| 50 <= j < 60 implies #[trigger] line_draws_ok(
                log,
                gw,
                gh,
                j,
            ) by {
                assert(line_draws_ok(old_log, gw, gh, j));
                assert(noise_draw_base(j) + 7 <= noise_draw_base(60));
            }
            assert forall|j: int| 60 <= j < 60 + k + 1 implies #[trigger] curve_draws_ok(
                log,
                gw,
                gh,
                j,
            ) by {
                if j < 60 + k {
                    assert(curve_draws_ok(old_log, gw, gh, j));
                    assert(noise_draw_base(j) + 11 <= noise_draw_base(60 + k as int));
                }
            }
        }
        k += 1;
    }
    proof {
        assert(noise_draws_ok(log, gw, gh));
        assert(img@ == noise_result(orig, gw, gh, log));
    }
}

/// The canvas that one generation run paints, given the code it drew, the
/// opaque text color `tc` and the noise draws `d`: the cyan vertical
/// gradient, the code rasterized over it at (16, 8) with 32-pixel glyphs,
/// every pixel then forced to full opacity, and the noise of `d` on top.
pub open spec fn generated_canvas(font: Seq<u8>, code: Seq<char>, tc: Color, d: Seq<int>) -> Seq<
    Color,
> {
    noise_result(
        with_full_alpha_seq(
            rendered_text(
                gradient_seq(
                    100,
                    50,
                    Color { r: 0x22, g: 0xd3, b: 0xee, a: 255 },
                    Color { r: 0x16, g: 0x4e, b: 0x63, a: 255 },
                ),
                100,
                50,
                tc,
                16,
                8,
                32,
                font,
                code,
            ),
        ),
        100,
        50,
        d,
    )
}

/// Generates one captcha: a fresh five-character code and a 100 by 50 canvas
/// holding the cyan vertical gradient, the code rasterized in a random
/// opaque color at (16, 8) with 32-pixel glyphs, and the random noise on
/// top, in that order. Fails exactly when the font bytes do not parse;
/// every pixel of a returned canvas is fully opaque.
pub fn generate_with<R: RandomSource>(rng: &mut R, font: &[u8]) -> (r: Result<
    (Canvas, String),
    CaptchaError,
>)
    ensures
        r is Err <==> !font_parses(font@),
        r is Err ==> r == Err::<(Canvas, String), CaptchaError>(CaptchaError::InvalidFont),
        r is Ok ==> r->Ok_0.0.wf(),
        r is Ok ==> r->Ok_0.0.width == 100 && r->Ok_0.0.height == 50,
        r is Ok ==> all_opaque(r->Ok_0.0@),
        r is Ok ==> r->Ok_0.1@.len() == 5,
        r is Ok ==> forall|i: int| 0 <= i < 5 ==> is_code_char(#[trigger] r->Ok_0.1@[i]),
        r is Ok ==> exists|tc: Color, d: Seq<int>|
            tc.a == 255 && noise_draws_ok(d, 100, 50) && r->Ok_0.0@ == #[trigger] generated_canvas(
                font@,
                r->Ok_0.1@,
                tc,
                d,
            ),
{
    let code = code_with(rng);
    let mut img = Canvas::new(100, 50);
    img.fill_vertical_gradient(Color::rgb(0x22, 0xd3, 0xee), Color::rgb(0x16, 0x4e, 0x63));
    let ghost grad_view = img@;
    let tr = rng.next_below(256) as u8;
    let tg = rng.next_below(256) as u8;
    let tb = rng.next_below(256) as u8;
    let tc = Color { r: tr, g: tg, b: tb, a: 255 };
    let ok = img.draw_text(tc, 16, 8, 32, font, code.as_str());
    if !ok {
        return Err(CaptchaError::InvalidFont);
    }
    let ghost text_view = img@;
    img.set_full_alpha();
    proof {
        assert(img@ =~= with_full_alpha_seq(text_view));
    }
    let ghost pre_noise = img@;
    apply_noise(&mut img, rng);
    let ghost nd = choose|d: Seq<int>|
        noise_draws_ok(d, 100, 50) && img@ == noise_result(pre_noise, 100, 50, d);
    proof {
        assert(grad_view == gradient_seq(
            100,
            50,
            Color { r: 0x22, g: 0xd3, b: 0xee, a: 255 },
            Color { r: 0x16, g: 0x4e, b: 0x63, a: 255 },
        ));
        assert(text_view == rendered_text(grad_view, 100, 50, tc, 16, 8, 32, font@, code@));
        assert(img@ == generated_canvas(font@, code@, tc, nd));
    }
    let r = Ok::<(Canvas, String), CaptchaError>((img, code));
    proof {
        assert(r->Ok_0.0@ == generated_canvas(font@, r->Ok_0.1@, tc, nd));
        assert(exists|tc2: Color, d2: Seq<int>|
            tc2.a == 255 && noise_draws_ok(d2, 100, 50) && r->Ok_0.0@
                == #[trigger] generated_canvas(font@, r->Ok_0.1@, tc2, d2));
    }
    r
}

} // verus!
