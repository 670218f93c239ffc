use vstd::math::abs;
use vstd::prelude::*;

use crate::canvas::{lemma_paint_push, paint, Canvas};
use crate::color::Color;
use crate::round::{lemma_round_frac_bounds, round_frac, round_frac_exec};

verus! {

/// How many parameter steps the curve is sampled with: the L1 length of its
/// control polygon, held between 1 and 4000. The polygon length bounds the
/// curve length, so successive samples land on the same or adjacent pixels
/// for every curve this library draws.
pub open spec fn bez_steps(
    x0: int,
    y0: int,
    x1: int,
    y1: int,
    cax: int,
    cay: int,
    cbx: int,
    cby: int,
) -> int {
    let l = abs(cax - x0) + abs(cay - y0) + abs(cbx - cax) + abs(cby - cay) + abs(x1 - cbx) + abs(
        y1 - cby,
    );
    if l < 1 {
        1
    } else if l > 4000 {
        4000
    } else {
        l as int
    }
}

/// One coordinate of the cubic Bezier with control values `p0, p1, p2, p3`,
/// sampled at parameter `i / n` and rounded to the nearest integer.
pub open spec fn bez_coord(p0: int, p1: int, p2: int, p3: int, i: int, n: int) -> int {
    round_frac(
        (n - i) * (n - i) * (n - i) * p0 + 3 * (n - i) * (n - i) * i * p1 + 3 * (n - i) * i * i
            * p2 + i * i * i * p3,
        n * n * n,
    )
}

/// The sampled points of the cubic Bezier from (x0, y0) to (x1, y1) with
/// control points (cax, cay) and (cbx, cby), in parameter order.
pub open spec fn bezier_points(
    x0: int,
    y0: int,
    x1: int,
    y1: int,
    cax: int,
    cay: int,
    cbx: int,
    cby: int,
) -> Seq<(int, int)> {
    let n = bez_steps(x0, y0, x1, y1, cax, cay, cbx, cby);
    Seq::new(
        (n + 1) as nat,
        |i: int| (bez_coord(x0, cax, cbx, x1, i, n), bez_coord(y0, cay, cby, y1, i, n)),
    )
}

/// Bounds on the Bernstein weights and the weighted coordinate sum that the
/// sampling loop computes.
proof fn lemma_bez_term_bounds(u: int, i: int, p0: int, p1: int, p2: int, p3: int, n: int)
    requires
        0 <= u,
        0 <= i,
        u + i == n,
        1 <= n <= 4000,
        -0x8000_0000 <= p0 <= 0x8000_0000,
        -0x8000_0000 <= p1 <= 0x8000_0000,
        -0x8000_0000 <= p2 <= 0x8000_0000,
        -0x8000_0000 <= p3 <= 0x8000_0000,
    ensures
        0 <= u * u * u <= 0x10_0000_0000_0000,
        0 <= 3 * u * u * i <= 0x30_0000_0000_0000,
        0 <= 3 * u * i * i <= 0x30_0000_0000_0000,
        0 <= i * i * i <= 0x10_0000_0000_0000,
        u * u * u + 3 * u * u * i + 3 * u * i * i + i * i * i == n * n * n,
        1 <= n * n * n <= 0x10_0000_0000_0000,
        -(0x8000_0000 * (n * n * n)) <= u * u * u * p0 + 3 * u * u * i * p1 + 3 * u * i * i * p2
            + i * i * i * p3,
        u * u * u * p0 + 3 * u * u * i * p1 + 3 * u * i * i * p2 + i * i * i * p3 <= 0x8000_0000 * (
        n * n * n),
        0x8000_0000 * (n * n * n) <= 0x1000_0000_0000_0000_0000_0000,
{
    assert(0 <= u * u * u <= 0x10_0000_0000_0000 && 0 <= 3 * u * u * i <= 0x30_0000_0000_0000 && 0
        <= 3 * u * i * i <= 0x30_0000_0000_0000 && 0 <= i * i * i <= 0x10_0000_0000_0000 && u * u
        * u + 3 * u * u * i + 3 * u * i * i + i * i * i == n * n * n && 1 <= n * n * n
        <= 0x10_0000_0000_0000) by (nonlinear_arith)
        requires
            0 <= u,
            0 <= i,
            u + i == n,
            1 <= n <= 4000,
    ;
    assert(-(0x8000_0000 * (u * u * u)) <= u * u * u * p0 <= 0x8000_0000 * (u * u * u))
        by (nonlinear_arith)
        requires
            0 <= u * u * u,
            -0x8000_0000 <= p0 <= 0x8000_0000,
    ;
    assert(-(0x8000_0000 * (3 * u * u * i)) <= 3 * u * u * i * p1 <= 0x8000_0000 * (3 * u * u * i))
        by (nonlinear_arith)
        requires
            0 <= 3 * u * u * i,
            -0x8000_0000 <= p1 <= 0x8000_0000,
    ;
    assert(-(0x8000_0000 * (3 * u * i * i)) <= 3 * u * i * i * p2 <= 0x8000_0000 * (3 * u * i * i))
        by (nonlinear_arith)
        requires
            0 <= 3 * u * i * i,
            -0x8000_0000 <= p2 <= 0x8000_0000,
    ;
    assert(-(0x8000_0000 * (i * i * i)) <= i * i * i * p3 <= 0x8000_0000 * (i * i * i))
        by (nonlinear_arith)
        requires
            0 <= i * i * i,
            -0x8000_0000 <= p3 <= 0x8000_0000,
    ;
    assert(0x8000_0000 * (u * u * u) + 0x8000_0000 * (3 * u * u * i) + 0x8000_0000 * (3 * u * i
        * i) + 0x8000_0000 * (i * i * i) == 0x8000_0000 * (n * n * n)) by (nonlinear_arith)
        requires
            u * u * u + 3 * u * u * i + 3 * u * i * i + i * i * i == n * n * n,
    ;
    assert(0x8000_0000 * (n * n * n) <= 0x1000_0000_0000_0000_0000_0000) by (nonlinear_arith)
        requires
            1 <= n * n * n <= 0x10_0000_0000_0000,
    ;
}

/// A Bernstein weight times a bounded coordinate stays well inside the range
/// of the machine integers the sampling loop computes with.
proof fn lemma_term_product_bound(w: int, p: int)
    requires
        0 <= w <= 0x30_0000_0000_0000,
        -0x8000_0000 <= p <= 0x8000_0000,
    ensures
        -0x100_0000_0000_0000_0000_0000 <= w * p <= 0x100_0000_0000_0000_0000_0000,
{
    assert(-0x100_0000_0000_0000_0000_0000 <= w * p <= 0x100_0000_0000_0000_0000_0000)
        by (nonlinear_arith)
        requires
            0 <= w <= 0x30_0000_0000_0000,
            -0x8000_0000 <= p <= 0x8000_0000,
    ;
}

impl Canvas {
    /// Rasterizes the cubic Bezier curve from (x0, y0) to (x1, y1) whose
    /// control points are (cax, cay) and (cbx, cby), by sampling the
    /// parametric curve and drawing each sample as a single pixel; samples
    /// outside the canvas are silently clipped.
    #[verifier::rlimit(50)]
    pub fn draw_cubic_bezier(
        &mut self,
        x0: i32,
        y0: i32,
        x1: i32,
        y1: i32,
        cax: i32,
        cay: i32,
        cbx: i32,
        cby: i32,
        c: Color,
    )
        requires
            old(self).wf(),
        ensures
            final(self).wf(),
            final(self).width == old(self).width,
            final(self).height == old(self).height,
            final(self)@ == paint(
                old(self)@,
                old(self).width as int,
                old(self).height as int,
                bezier_points(
                    x0 as int,
                    y0 as int,
                    x1 as int,
                    y1 as int,
                    cax as int,
                    cay as int,
                    cbx as int,
                    cby as int,
                ),
                c,
            ),
    {
        let ghost gw = self.width as int;
        let ghost gh = self.height as int;
        let ghost orig = self@;
        let d1: i64 = if cax >= x0 {
            (cax as i64) - (x0 as i64)
        } else {
            (x0 as i64) - (cax as i64)
        };
        let d2: i64 = if cay >= y0 {
            (cay as i64) - (y0 as i64)
        } else {
            (y0 as i64) - (cay as i64)
        };
        let d3: i64 = if cbx >= cax {
            (cbx as i64) - (cax as i64)
        } else {
            (cax as i64) - (cbx as i64)
        };
        let d4: i64 = if cby >= cay {
            (cby as i64) - (cay as i64)
        } else {
            (cay as i64) - (cby as i64)
        };
        let d5: i64 = if x1 >= cbx {
            (x1 as i64) - (cbx as i64)
        } else {
            (cbx as i64) - (x1 as i64)
        };
        let d6: i64 = if y1 >= cby {
            (y1 as i64) - (cby as i64)
        } else {
            (cby as i64) - (y1 as i64)
        };
        let l: i64 = d1 + d2 + d3 + d4 + d5 + d6;
        let n: i64 = if l < 1 {
            1
        } else if l > 4000 {
            4000
        } else {
            l
        };
        let ghost pts = bezier_points(
            x0 as int,
            y0 as int,
            x1 as int,
            y1 as int,
            cax as int,
            cay as int,
            cbx as int,
            cby as int,
        );
        proof {
            assert(n as int == bez_steps(
                x0 as int,
                y0 as int,
                x1 as int,
                y1 as int,
                cax as int,
                cay as int,
                cbx as int,
                cby as int,
            ));
            assert(pts.take(0) =~= Seq::<(int, int)>::empty());
            assert(paint(orig, gw, gh, pts.take(0), c) == orig);
        }
        proof {
            assert(1 <= (n as int) * (n as int) <= 0x100_0000 && 1 <= (n as int) * (n as int) * (
            n as int) <= 0x10_0000_0000_0000) by (nonlinear_arith)
                requires
                    1 <= n <= 4000,
            ;
        }
        let n3: i128 = (n as i128) * (n as i128) * (n as i128);
        let mut i: i64 = 0;
        while i <= n
            invariant
                self.wf(),
                self.width as int == gw,
                self.height as int == gh,
                1 <= n <= 4000,
                0 <= i <= n + 1,
                n3 == (n as int) * (n as int) * (n as int),
                pts.len() == n + 1,
                pts == bezier_points(
                    x0 as int,
                    y0 as int,
                    x1 as int,
                    y1 as int,
                    cax as int,
                    cay as int,
                    cbx as int,
                    cby as int,
                ),
                self@ == paint(orig, gw, gh, pts.take(i as int), c),
            decreases n + 1 - i,
        {
            let u: i128 = ((n - i) as i128);
            let v: i128 = (i as i128);
            proof {
                lemma_bez_term_bounds(
                    u as int,
                    v as int,
                    x0 as int,
                    cax as int,
                    cbx as int,
                    x1 as int,
                    n as int,
                );
                lemma_bez_term_bounds(
                    u as int,
                    v as int,
                    y0 as int,
                    cay as int,
                    cby as int,
                    y1 as int,
                    n as int,
                );
            }
            proof {
                assert(0 <= u * u <= 0x100_0000 && 0 <= 3 * u <= 12000 && 0 <= 3 * u * u
                    <= 0x3000_0000 && 0 <= u * v <= 0x100_0000 && 0 <= 3 * u * v <= 0x3000_0000
                    && 0 <= v * v <= 0x100_0000) by (nonlinear_arith)
                    requires
                        0 <= u <= 4000,
                        0 <= v <= 4000,
                ;
                lemma_term_product_bound(u as int * (u as int) * (u as int), x0 as int);
                lemma_term_product_bound(3 * (u as int) * (u as int) * (v as int), cax as int);
                lemma_term_product_bound(3 * (u as int) * (v as int) * (v as int), cbx as int);
                lemma_term_product_bound(v as int * (v as int) * (v as int), x1 as int);
                lemma_term_product_bound(u as int * (u as int) * (u as int), y0 as int);
                lemma_term_product_bound(3 * (u as int) * (u as int) * (v as int), cay as int);
                lemma_term_product_bound(3 * (u as int) * (v as int) * (v as int), cby as int);
                lemma_term_product_bound(v as int * (v as int) * (v as int), y1 as int);
            }
            let ax: i128 = u * u * u * (x0 as i128) + 3 * u * u * v * (cax as i128) + 3 * u * v * v
                * (cbx as i128) + v * v * v * (x1 as i128);
            let ay: i128 = u * u * u * (y0 as i128) + 3 * u * u * v * (cay as i128) + 3 * u * v * v
                * (cby as i128) + v * v * v * (y1 as i128);
            let px: i128 = round_frac_exec(ax, n3);
            let py: i128 = round_frac_exec(ay, n3);
            proof {
                lemma_round_frac_bounds(ax as int, n3 as int, -0x8000_0000, 0x8000_0000);
                lemma_round_frac_bounds(ay as int, n3 as int, -0x8000_0000, 0x8000_0000);
                assert(-(0x8000_0000 * (n3 as int)) == (-0x8000_0000) * (n3 as int))
                    by (nonlinear_arith);
            }
            self.put_pixel(px as i64, py as i64, c);
            proof {
                assert(pts[i as int] == ((px as i64) as int, (py as i64) as int));
                lemma_paint_push(
                    orig,
                    gw,
                    gh,
                    pts.take(i as int),
                    ((px as i64) as int, (py as i64) as int),
                    c,
                );
                assert(pts.take(i as int + 1) =~= pts.take(i as int).push(pts[i as int]));
                assert(self@ == paint(orig, gw, gh, pts.take(i as int + 1), c));
            }
            i = i + 1;
        }
        proof {
            assert(pts.take(n as int + 1) =~= pts);
        }
    }
}

} // verus!
