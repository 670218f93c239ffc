use vstd::math::abs;
use vstd::prelude::*;

use crate::canvas::{lemma_paint_push, paint, put_spec, Canvas};
use crate::color::Color;

verus! {

/// The points that the Bresenham walk visits on its way from (x, y) to
/// (x1, y1): the current point, then the walk from the next position. The
/// spans `dx >= 0 >= dy`, the unit steps `sx`, `sy` and the error term `err`
/// are the classic state of the algorithm; `fuel` bounds the walk and never
/// runs out when the walk starts with the full span.
pub open spec fn bres_walk(
    x: int,
    y: int,
    x1: int,
    y1: int,
    dx: int,
    dy: int,
    sx: int,
    sy: int,
    err: int,
    fuel: nat,
) -> Seq<(int, int)>
    decreases fuel,
{
    seq![(x, y)] + if (x == x1 && y == y1) || fuel == 0 {
        Seq::<(int, int)>::empty()
    } else {
        let e2 = 2 * err;
        let x2 = if e2 >= dy { x + sx } else { x };
        let err1 = if e2 >= dy { err + dy } else { err };
        let y2 = if e2 <= dx { y + sy } else { y };
        let err2 = if e2 <= dx { err1 + dx } else { err1 };
        bres_walk(x2, y2, x1, y1, dx, dy, sx, sy, err2, (fuel - 1) as nat)
    }
}

/// The Bresenham trace of the segment from (x0, y0) to (x1, y1), endpoints
/// included.
pub open spec fn line_points(x0: int, y0: int, x1: int, y1: int) -> Seq<(int, int)> {
    let dx = abs(x1 - x0) as int;
    let dy = -(abs(y1 - y0) as int);
    let sx: int = if x0 < x1 {
        1
    } else {
        -1
    };
    let sy: int = if y0 < y1 {
        1
    } else {
        -1
    };
    bres_walk(x0, y0, x1, y1, dx, dy, sx, sy, dx + dy, (dx - dy) as nat)
}

impl Canvas {
    /// Rasterizes a one-pixel-wide Bresenham line between the two endpoints,
    /// painting exactly the points of `line_points`; parts of the segment
    /// that leave the canvas are silently clipped.
    pub fn draw_line(&mut self, x0: i32, y0: i32, x1: i32, y1: i32, c: Color)
        requires
            old(self).wf(),
        ensures
            final(self).wf(),
            final(self).width == old(self).width,
            final(self).height == old(self).height,
            final(self)@ == paint(
                old(self)@,
                old(self).width as int,
                old(self).height as int,
                line_points(x0 as int, y0 as int, x1 as int, y1 as int),
                c,
            ),
    {
        let ghost gw = self.width as int;
        let ghost gh = self.height as int;
        let ghost orig = self@;
        let xe: i128 = x1 as i128;
        let ye: i128 = y1 as i128;
        let dx: i128 = if x1 >= x0 {
            (x1 as i128) - (x0 as i128)
        } else {
            (x0 as i128) - (x1 as i128)
        };
        let dy: i128 = if y1 >= y0 {
            (y0 as i128) - (y1 as i128)
        } else {
            (y1 as i128) - (y0 as i128)
        };
        let sx: i128 = if x0 < x1 {
            1
        } else {
            -1
        };
        let sy: i128 = if y0 < y1 {
            1
        } else {
            -1
        };
        let mut x: i128 = x0 as i128;
        let mut y: i128 = y0 as i128;
        let mut err: i128 = dx + dy;
        let fuel0: i128 = dx - dy;
        let mut fuel: i128 = fuel0;
        let ghost full = line_points(x0 as int, y0 as int, x1 as int, y1 as int);
        let ghost mut prefix = Seq::<(int, int)>::empty();
        proof {
            assert(full == bres_walk(
                x as int,
                y as int,
                xe as int,
                ye as int,
                dx as int,
                dy as int,
                sx as int,
                sy as int,
                err as int,
                fuel as nat,
            ));
            assert(prefix + bres_walk(
                x as int,
                y as int,
                xe as int,
                ye as int,
                dx as int,
                dy as int,
                sx as int,
                sy as int,
                err as int,
                fuel as nat,
            ) =~= full);
            assert(paint(orig, gw, gh, prefix, c) == orig);
            assert((fuel0 + 1) * (fuel0 - fuel + 1) == fuel0 + 1) by (nonlinear_arith)
                requires
                    fuel == fuel0,
            ;
            assert(-(fuel0 + 1) <= err <= fuel0 + 1);
        }
        loop
            invariant_except_break
                full == prefix + bres_walk(
                    x as int,
                    y as int,
                    xe as int,
                    ye as int,
                    dx as int,
                    dy as int,
                    sx as int,
                    sy as int,
                    err as int,
                    fuel as nat,
                ),
            invariant
                self.wf(),
                self.width as int == gw,
                self.height as int == gh,
                0 <= dx <= 0x1_0000_0000,
                -0x1_0000_0000 <= dy <= 0,
                0 <= fuel <= fuel0,
                fuel0 == dx - dy,
                sx == 1 || sx == -1,
                sy == 1 || sy == -1,
                -0x2_0000_0000 - fuel0 + fuel <= x <= 0x2_0000_0000 + fuel0 - fuel,
                -0x2_0000_0000 - fuel0 + fuel <= y <= 0x2_0000_0000 + fuel0 - fuel,
                -0x1_0000_0000 <= xe <= 0x1_0000_0000,
                -0x1_0000_0000 <= ye <= 0x1_0000_0000,
                -(fuel0 + 1) * (fuel0 - fuel + 1) <= err <= (fuel0 + 1) * (fuel0 - fuel + 1),
                self@ == paint(orig, gw, gh, prefix, c),
            ensures
                self.wf(),
                self.width as int == gw,
                self.height as int == gh,
                self@ == paint(orig, gw, gh, full, c),
            decreases fuel,
        {
            let ghost walk_here = bres_walk(
                x as int,
                y as int,
                xe as int,
                ye as int,
                dx as int,
                dy as int,
                sx as int,
                sy as int,
                err as int,
                fuel as nat,
            );
            self.put_pixel(x as i64, y as i64, c);
            proof {
                lemma_paint_push(orig, gw, gh, prefix, ((x as i64) as int, (y as i64) as int), c);
                assert(self@ == put_spec(paint(orig, gw, gh, prefix, c), gw, gh, x as int, y as int, c));
                prefix = prefix.push((x as int, y as int));
                assert(self@ == paint(orig, gw, gh, prefix, c));
            }
            if (x == xe && y == ye) || fuel == 0 {
                proof {
                    assert(walk_here =~= seq![(x as int, y as int)]);
                    assert(full =~= prefix);
                }
                break;
            }
            proof {
                assert(-0x8_0000_0000_0000_0000 <= err <= 0x8_0000_0000_0000_0000)
                    by (nonlinear_arith)
                    requires
                        -(fuel0 + 1) * (fuel0 - fuel + 1) <= err <= (fuel0 + 1) * (fuel0 - fuel
                            + 1),
                        0 <= fuel <= fuel0 <= 0x2_0000_0000,
                ;
            }
            let ghost err_before = err as int;
            let ghost fuel_before = fuel as int;
            let ghost prev_walk = bres_walk(
                x as int,
                y as int,
                xe as int,
                ye as int,
                dx as int,
                dy as int,
                sx as int,
                sy as int,
                err as int,
                fuel as nat,
            );
            let e2: i128 = 2 * err;
            if e2 >= dy {
                err = err + dy;
                x = x + sx;
            }
            if e2 <= dx {
                err = err + dx;
                y = y + sy;
            }
            fuel = fuel - 1;
            proof {
                assert(-(fuel0 + 1) * (fuel0 - fuel + 1) <= err <= (fuel0 + 1) * (fuel0 - fuel + 1))
                    by (nonlinear_arith)
                    requires
                        fuel == fuel_before - 1,
                        1 <= fuel_before <= fuel0,
                        -(fuel0 + 1) * (fuel0 - fuel_before + 1) <= err_before <= (fuel0 + 1) * (
                        fuel0 - fuel_before + 1),
                        err == err_before || err == err_before + dy || err == err_before + dx
                            || err == err_before + dy + dx,
                        0 <= dx <= fuel0,
                        -fuel0 <= dy <= 0,
                ;
                assert(prev_walk == seq![(prefix.last().0, prefix.last().1)] + bres_walk(
                    x as int,
                    y as int,
                    xe as int,
                    ye as int,
                    dx as int,
                    dy as int,
                    sx as int,
                    sy as int,
                    err as int,
                    fuel as nat,
                ));
                assert(full =~= prefix + bres_walk(
                    x as int,
                    y as int,
                    xe as int,
                    ye as int,
                    dx as int,
                    dy as int,
                    sx as int,
                    sy as int,
                    err as int,
                    fuel as nat,
                ));
            }
        }
    }
}

} // verus!
