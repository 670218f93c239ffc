use vstd::prelude::*;

use crate::color::{all_opaque, with_full_alpha, Color};

verus! {

/// An in-memory rectangular pixel buffer, indexed by (x, y) with the origin at
/// the top left and y growing downward. Pixels are stored in row-major order:
/// the pixel at (x, y) sits at index `y * width + x` of the view.
pub struct Canvas {
    pub width: u32,
    pub height: u32,
    pub data: Vec<Color>,
}

impl View for Canvas {
    type V = Seq<Color>;

    open spec fn view(&self) -> Seq<Color> {
        self.data@
    }
}

/// One drawing step: the pixel at (x, y) replaced by `c`, coordinates outside
/// the `w` by `h` grid silently ignored.
pub open spec fn put_spec(s: Seq<Color>, w: int, h: int, x: int, y: int, c: Color) -> Seq<Color> {
    if 0 <= x < w && 0 <= y < h && y * w + x < s.len() {
        s.update(y * w + x, c)
    } else {
        s
    }
}

/// The points of `pts` drawn one after the other, each as `put_spec`.
pub open spec fn paint(s: Seq<Color>, w: int, h: int, pts: Seq<(int, int)>, c: Color) -> Seq<
    Color,
>
    decreases pts.len(),
{
    if pts.len() == 0 {
        s
    } else {
        paint(put_spec(s, w, h, pts[0].0, pts[0].1, c), w, h, pts.drop_first(), c)
    }
}

impl Canvas {
    /// The dimensions agree with the stored pixels.
    pub open spec fn wf(&self) -> bool {
        self@.len() == self.width * self.height
    }

    /// The pixel at (x, y), for in-bounds coordinates.
    pub open spec fn pixel(&self, x: int, y: int) -> Color {
        self@[y * self.width + x]
    }

    /// A canvas of the given dimensions with every pixel set to `c`.
    pub fn filled(width: u32, height: u32, c: Color) -> (r: Canvas)
        requires
            width * height <= usize::MAX,
        ensures
            r.wf(),
            r.width == width,
            r.height == height,
            r@ == Seq::new((width * height) as nat, |i: int| c),
    {
        let n: usize = (width as usize) * (height as usize);
        let mut data: Vec<Color> = Vec::new();
        while data.len() < n
            invariant
                data@.len() <= n,
                n == width * height,
                forall|i: int| 0 <= i < data@.len() ==> data@[i] == c,
            decreases n - data@.len(),
        {
            data.push(c);
        }
        let r = Canvas { width, height, data };
        proof {
            assert(r@ =~= Seq::new((width * height) as nat, |i: int| c));
        }
        r
    }

    /// A canvas of the given dimensions holding all-zero pixels, as a freshly
    /// allocated raster does.
    pub fn new(width: u32, height: u32) -> (r: Canvas)
        requires
            width * height <= usize::MAX,
        ensures
            r.wf(),
            r.width == width,
            r.height == height,
            r@ == Seq::new((width * height) as nat, |i: int| Color { r: 0, g: 0, b: 0, a: 0 }),
    {
        Canvas::filled(width, height, Color::zero())
    }

    /// Replaces the pixel at (x, y); coordinates outside the canvas are
    /// silently ignored.
    pub fn put_pixel(&mut self, x: i64, y: i64, c: Color)
        requires
            old(self).wf(),
        ensures
            final(self).wf(),
            final(self).width == old(self).width,
            final(self).height == old(self).height,
            final(self)@ == put_spec(
                old(self)@,
                old(self).width as int,
                old(self).height as int,
                x as int,
                y as int,
                c,
            ),
    {
        if x >= 0 && y >= 0 && x < self.width as i64 && y < self.height as i64 {
            let w = self.width as usize;
            let xi = x as usize;
            let yi = y as usize;
            let n = self.data.len();
            proof {
                assert(y * self.width + x < self.width * self.height) by (nonlinear_arith)
                    requires
                        0 <= x < self.width,
                        0 <= y < self.height,
                ;
                assert(yi * w + xi == y * self.width + x);
                assert(yi * w + xi < n);
            }
            let i: usize = yi * w + xi;
            self.data[i] = c;
        }
    }

    /// The pixel at in-bounds coordinates (x, y).
    pub fn pixel_at(&self, x: u32, y: u32) -> (c: Color)
        requires
            self.wf(),
            x < self.width,
            y < self.height,
        ensures
            c == self.pixel(x as int, y as int),
    {
        let w = self.width as usize;
        let n = self.data.len();
        proof {
            assert(y * self.width + x < self.width * self.height) by (nonlinear_arith)
                requires
                    x < self.width,
                    y < self.height,
            ;
            assert((y as usize) * w + (x as usize) < n);
        }
        let i: usize = (y as usize) * w + (x as usize);
        self.data[i]
    }

    /// Forces every pixel to full opacity, leaving the color channels alone.
    pub fn set_full_alpha(&mut self)
        requires
            old(self).wf(),
        ensures
            final(self).wf(),
            final(self).width == old(self).width,
            final(self).height == old(self).height,
            final(self)@ == old(self)@.map_values(|p: Color| with_full_alpha(p)),
            all_opaque(final(self)@),
    {
        let n = self.data.len();
        let mut i: usize = 0;
        while i < n
            invariant
                n == self.data@.len(),
                i <= n,
                self.width == old(self).width,
                self.height == old(self).height,
                old(self).wf(),
                self.data@.len() == old(self)@.len(),
                forall|j: int| 0 <= j < i ==> self.data@[j] == with_full_alpha(old(self)@[j]),
                forall|j: int| i <= j < n ==> self.data@[j] == old(self)@[j],
            decreases n - i,
        {
            let p = self.data[i];
            self.data[i] = Color { r: p.r, g: p.g, b: p.b, a: 255 };
            i += 1;
        }
        proof {
            assert(self@ =~= old(self)@.map_values(|p: Color| with_full_alpha(p)));
        }
    }

    /// The pixels flattened to bytes in R, G, B, A order, row by row.
    pub fn to_rgba_bytes(&self) -> (r: Vec<u8>)
        requires
            self.wf(),
            4 * self@.len() <= usize::MAX,
        ensures
            r@.len() == 4 * self@.len(),
            forall|i: int|
                0 <= i < self@.len() ==> {
                    &&& r@[4 * i] == #[trigger] self@[i].r
                    &&& r@[4 * i + 1] == self@[i].g
                    &&& r@[4 * i + 2] == self@[i].b
                    &&& r@[4 * i + 3] == self@[i].a
                },
    {
        let n = self.data.len();
        let mut out: Vec<u8> = Vec::new();
        let mut i: usize = 0;
        while i < n
            invariant
                n == self@.len(),
                4 * n <= usize::MAX,
                i <= n,
                out@.len() == 4 * i,
                forall|j: int|
                    0 <= j < i ==> {
                        &&& out@[4 * j] == #[trigger] self@[j].r
                        &&& out@[4 * j + 1] == self@[j].g
                        &&& out@[4 * j + 2] == self@[j].b
                        &&& out@[4 * j + 3] == self@[j].a
                    },
            decreases n - i,
        {
            let p = self.data[i];
            out.push(p.r);
            out.push(p.g);
            out.push(p.b);
            out.push(p.a);
            proof {
                assert(out@[4 * i] == self@[i as int].r);
                assert(out@[4 * i + 1] == self@[i as int].g);
                assert(out@[4 * i + 2] == self@[i as int].b);
                assert(out@[4 * i + 3] == self@[i as int].a);
            }
            i += 1;
        }
        out
    }
}

/// Painting a list of points and then one more is painting the longer list.
pub proof fn lemma_paint_push(s: Seq<Color>, w: int, h: int, pts: Seq<(int, int)>, p: (int, int), c: Color)
    ensures
        paint(s, w, h, pts.push(p), c) == put_spec(paint(s, w, h, pts, c), w, h, p.0, p.1, c),
    decreases pts.len(),
{
    if pts.len() == 0 {
        assert(pts.push(p)[0] == p);
        assert(pts.push(p).drop_first() =~= Seq::<(int, int)>::empty());
        assert(paint(s, w, h, pts, c) == s);
        let s1 = put_spec(s, w, h, p.0, p.1, c);
        assert(paint(s1, w, h, pts.push(p).drop_first(), c) == s1);
        assert(paint(s, w, h, pts.push(p), c) == s1);
    } else {
        let s1 = put_spec(s, w, h, pts[0].0, pts[0].1, c);
        assert(pts.push(p)[0] == pts[0]);
        assert(pts.push(p).drop_first() =~= pts.drop_first().push(p));
        assert(paint(s, w, h, pts.push(p), c) == paint(s1, w, h, pts.drop_first().push(p), c));
        lemma_paint_push(s1, w, h, pts.drop_first(), p, c);
        assert(paint(s, w, h, pts, c) == paint(s1, w, h, pts.drop_first(), c));
    }
}

impl Canvas {
    /// A canvas rebuilt from bytes in R, G, B, A order, row by row.
    pub fn from_rgba_bytes(width: u32, height: u32, bytes: Vec<u8>) -> (r: Canvas)
        requires
            bytes@.len() == 4 * (width * height),
            width * height <= usize::MAX,
        ensures
            r.wf(),
            r.width == width,
            r.height == height,
            forall|i: int|
                0 <= i < r@.len() ==> #[trigger] r@[i] == (Color {
                    r: bytes@[4 * i],
                    g: bytes@[4 * i + 1],
                    b: bytes@[4 * i + 2],
                    a: bytes@[4 * i + 3],
                }),
    {
        let n: usize = (width as usize) * (height as usize);
        let m: usize = bytes.len();
        let mut data: Vec<Color> = Vec::new();
        let mut i: usize = 0;
        while i < n
            invariant
                n == width * height,
                m == bytes@.len(),
                m == 4 * n,
                i <= n,
                data@.len() == i,
                forall|j: int|
                    0 <= j < i ==> #[trigger] data@[j] == (Color {
                        r: bytes@[4 * j],
                        g: bytes@[4 * j + 1],
                        b: bytes@[4 * j + 2],
                        a: bytes@[4 * j + 3],
                    }),
            decreases n - i,
        {
            let c = Color {
                r: bytes[4 * i],
                g: bytes[4 * i + 1],
                b: bytes[4 * i + 2],
                a: bytes[4 * i + 3],
            };
            data.push(c);
            i += 1;
        }
        Canvas { width, height, data }
    }
}

/// A single opaque put keeps a fully opaque canvas fully opaque.
pub proof fn lemma_put_opaque(s: Seq<Color>, w: int, h: int, x: int, y: int, c: Color)
    requires
        all_opaque(s),
        c.a == 255,
    ensures
        all_opaque(put_spec(s, w, h, x, y, c)),
{
    let t = put_spec(s, w, h, x, y, c);
    assert forall|i: int| 0 <= i < t.len() implies #[trigger] t[i].a == 255 by {
        assert(s[i].a == 255);
    }
}

/// Painting with an opaque color keeps a fully opaque canvas fully opaque.
pub proof fn lemma_paint_opaque(s: Seq<Color>, w: int, h: int, pts: Seq<(int, int)>, c: Color)
    requires
        all_opaque(s),
        c.a == 255,
    ensures
        all_opaque(paint(s, w, h, pts, c)),
    decreases pts.len(),
{
    if pts.len() > 0 {
        lemma_paint_opaque(put_spec(s, w, h, pts[0].0, pts[0].1, c), w, h, pts.drop_first(), c);
    }
}

} // verus!
