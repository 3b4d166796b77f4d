//! The RGBA pixel model and the mutable canvas the compositor draws on.

use vstd::prelude::*;

verus! {

/// One RGBA pixel, 8 bits per channel.
#[derive(Debug, PartialEq, Eq, Structural, Clone, Copy)]
pub struct Rgba {
    pub r: u8,
    pub g: u8,
    pub b: u8,
    pub a: u8,
}

impl Rgba {
    pub fn new(r: u8, g: u8, b: u8, a: u8) -> (p: Rgba)
        ensures
            p == (Rgba { r, g, b, a }),
    {
        Rgba { r, g, b, a }
    }
}

/// Channel `c` of a pixel: 0 = red, 1 = green, 2 = blue, 3 = alpha.
pub open spec fn channel(p: Rgba, c: int) -> u8 {
    if c == 0 {
        p.r
    } else if c == 1 {
        p.g
    } else if c == 2 {
        p.b
    } else {
        p.a
    }
}

/// One channel of a linear blend of `s` over `d`, weighted by alpha `a`,
/// rounded to the nearest value.
pub open spec fn blend_channel(d: u8, s: u8, a: u8) -> u8 {
    ((s * a + d * (255 - a) + 127) / 255) as u8
}

/// The alpha-compositing rule of the pipeline: a fully opaque source replaces
/// the destination, a fully transparent one leaves it unchanged, and anything
/// in between blends each color channel linearly by the source alpha while
/// the destination alpha moves toward full opacity by the same weight.
pub open spec fn composite(d: Rgba, s: Rgba) -> Rgba {
    if s.a == 255 {
        s
    } else if s.a == 0 {
        d
    } else {
        Rgba {
            r: blend_channel(d.r, s.r, s.a),
            g: blend_channel(d.g, s.g, s.a),
            b: blend_channel(d.b, s.b, s.a),
            a: blend_channel(d.a, 255, s.a),
        }
    }
}

/// Compositing a fully opaque source replaces the destination pixel
/// exactly.
pub proof fn lemma_composite_opaque_replaces(d: Rgba, s: Rgba)
    requires
        s.a == 255,
    ensures
        composite(d, s) == s,
{
}

/// Compositing a fully transparent source leaves the destination pixel
/// unchanged.
pub proof fn lemma_composite_transparent_keeps(d: Rgba, s: Rgba)
    requires
        s.a == 0,
    ensures
        composite(d, s) == d,
{
}

/// One channel of the linear blend, executable form.
pub fn blend_channel_exec(d: u8, s: u8, a: u8) -> (r: u8)
    requires
        a < 255,
    ensures
        r == blend_channel(d, s, a),
{
    proof {
        assert(s * a <= 255 * 255) by (nonlinear_arith)
            requires
                s <= 255,
                a <= 255,
        ;
        assert(d * (255 - a) <= 255 * 255) by (nonlinear_arith)
            requires
                d <= 255,
                a <= 255,
        ;
    }
    let num: u32 = (s as u32) * (a as u32) + (d as u32) * (255 - a as u32) + 127;
    proof {
        assert(s * a + d * (255 - a) <= 255 * 255) by (nonlinear_arith)
            requires
                s <= 255,
                d <= 255,
                a <= 255,
        ;
        assert((s * a + d * (255 - a) + 127) / 255 <= 255);
    }
    (num / 255) as u8
}

/// Alpha-composite the source pixel `s` onto the destination pixel `d`.
pub fn blend(d: Rgba, s: Rgba) -> (r: Rgba)
    ensures
        r == composite(d, s),
{
    if s.a == 255 {
        s
    } else if s.a == 0 {
        d
    } else {
        Rgba {
            r: blend_channel_exec(d.r, s.r, s.a),
            g: blend_channel_exec(d.g, s.g, s.a),
            b: blend_channel_exec(d.b, s.b, s.a),
            a: blend_channel_exec(d.a, 255, s.a),
        }
    }
}

/// A mutable RGBA8 pixel buffer with explicit width and height, stored in
/// row-major order.
#[derive(Debug, Clone)]
pub struct Canvas {
    pub width: u32,
    pub height: u32,
    pub data: Vec<Rgba>,
}

impl View for Canvas {
    type V = Seq<Rgba>;

    open spec fn view(&self) -> Seq<Rgba> {
        self.data@
    }
}

impl Canvas {
    /// The shape invariant: the buffer holds exactly one pixel per coordinate.
    pub open spec fn wf(&self) -> bool {
        self.data@.len() == self.width as int * self.height as int
    }

    pub open spec fn spec_width(&self) -> u32 {
        self.width
    }

    pub open spec fn spec_height(&self) -> u32 {
        self.height
    }

    /// Index of pixel (x, y) in the row-major buffer.
    pub open spec fn spec_index_of(&self, x: int, y: int) -> int {
        y * self.width as int + x
    }

    /// Pixel at (x, y).
    pub open spec fn pixel(&self, x: int, y: int) -> Rgba {
        self.data@[y * self.width as int + x]
    }

    /// Row-major indices stay inside the buffer for in-bounds coordinates.
    pub proof fn lemma_index_in_bounds(&self, x: int, y: int)
        requires
            self.wf(),
            0 <= x < self.spec_width(),
            0 <= y < self.spec_height(),
        ensures
            0 <= y * self.spec_width() as int + x < self@.len(),
    {
        let w = self.spec_width() as int;
        let h = self.spec_height() as int;
        assert(y * w + x < (y + 1) * w) by (nonlinear_arith)
            requires
                0 <= x < w,
        ;
        assert((y + 1) * w <= h * w) by (nonlinear_arith)
            requires
                y + 1 <= h,
                w >= 0,
        ;
        assert(h * w == w * h) by (nonlinear_arith);
        assert(y * w + x >= 0) by (nonlinear_arith)
            requires
                0 <= x,
                0 <= y,
                w >= 1,
        ;
    }

    #[verifier::when_used_as_spec(spec_width)]
    pub fn width(&self) -> (w: u32)
        ensures
            w == self.spec_width(),
    {
        self.width
    }

    #[verifier::when_used_as_spec(spec_height)]
    pub fn height(&self) -> (h: u32)
        ensures
            h == self.spec_height(),
    {
        self.height
    }

    /// A canvas of the given size, every pixel set to `pixel`.
    pub fn from_pixel(width: u32, height: u32, pixel: Rgba) -> (c: Canvas)
        requires
            width as int * height as int <= usize::MAX,
        ensures
            c.wf(),
            c.spec_width() == width,
            c.spec_height() == height,
            c@ == Seq::new((width as int * height as int) as nat, |i: int| pixel),
    {
        proof {
            assert(width as int * height as int >= 0) by (nonlinear_arith);
        }
        let n: usize = (width as usize) * (height as usize);
        let mut data: Vec<Rgba> = Vec::new();
        let mut i: usize = 0;
        while i < n
            invariant
                i <= n,
                n == width as int * height as int,
                data@ =~= Seq::new(i as nat, |j: int| pixel),
            decreases n - i,
        {
            data.push(pixel);
            i = i + 1;
        }
        proof {
            assert(data@ =~= Seq::new((width as int * height as int) as nat, |i: int| pixel));
        }
        Canvas { width, height, data }
    }

    /// Pixel at (x, y).
    pub fn get_pixel(&self, x: u32, y: u32) -> (p: Rgba)
        requires
            self.wf(),
            x < self.spec_width(),
            y < self.spec_height(),
        ensures
            p == self.pixel(x as int, y as int),
    {
        proof {
            self.lemma_index_in_bounds(x as int, y as int);
        }
        // reading the length ties the view's length to usize for the index
        // arithmetic below
        let n: usize = self.data.len();
        let idx: usize = (y as usize) * (self.width as usize) + (x as usize);
        self.data[idx]
    }

    /// Overwrite the pixel at (x, y).
    pub fn put_pixel(&mut self, x: u32, y: u32, p: Rgba)
        requires
            old(self).wf(),
            x < old(self).spec_width(),
            y < old(self).spec_height(),
        ensures
            final(self).wf(),
            final(self).spec_width() == old(self).spec_width(),
            final(self).spec_height() == old(self).spec_height(),
            final(self)@ == old(self)@.update(old(self).spec_index_of(x as int, y as int), p),
    {
        proof {
            self.lemma_index_in_bounds(x as int, y as int);
        }
        // reading the length ties the view's length to usize for the index
        // arithmetic below
        let n: usize = self.data.len();
        let idx: usize = (y as usize) * (self.width as usize) + (x as usize);
        self.data.set(idx, p);
    }
}

/// The fundamental row-major correspondence: a flat index decomposes into
/// unique column and row parts.
pub proof fn lemma_row_major(k: int, px: int, py: int, w: int)
    requires
        w > 0,
        0 <= px < w,
        0 <= py,
        k == py * w + px,
    ensures
        k / w == py,
        k % w == px,
{
    vstd::arithmetic::div_mod::lemma_fundamental_div_mod_converse(k, w, py, px);
}

/// The buffer after pasting `s` (of size `sw` x `sh`) over `d` (of row width
/// `dw`) at offset (`x`, `y`), overwriting the covered pixels.
pub open spec fn sp_paste_over(
    d: Seq<Rgba>,
    dw: int,
    s: Seq<Rgba>,
    sw: int,
    sh: int,
    x: int,
    y: int,
) -> Seq<Rgba> {
    Seq::new(
        d.len(),
        |k: int|
            if x <= k % dw < x + sw && y <= k / dw < y + sh {
                s[(k / dw - y) * sw + (k % dw - x)]
            } else {
                d[k]
            },
    )
}

/// The buffer after alpha-compositing `s` onto `d` at offset (`x`, `y`).
pub open spec fn sp_paste_alpha(
    d: Seq<Rgba>,
    dw: int,
    s: Seq<Rgba>,
    sw: int,
    sh: int,
    x: int,
    y: int,
) -> Seq<Rgba> {
    Seq::new(
        d.len(),
        |k: int|
            if x <= k % dw < x + sw && y <= k / dw < y + sh {
                composite(d[k], s[(k / dw - y) * sw + (k % dw - x)])
            } else {
                d[k]
            },
    )
}

/// The `w` x `h` rectangle of `d` (of row width `dw`) whose top-left corner
/// is at (`x`, `y`), as its own buffer.
pub open spec fn sp_crop(d: Seq<Rgba>, dw: int, x: int, y: int, w: int, h: int) -> Seq<Rgba> {
    Seq::new((w * h) as nat, |k: int| d[(y + k / w) * dw + (x + k % w)])
}

/// Prefix of a paste: rows before `rows` are done, and in row `rows` the
/// first `cols` columns are done.  `alpha` selects compositing over
/// overwriting.
pub open spec fn sp_paste_upto(
    d: Seq<Rgba>,
    dw: int,
    s: Seq<Rgba>,
    sw: int,
    sh: int,
    x: int,
    y: int,
    alpha: bool,
    rows: int,
    cols: int,
) -> Seq<Rgba> {
    Seq::new(
        d.len(),
        |k: int|
            if x <= k % dw < x + sw && y <= k / dw < y + sh && (k / dw - y < rows || (k / dw - y
                == rows && k % dw - x < cols)) {
                if alpha {
                    composite(d[k], s[(k / dw - y) * sw + (k % dw - x)])
                } else {
                    s[(k / dw - y) * sw + (k % dw - x)]
                }
            } else {
                d[k]
            },
    )
}

impl Canvas {
    /// Paste `src` into this canvas at offset (`x`, `y`), one of the two
    /// modes of `sp_paste_upto`.
    #[verifier::rlimit(50)]
    pub(crate) fn paste(&mut self, src: &Canvas, x: u32, y: u32, alpha: bool)
        requires
            old(self).wf(),
            src.wf(),
            x + src.spec_width() <= old(self).spec_width(),
            y + src.spec_height() <= old(self).spec_height(),
        ensures
            final(self).wf(),
            final(self).spec_width() == old(self).spec_width(),
            final(self).spec_height() == old(self).spec_height(),
            final(self)@ == (if alpha {
                sp_paste_alpha(
                    old(self)@,
                    old(self).spec_width() as int,
                    src@,
                    src.spec_width() as int,
                    src.spec_height() as int,
                    x as int,
                    y as int,
                )
            } else {
                sp_paste_over(
                    old(self)@,
                    old(self).spec_width() as int,
                    src@,
                    src.spec_width() as int,
                    src.spec_height() as int,
                    x as int,
                    y as int,
                )
            }),
    {
        let ghost d = self@;
        let ghost dw = self.spec_width() as int;
        let ghost s = src@;
        let ghost sw = src.spec_width() as int;
        let ghost sh = src.spec_height() as int;
        let ghost gx = x as int;
        let ghost gy = y as int;
        let sheight = src.height();
        let swidth = src.width();
        proof {
            assert(self@ =~= sp_paste_upto(d, dw, s, sw, sh, gx, gy, alpha, 0, 0));
        }
        let mut j: u32 = 0;
        while j < sheight
            invariant
                j <= sheight,
                self.wf(),
                self.spec_width() == old(self).spec_width(),
                self.spec_height() == old(self).spec_height(),
                d == old(self)@,
                dw == old(self).spec_width() as int,
                s == src@,
                sw == src.spec_width() as int,
                sh == src.spec_height() as int,
                gx == x as int,
                gy == y as int,
                sheight == src.spec_height(),
                swidth == src.spec_width(),
                src.wf(),
                x + src.spec_width() <= old(self).spec_width(),
                y + src.spec_height() <= old(self).spec_height(),
                self@ == sp_paste_upto(d, dw, s, sw, sh, gx, gy, alpha, j as int, 0),
            decreases sheight - j,
        {
            let mut i: u32 = 0;
            while i < swidth
                invariant
                    i <= swidth,
                    j < sheight,
                    self.wf(),
                    self.spec_width() == old(self).spec_width(),
                    self.spec_height() == old(self).spec_height(),
                    d == old(self)@,
                    dw == old(self).spec_width() as int,
                    s == src@,
                    sw == src.spec_width() as int,
                    sh == src.spec_height() as int,
                    gx == x as int,
                    gy == y as int,
                    sheight == src.spec_height(),
                    swidth == src.spec_width(),
                    src.wf(),
                    x + src.spec_width() <= old(self).spec_width(),
                    y + src.spec_height() <= old(self).spec_height(),
                    self@ == sp_paste_upto(d, dw, s, sw, sh, gx, gy, alpha, j as int, i as int),
                decreases swidth - i,
            {
                let sp = src.get_pixel(i, j);
                let px: u32 = x + i;
                let py: u32 = y + j;
                let ghost k = py as int * dw + px as int;
                proof {
                    self.lemma_index_in_bounds(px as int, py as int);
                    lemma_row_major(k, px as int, py as int, dw);
                    src.lemma_index_in_bounds(i as int, j as int);
                }
                let np = if alpha {
                    let dp = self.get_pixel(px, py);
                    proof {
                        assert(self@[k] == d[k]);
                    }
                    blend(dp, sp)
                } else {
                    sp
                };
                let ghost before = self@;
                self.put_pixel(px, py, np);
                proof {
                    assert(self@ =~= sp_paste_upto(
                        d,
                        dw,
                        s,
                        sw,
                        sh,
                        gx,
                        gy,
                        alpha,
                        j as int,
                        i + 1,
                    )) by {
                        assert forall|k2: int| 0 <= k2 < d.len() implies self@[k2] == sp_paste_upto(
                            d,
                            dw,
                            s,
                            sw,
                            sh,
                            gx,
                            gy,
                            alpha,
                            j as int,
                            i + 1,
                        )[k2] by {
                            if k2 != k {
                                if gx <= k2 % dw < gx + sw && gy <= k2 / dw < gy + sh {
                                    if k2 % dw == px as int && k2 / dw == py as int {
                                        assert(k2 == (k2 / dw) * dw + k2 % dw) by {
                                            vstd::arithmetic::div_mod::lemma_fundamental_div_mod(
                                                k2,
                                                dw,
                                            );
                                        }
                                        assert(false);
                                    }
                                }
                            }
                        }
                    }
                }
                i = i + 1;
            }
            proof {
                assert(sp_paste_upto(d, dw, s, sw, sh, gx, gy, alpha, j as int, sw)
                    =~= sp_paste_upto(d, dw, s, sw, sh, gx, gy, alpha, j + 1, 0));
            }
            j = j + 1;
        }
        proof {
            if alpha {
                assert(sp_paste_upto(d, dw, s, sw, sh, gx, gy, true, sh, 0) =~= sp_paste_alpha(
                    d,
                    dw,
                    s,
                    sw,
                    sh,
                    gx,
                    gy,
                ));
            } else {
                assert(sp_paste_upto(d, dw, s, sw, sh, gx, gy, false, sh, 0) =~= sp_paste_over(
                    d,
                    dw,
                    s,
                    sw,
                    sh,
                    gx,
                    gy,
                ));
            }
        }
    }

    /// Overwrite the rectangle at (`x`, `y`) with the pixels of `src`.
    pub fn copy_from(&mut self, src: &Canvas, x: u32, y: u32)
        requires
            old(self).wf(),
            src.wf(),
            x + src.spec_width() <= old(self).spec_width(),
            y + src.spec_height() <= old(self).spec_height(),
        ensures
            final(self).wf(),
            final(self).spec_width() == old(self).spec_width(),
            final(self).spec_height() == old(self).spec_height(),
            final(self)@ == sp_paste_over(
                old(self)@,
                old(self).spec_width() as int,
                src@,
                src.spec_width() as int,
                src.spec_height() as int,
                x as int,
                y as int,
            ),
    {
        self.paste(src, x, y, false);
    }

    /// Copy a `w` x `h` rectangle starting at (`x`, `y`) out of this canvas.
    pub fn crop(&self, x: u32, y: u32, w: u32, h: u32) -> (out: Canvas)
        requires
            self.wf(),
            x + w <= self.spec_width(),
            y + h <= self.spec_height(),
        ensures
            out.wf(),
            out.spec_width() == w,
            out.spec_height() == h,
            out@ == sp_crop(
                self@,
                self.spec_width() as int,
                x as int,
                y as int,
                w as int,
                h as int,
            ),
    {
        let ghost target = sp_crop(
            self@,
            self.spec_width() as int,
            x as int,
            y as int,
            w as int,
            h as int,
        );
        proof {
            assert(w as int * h as int >= 0) by (nonlinear_arith);
            assert(w as int * h as int <= self@.len()) by (nonlinear_arith)
                requires
                    w <= self.spec_width(),
                    h <= self.spec_height(),
                    self@.len() == self.spec_width() as int * self.spec_height() as int,
            ;
        }
        let mut data: Vec<Rgba> = Vec::new();
        let mut j: u32 = 0;
        while j < h
            invariant
                j <= h,
                self.wf(),
                x + w <= self.spec_width(),
                y + h <= self.spec_height(),
                target == sp_crop(self@, self.spec_width() as int, x as int, y as int, w as int,
                    h as int),
                data@.len() == j as int * w as int,
                forall|k: int| 0 <= k < data@.len() ==> data@[k] == target[k],
            decreases h - j,
        {
            let mut i: u32 = 0;
            while i < w
                invariant
                    i <= w,
                    j < h,
                    self.wf(),
                    x + w <= self.spec_width(),
                    y + h <= self.spec_height(),
                    target == sp_crop(self@, self.spec_width() as int, x as int, y as int,
                        w as int, h as int),
                    data@.len() == j as int * w as int + i as int,
                    forall|k: int| 0 <= k < data@.len() ==> data@[k] == target[k],
                decreases w - i,
            {
                let p = self.get_pixel(x + i, y + j);
                let ghost k = j as int * w as int + i as int;
                proof {
                    if w > 0 {
                        lemma_row_major(k, i as int, j as int, w as int);
                    }
                    assert(k < w as int * h as int) by (nonlinear_arith)
                        requires
                            k == j as int * w as int + i as int,
                            i < w,
                            j < h,
                    ;
                }
                data.push(p);
                i = i + 1;
            }
            proof {
                assert((j as int + 1) * w as int == j as int * w as int + w as int)
                    by (nonlinear_arith);
            }
            j = j + 1;
        }
        proof {
            assert(h as int * w as int == w as int * h as int) by (nonlinear_arith);
            assert(data@ =~= target);
        }
        Canvas { width: w, height: h, data }
    }
}

} // verus!
