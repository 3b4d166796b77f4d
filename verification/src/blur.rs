//! Linear-time box-blur approximation of a Gaussian blur.
//!
//! A Gaussian blur of deviation `sigma` is approximated by three successive
//! box blurs whose widths are derived from `sigma`; each box blur is a moving
//! average kept as a running sum, so the cost per pixel is constant and
//! independent of the radius.  Samples beyond an edge are clamped to the
//! nearest edge pixel, and the four channels are averaged independently.

use crate::canvas::Canvas;
use crate::canvas::Rgba;
use crate::canvas::channel;
use crate::canvas::lemma_row_major;
use crate::imageproc::isqrt64;
use vstd::prelude::*;

verus! {

/// Clamp a coordinate into [0, `hi`].
pub open spec fn clamp_coord(v: int, hi: int) -> int {
    if v < 0 {
        0
    } else if v > hi {
        hi
    } else {
        v
    }
}

/// Sum of channel `c` over the `n` horizontally consecutive samples starting
/// at column `a` of row `y`, columns clamped to the row.
pub open spec fn hsum(d: Seq<Rgba>, w: int, y: int, a: int, n: nat, c: int) -> int
    decreases n,
{
    if n == 0 {
        0
    } else {
        hsum(d, w, y, a, (n - 1) as nat, c) + channel(d[y * w + clamp_coord(a + n - 1, w - 1)], c)
    }
}

/// Sum of channel `c` over the `n` vertically consecutive samples starting at
/// row `a` of column `x`, rows clamped to the column.
pub open spec fn vsum(d: Seq<Rgba>, w: int, h: int, x: int, a: int, n: nat, c: int) -> int
    decreases n,
{
    if n == 0 {
        0
    } else {
        vsum(d, w, h, x, a, (n - 1) as nat, c) + channel(
            d[clamp_coord(a + n - 1, h - 1) * w + x],
            c,
        )
    }
}

/// `sum / m` rounded to the nearest integer, halves rounding up.
pub open spec fn rdiv_round(sum: int, m: int) -> int {
    (2 * sum + m) / (2 * m)
}

/// The horizontally blurred pixel at (`x`, `y`): each channel is the rounded
/// average of the window of width `2r + 1` centred on the pixel.
pub open spec fn sp_blur_px_h(d: Seq<Rgba>, w: int, x: int, y: int, r: int) -> Rgba {
    let m = 2 * r + 1;
    Rgba {
        r: rdiv_round(hsum(d, w, y, x - r, m as nat, 0), m) as u8,
        g: rdiv_round(hsum(d, w, y, x - r, m as nat, 1), m) as u8,
        b: rdiv_round(hsum(d, w, y, x - r, m as nat, 2), m) as u8,
        a: rdiv_round(hsum(d, w, y, x - r, m as nat, 3), m) as u8,
    }
}

/// The vertically blurred pixel at (`x`, `y`).
pub open spec fn sp_blur_px_v(d: Seq<Rgba>, w: int, h: int, x: int, y: int, r: int) -> Rgba {
    let m = 2 * r + 1;
    Rgba {
        r: rdiv_round(vsum(d, w, h, x, y - r, m as nat, 0), m) as u8,
        g: rdiv_round(vsum(d, w, h, x, y - r, m as nat, 1), m) as u8,
        b: rdiv_round(vsum(d, w, h, x, y - r, m as nat, 2), m) as u8,
        a: rdiv_round(vsum(d, w, h, x, y - r, m as nat, 3), m) as u8,
    }
}

/// One horizontal box pass of radius `r` over the whole buffer.
pub open spec fn sp_box_h(d: Seq<Rgba>, w: int, r: int) -> Seq<Rgba> {
    Seq::new(d.len(), |k: int| sp_blur_px_h(d, w, k % w, k / w, r))
}

/// One vertical box pass of radius `r` over the whole buffer.
pub open spec fn sp_box_v(d: Seq<Rgba>, w: int, h: int, r: int) -> Seq<Rgba> {
    Seq::new(d.len(), |k: int| sp_blur_px_v(d, w, h, k % w, k / w, r))
}

/// One box blur: a horizontal pass followed by a vertical pass.
pub open spec fn sp_box_blur(d: Seq<Rgba>, w: int, h: int, r: int) -> Seq<Rgba> {
    sp_box_v(sp_box_h(d, w, r), w, h, r)
}

/// Three box blurs approximating a Gaussian of deviation `sigma`: the box
/// widths derived from `sigma` give, for whole `sigma` at least one, two
/// passes of radius `sigma - 1` followed by one of radius `sigma`.
pub open spec fn sp_gaussian(d: Seq<Rgba>, w: int, h: int, sigma: int) -> Seq<Rgba> {
    let rl = if sigma == 0 {
        0
    } else {
        sigma - 1
    };
    sp_box_blur(sp_box_blur(sp_box_blur(d, w, h, rl), w, h, rl), w, h, sigma)
}

/// Every term of a horizontal window sum is a channel value, so the sum of
/// `n` terms lies in [0, 255 n].
proof fn lemma_hsum_bounds(d: Seq<Rgba>, w: int, y: int, a: int, n: nat, c: int)
    ensures
        0 <= hsum(d, w, y, a, n, c) <= 255 * n,
    decreases n,
{
    if n > 0 {
        lemma_hsum_bounds(d, w, y, a, (n - 1) as nat, c);
    }
}

proof fn lemma_vsum_bounds(d: Seq<Rgba>, w: int, h: int, x: int, a: int, n: nat, c: int)
    ensures
        0 <= vsum(d, w, h, x, a, n, c) <= 255 * n,
    decreases n,
{
    if n > 0 {
        lemma_vsum_bounds(d, w, h, x, a, (n - 1) as nat, c);
    }
}

/// Sliding the window one column to the right adds the new rightmost sample
/// and drops the old leftmost one.
proof fn lemma_hsum_shift(d: Seq<Rgba>, w: int, y: int, a: int, n: nat, c: int)
    ensures
        hsum(d, w, y, a + 1, n, c) == hsum(d, w, y, a, n, c) + channel(
            d[y * w + clamp_coord(a + n, w - 1)],
            c,
        ) - channel(d[y * w + clamp_coord(a, w - 1)], c),
    decreases n,
{
    if n > 0 {
        lemma_hsum_shift(d, w, y, a, (n - 1) as nat, c);
    }
}

proof fn lemma_vsum_shift(d: Seq<Rgba>, w: int, h: int, x: int, a: int, n: nat, c: int)
    ensures
        vsum(d, w, h, x, a + 1, n, c) == vsum(d, w, h, x, a, n, c) + channel(
            d[clamp_coord(a + n, h - 1) * w + x],
            c,
        ) - channel(d[clamp_coord(a, h - 1) * w + x], c),
    decreases n,
{
    if n > 0 {
        lemma_vsum_shift(d, w, h, x, a, (n - 1) as nat, c);
    }
}

/// A window sum of at least one term is at least its first term.
proof fn lemma_hsum_first(d: Seq<Rgba>, w: int, y: int, a: int, n: nat, c: int)
    requires
        n >= 1,
    ensures
        hsum(d, w, y, a, n, c) >= channel(d[y * w + clamp_coord(a, w - 1)], c),
    decreases n,
{
    if n == 1 {
        assert(hsum(d, w, y, a, 0, c) == 0);
    } else {
        lemma_hsum_first(d, w, y, a, (n - 1) as nat, c);
    }
}

proof fn lemma_vsum_first(d: Seq<Rgba>, w: int, h: int, x: int, a: int, n: nat, c: int)
    requires
        n >= 1,
    ensures
        vsum(d, w, h, x, a, n, c) >= channel(d[clamp_coord(a, h - 1) * w + x], c),
    decreases n,
{
    if n == 1 {
        assert(vsum(d, w, h, x, a, 0, c) == 0);
    } else {
        lemma_vsum_first(d, w, h, x, a, (n - 1) as nat, c);
    }
}

/// The rounded average of a window sum, executable form.
fn rounded_avg(sum: u64, m: u64) -> (v: u8)
    requires
        1 <= m <= 0x0040_0000,
        sum <= 255 * m,
    ensures
        v == rdiv_round(sum as int, m as int) as u8,
        v == rdiv_round(sum as int, m as int),
{
    proof {
        assert(2 * sum + m <= 511 * m) by (nonlinear_arith)
            requires
                sum <= 255 * m,
        ;
        assert((511 * m) / (2 * m) == 255) by {
            assert(511 * m == 255 * (2 * m) + m) by (nonlinear_arith);
            vstd::arithmetic::div_mod::lemma_fundamental_div_mod_converse(
                511 * m as int,
                2 * m as int,
                255,
                m as int,
            );
        }
        vstd::arithmetic::div_mod::lemma_div_is_ordered(
            2 * sum as int + m as int,
            511 * m as int,
            2 * m as int,
        );
        vstd::arithmetic::div_mod::lemma_div_pos_is_pos(2 * sum as int + m as int, 2 * m as int);
    }
    ((2 * sum + m) / (2 * m)) as u8
}

/// Pixel of row `y`, column `xi` clamped into the row.
fn fetch_h(src: &Canvas, xi: i64, y: u32) -> (p: Rgba)
    requires
        src.wf(),
        src.spec_width() >= 1,
        y < src.spec_height(),
        -0x1000_0000 <= xi <= 0x1000_0000,
    ensures
        p == src@[y * src.spec_width() + clamp_coord(xi as int, src.spec_width() - 1)],
{
    let w = src.width();
    let x: u32 = if xi < 0 {
        0
    } else if xi > (w - 1) as i64 {
        w - 1
    } else {
        xi as u32
    };
    src.get_pixel(x, y)
}

/// Pixel of column `x`, row `yi` clamped into the column.
fn fetch_v(src: &Canvas, x: u32, yi: i64) -> (p: Rgba)
    requires
        src.wf(),
        src.spec_height() >= 1,
        x < src.spec_width(),
        -0x1000_0000 <= yi <= 0x1000_0000,
    ensures
        p == src@[clamp_coord(yi as int, src.spec_height() - 1) * src.spec_width() + x],
{
    let h = src.height();
    let y: u32 = if yi < 0 {
        0
    } else if yi > (h - 1) as i64 {
        h - 1
    } else {
        yi as u32
    };
    src.get_pixel(x, y)
}

/// One horizontal box pass: every pixel becomes the rounded average of the
/// window of width `2 * radius + 1` around it in its row, kept as a running
/// sum per channel.
#[verifier::rlimit(50)]
pub fn box_blur_horz(src: &Canvas, radius: u32) -> (out: Canvas)
    requires
        src.wf(),
        src.spec_width() <= 0x0100_0000,
        src.spec_height() <= 0x0100_0000,
        radius <= 0x0010_0000,
    ensures
        out.wf(),
        out.spec_width() == src.spec_width(),
        out.spec_height() == src.spec_height(),
        out@ == sp_box_h(src@, src.spec_width() as int, radius as int),
{
    let ghost d = src@;
    let w = src.width();
    let h = src.height();
    let ghost gw = w as int;
    let ghost gr = radius as int;
    let m64: u64 = 2 * (radius as u64) + 1;
    let ghost m = m64 as int;
    let mut data: Vec<Rgba> = Vec::new();
    if w == 0 || h == 0 {
        proof {
            assert(d.len() == 0) by (nonlinear_arith)
                requires
                    d.len() == src.spec_width() * src.spec_height(),
                    src.spec_width() == 0 || src.spec_height() == 0,
            ;
            assert(data@ =~= sp_box_h(d, gw, gr));
        }
        return Canvas { width: w, height: h, data };
    }
    let mut y: u32 = 0;
    while y < h
        invariant
            y <= h,
            src.wf(),
            1 <= w == src.spec_width() <= 0x0100_0000,
            1 <= h == src.spec_height() <= 0x0100_0000,
            radius <= 0x0010_0000,
            d == src@,
            gw == w as int,
            gr == radius as int,
            m == 2 * gr + 1,
            m64 == m,
            data@.len() == y as int * gw,
            forall|k: int|
                0 <= k < data@.len() ==> data@[k] == sp_blur_px_h(d, gw, k % gw, k / gw, gr),
        decreases h - y,
    {
        // build the initial window, centred on column 0
        let mut sr: u64 = 0;
        let mut sg: u64 = 0;
        let mut sb: u64 = 0;
        let mut sa: u64 = 0;
        let mut k: u64 = 0;
        while k < m64
            invariant
                k <= m64,
                y < h,
                src.wf(),
                1 <= w == src.spec_width() <= 0x0100_0000,
                h == src.spec_height() <= 0x0100_0000,
                radius <= 0x0010_0000,
                d == src@,
                gw == w as int,
                gr == radius as int,
                m == 2 * gr + 1,
                m64 == m,
                sr == hsum(d, gw, y as int, -gr, k as nat, 0),
                sg == hsum(d, gw, y as int, -gr, k as nat, 1),
                sb == hsum(d, gw, y as int, -gr, k as nat, 2),
                sa == hsum(d, gw, y as int, -gr, k as nat, 3),
                sr <= 255 * k,
                sg <= 255 * k,
                sb <= 255 * k,
                sa <= 255 * k,
            decreases m64 - k,
        {
            let p = fetch_h(src, k as i64 - radius as i64, y);
            proof {
                assert(hsum(d, gw, y as int, -gr, (k + 1) as nat, 0) == hsum(
                    d,
                    gw,
                    y as int,
                    -gr,
                    k as nat,
                    0,
                ) + channel(d[y as int * gw + clamp_coord(-gr + k, gw - 1)], 0));
                assert(hsum(d, gw, y as int, -gr, (k + 1) as nat, 1) == hsum(
                    d,
                    gw,
                    y as int,
                    -gr,
                    k as nat,
                    1,
                ) + channel(d[y as int * gw + clamp_coord(-gr + k, gw - 1)], 1));
                assert(hsum(d, gw, y as int, -gr, (k + 1) as nat, 2) == hsum(
                    d,
                    gw,
                    y as int,
                    -gr,
                    k as nat,
                    2,
                ) + channel(d[y as int * gw + clamp_coord(-gr + k, gw - 1)], 2));
                assert(hsum(d, gw, y as int, -gr, (k + 1) as nat, 3) == hsum(
                    d,
                    gw,
                    y as int,
                    -gr,
                    k as nat,
                    3,
                ) + channel(d[y as int * gw + clamp_coord(-gr + k, gw - 1)], 3));
            }
            sr = sr + p.r as u64;
            sg = sg + p.g as u64;
            sb = sb + p.b as u64;
            sa = sa + p.a as u64;
            k = k + 1;
        }
        let mut x: u32 = 0;
        while x < w
            invariant
                x <= w,
                y < h,
                src.wf(),
                1 <= w == src.spec_width() <= 0x0100_0000,
                h == src.spec_height() <= 0x0100_0000,
                radius <= 0x0010_0000,
                d == src@,
                gw == w as int,
                gr == radius as int,
                m == 2 * gr + 1,
                m64 == m,
                sr == hsum(d, gw, y as int, x - gr, m as nat, 0),
                sg == hsum(d, gw, y as int, x - gr, m as nat, 1),
                sb == hsum(d, gw, y as int, x - gr, m as nat, 2),
                sa == hsum(d, gw, y as int, x - gr, m as nat, 3),
                sr <= 255 * m,
                sg <= 255 * m,
                sb <= 255 * m,
                sa <= 255 * m,
                data@.len() == y as int * gw + x as int,
                forall|k: int|
                    0 <= k < data@.len() ==> data@[k] == sp_blur_px_h(d, gw, k % gw, k / gw, gr),
            decreases w - x,
        {
            proof {
                lemma_hsum_bounds(d, gw, y as int, x - gr, m as nat, 0);
                lemma_hsum_bounds(d, gw, y as int, x - gr, m as nat, 1);
                lemma_hsum_bounds(d, gw, y as int, x - gr, m as nat, 2);
                lemma_hsum_bounds(d, gw, y as int, x - gr, m as nat, 3);
            }
            let px = Rgba {
                r: rounded_avg(sr, m64),
                g: rounded_avg(sg, m64),
                b: rounded_avg(sb, m64),
                a: rounded_avg(sa, m64),
            };
            let ghost kidx = y as int * gw + x as int;
            proof {
                lemma_row_major(kidx, x as int, y as int, gw);
                assert(px == sp_blur_px_h(d, gw, kidx % gw, kidx / gw, gr));
            }
            data.push(px);
            // slide the window one column to the right
            let pnew = fetch_h(src, x as i64 + radius as i64 + 1, y);
            let pold = fetch_h(src, x as i64 - radius as i64, y);
            proof {
                lemma_hsum_shift(d, gw, y as int, x - gr, m as nat, 0);
                lemma_hsum_shift(d, gw, y as int, x - gr, m as nat, 1);
                lemma_hsum_shift(d, gw, y as int, x - gr, m as nat, 2);
                lemma_hsum_shift(d, gw, y as int, x - gr, m as nat, 3);
                lemma_hsum_first(d, gw, y as int, x - gr, m as nat, 0);
                lemma_hsum_first(d, gw, y as int, x - gr, m as nat, 1);
                lemma_hsum_first(d, gw, y as int, x - gr, m as nat, 2);
                lemma_hsum_first(d, gw, y as int, x - gr, m as nat, 3);
                lemma_hsum_bounds(d, gw, y as int, x + 1 - gr, m as nat, 0);
                lemma_hsum_bounds(d, gw, y as int, x + 1 - gr, m as nat, 1);
                lemma_hsum_bounds(d, gw, y as int, x + 1 - gr, m as nat, 2);
                lemma_hsum_bounds(d, gw, y as int, x + 1 - gr, m as nat, 3);
            }
            sr = sr + pnew.r as u64 - pold.r as u64;
            sg = sg + pnew.g as u64 - pold.g as u64;
            sb = sb + pnew.b as u64 - pold.b as u64;
            sa = sa + pnew.a as u64 - pold.a as u64;
            x = x + 1;
        }
        proof {
            assert((y as int + 1) * gw == y as int * gw + gw) by (nonlinear_arith);
        }
        y = y + 1;
    }
    proof {
        assert(data@.len() == h as int * gw);
        assert(h as int * gw == d.len()) by (nonlinear_arith)
            requires
                d.len() == src.spec_width() * src.spec_height(),
                gw == src.spec_width() as int,
                h == src.spec_height(),
        ;
        assert(data@ =~= sp_box_h(d, gw, gr));
    }
    Canvas { width: w, height: h, data }
}

/// Prefix of the vertical pass: columns before `cols` are done, and in
/// column `cols` the rows before `rows` are done; the rest still holds the
/// initial fill.
pub open spec fn sp_vpass_upto(
    d: Seq<Rgba>,
    gw: int,
    gh: int,
    gr: int,
    cols: int,
    rows: int,
) -> Seq<Rgba> {
    Seq::new(
        d.len(),
        |k: int|
            if k % gw < cols || (k % gw == cols && k / gw < rows) {
                sp_blur_px_v(d, gw, gh, k % gw, k / gw, gr)
            } else {
                Rgba { r: 0, g: 0, b: 0, a: 0 }
            },
    )
}

/// One vertical box pass, the mirror image of the horizontal one.
#[verifier::rlimit(50)]
pub fn box_blur_vert(src: &Canvas, radius: u32) -> (out: Canvas)
    requires
        src.wf(),
        src.spec_width() <= 0x0100_0000,
        src.spec_height() <= 0x0100_0000,
        radius <= 0x0010_0000,
    ensures
        out.wf(),
        out.spec_width() == src.spec_width(),
        out.spec_height() == src.spec_height(),
        out@ == sp_box_v(src@, src.spec_width() as int, src.spec_height() as int, radius as int),
{
    let ghost d = src@;
    let w = src.width();
    let h = src.height();
    let ghost gw = w as int;
    let ghost gh = h as int;
    let ghost gr = radius as int;
    let m64: u64 = 2 * (radius as u64) + 1;
    let ghost m = m64 as int;
    if w == 0 || h == 0 {
        let data: Vec<Rgba> = Vec::new();
        proof {
            assert(d.len() == 0) by (nonlinear_arith)
                requires
                    d.len() == src.spec_width() * src.spec_height(),
                    src.spec_width() == 0 || src.spec_height() == 0,
            ;
            assert(data@ =~= sp_box_v(d, gw, gh, gr));
        }
        return Canvas { width: w, height: h, data };
    }
    // the output is row-major but the running sums walk columns, so the pass
    // writes into a zeroed canvas pixel by pixel
    // reading the length ties the buffer size to usize for the allocation
    let nlen = src.data.len();
    proof {
        assert(nlen == d.len());
    }
    let mut out = Canvas::from_pixel(w, h, Rgba { r: 0, g: 0, b: 0, a: 0 });
    proof {
        assert(out@ =~= sp_vpass_upto(d, gw, gh, gr, 0, 0)) by {
            assert forall|k: int| 0 <= k < d.len() implies sp_vpass_upto(d, gw, gh, gr, 0, 0)[k]
                == (Rgba { r: 0, g: 0, b: 0, a: 0 }) by {
                vstd::arithmetic::div_mod::lemma_mod_bound(k, gw);
                vstd::arithmetic::div_mod::lemma_div_pos_is_pos(k, gw);
            }
        }
    }
    let mut x: u32 = 0;
    while x < w
        invariant
            x <= w,
            src.wf(),
            1 <= w == src.spec_width() <= 0x0100_0000,
            1 <= h == src.spec_height() <= 0x0100_0000,
            radius <= 0x0010_0000,
            d == src@,
            gw == w as int,
            gh == h as int,
            gr == radius as int,
            m == 2 * gr + 1,
            m64 == m,
            out.wf(),
            out.spec_width() == w,
            out.spec_height() == h,
            out@ == sp_vpass_upto(d, gw, gh, gr, x as int, 0),
        decreases w - x,
    {
        let mut sr: u64 = 0;
        let mut sg: u64 = 0;
        let mut sb: u64 = 0;
        let mut sa: u64 = 0;
        let mut k: u64 = 0;
        while k < m64
            invariant
                k <= m64,
                x < w,
                src.wf(),
                1 <= w == src.spec_width() <= 0x0100_0000,
                1 <= h == src.spec_height() <= 0x0100_0000,
                radius <= 0x0010_0000,
                d == src@,
                gw == w as int,
                gh == h as int,
                gr == radius as int,
                m == 2 * gr + 1,
                m64 == m,
                sr == vsum(d, gw, gh, x as int, -gr, k as nat, 0),
                sg == vsum(d, gw, gh, x as int, -gr, k as nat, 1),
                sb == vsum(d, gw, gh, x as int, -gr, k as nat, 2),
                sa == vsum(d, gw, gh, x as int, -gr, k as nat, 3),
                sr <= 255 * k,
                sg <= 255 * k,
                sb <= 255 * k,
                sa <= 255 * k,
            decreases m64 - k,
        {
            let p = fetch_v(src, x, k as i64 - radius as i64);
            proof {
                assert(vsum(d, gw, gh, x as int, -gr, (k + 1) as nat, 0) == vsum(
                    d,
                    gw,
                    gh,
                    x as int,
                    -gr,
                    k as nat,
                    0,
                ) + channel(d[clamp_coord(-gr + k, gh - 1) * gw + x], 0));
                assert(vsum(d, gw, gh, x as int, -gr, (k + 1) as nat, 1) == vsum(
                    d,
                    gw,
                    gh,
                    x as int,
                    -gr,
                    k as nat,
                    1,
                ) + channel(d[clamp_coord(-gr + k, gh - 1) * gw + x], 1));
                assert(vsum(d, gw, gh, x as int, -gr, (k + 1) as nat, 2) == vsum(
                    d,
                    gw,
                    gh,
                    x as int,
                    -gr,
                    k as nat,
                    2,
                ) + channel(d[clamp_coord(-gr + k, gh - 1) * gw + x], 2));
                assert(vsum(d, gw, gh, x as int, -gr, (k + 1) as nat, 3) == vsum(
                    d,
                    gw,
                    gh,
                    x as int,
                    -gr,
                    k as nat,
                    3,
                ) + channel(d[clamp_coord(-gr + k, gh - 1) * gw + x], 3));
            }
            sr = sr + p.r as u64;
            sg = sg + p.g as u64;
            sb = sb + p.b as u64;
            sa = sa + p.a as u64;
            k = k + 1;
        }
        let mut yy: u32 = 0;
        while yy < h
            invariant
                yy <= h,
                x < w,
                src.wf(),
                1 <= w == src.spec_width() <= 0x0100_0000,
                1 <= h == src.spec_height() <= 0x0100_0000,
                radius <= 0x0010_0000,
                d == src@,
                gw == w as int,
                gh == h as int,
                gr == radius as int,
                m == 2 * gr + 1,
                m64 == m,
                sr == vsum(d, gw, gh, x as int, yy - gr, m as nat, 0),
                sg == vsum(d, gw, gh, x as int, yy - gr, m as nat, 1),
                sb == vsum(d, gw, gh, x as int, yy - gr, m as nat, 2),
                sa == vsum(d, gw, gh, x as int, yy - gr, m as nat, 3),
                sr <= 255 * m,
                sg <= 255 * m,
                sb <= 255 * m,
                sa <= 255 * m,
                out.wf(),
                out.spec_width() == w,
                out.spec_height() == h,
                out@ == sp_vpass_upto(d, gw, gh, gr, x as int, yy as int),
            decreases h - yy,
        {
            proof {
                lemma_vsum_bounds(d, gw, gh, x as int, yy - gr, m as nat, 0);
                lemma_vsum_bounds(d, gw, gh, x as int, yy - gr, m as nat, 1);
                lemma_vsum_bounds(d, gw, gh, x as int, yy - gr, m as nat, 2);
                lemma_vsum_bounds(d, gw, gh, x as int, yy - gr, m as nat, 3);
            }
            let px = Rgba {
                r: rounded_avg(sr, m64),
                g: rounded_avg(sg, m64),
                b: rounded_avg(sb, m64),
                a: rounded_avg(sa, m64),
            };
            let ghost kidx = yy as int * gw + x as int;
            proof {
                assert(px == sp_blur_px_v(d, gw, gh, x as int, yy as int, gr));
                out.lemma_index_in_bounds(x as int, yy as int);
                lemma_row_major(kidx, x as int, yy as int, gw);
            }
            out.put_pixel(x, yy, px);
            proof {
                assert(out@ =~= sp_vpass_upto(d, gw, gh, gr, x as int, yy + 1)) by {
                    assert forall|k2: int| 0 <= k2 < d.len() implies out@[k2] == sp_vpass_upto(
                        d,
                        gw,
                        gh,
                        gr,
                        x as int,
                        yy + 1,
                    )[k2] by {
                        if k2 != kidx {
                            if k2 % gw == x as int && k2 / gw == yy as int {
                                assert(k2 == (k2 / gw) * gw + k2 % gw) by {
                                    vstd::arithmetic::div_mod::lemma_fundamental_div_mod(k2, gw);
                                    assert(gw * (k2 / gw) == (k2 / gw) * gw) by (nonlinear_arith);
                                }
                                assert(false);
                            }
                        }
                    }
                }
            }
            let pnew = fetch_v(src, x, yy as i64 + radius as i64 + 1);
            let pold = fetch_v(src, x, yy as i64 - radius as i64);
            proof {
                lemma_vsum_shift(d, gw, gh, x as int, yy - gr, m as nat, 0);
                lemma_vsum_shift(d, gw, gh, x as int, yy - gr, m as nat, 1);
                lemma_vsum_shift(d, gw, gh, x as int, yy - gr, m as nat, 2);
                lemma_vsum_shift(d, gw, gh, x as int, yy - gr, m as nat, 3);
                lemma_vsum_first(d, gw, gh, x as int, yy - gr, m as nat, 0);
                lemma_vsum_first(d, gw, gh, x as int, yy - gr, m as nat, 1);
                lemma_vsum_first(d, gw, gh, x as int, yy - gr, m as nat, 2);
                lemma_vsum_first(d, gw, gh, x as int, yy - gr, m as nat, 3);
                lemma_vsum_bounds(d, gw, gh, x as int, yy + 1 - gr, m as nat, 0);
                lemma_vsum_bounds(d, gw, gh, x as int, yy + 1 - gr, m as nat, 1);
                lemma_vsum_bounds(d, gw, gh, x as int, yy + 1 - gr, m as nat, 2);
                lemma_vsum_bounds(d, gw, gh, x as int, yy + 1 - gr, m as nat, 3);
            }
            sr = sr + pnew.r as u64 - pold.r as u64;
            sg = sg + pnew.g as u64 - pold.g as u64;
            sb = sb + pnew.b as u64 - pold.b as u64;
            sa = sa + pnew.a as u64 - pold.a as u64;
            yy = yy + 1;
        }
        proof {
            assert(sp_vpass_upto(d, gw, gh, gr, x as int, gh) =~= sp_vpass_upto(d, gw, gh, gr, x
                + 1, 0)) by {
                assert forall|k2: int| 0 <= k2 < d.len() implies sp_vpass_upto(
                    d,
                    gw,
                    gh,
                    gr,
                    x as int,
                    gh,
                )[k2] == sp_vpass_upto(d, gw, gh, gr, x + 1, 0)[k2] by {
                    vstd::arithmetic::div_mod::lemma_mod_bound(k2, gw);
                    vstd::arithmetic::div_mod::lemma_div_pos_is_pos(k2, gw);
                    assert(k2 / gw < gh) by {
                        vstd::arithmetic::div_mod::lemma_div_is_ordered(k2, gw * gh - 1, gw);
                        assert((gw * gh - 1) / gw == gh - 1) by {
                            assert(gw * gh - 1 == (gh - 1) * gw + (gw - 1)) by (nonlinear_arith)
                                requires
                                    gw >= 1,
                            ;
                            vstd::arithmetic::div_mod::lemma_fundamental_div_mod_converse(
                                gw * gh - 1,
                                gw,
                                gh - 1,
                                gw - 1,
                            );
                        }
                        assert(k2 <= gw * gh - 1);
                    }
                }
            }
        }
        x = x + 1;
    }
    proof {
        assert(out@ =~= sp_box_v(d, gw, gh, gr)) by {
            assert forall|k2: int| 0 <= k2 < d.len() implies sp_vpass_upto(
                d,
                gw,
                gh,
                gr,
                gw,
                0,
            )[k2] == sp_box_v(d, gw, gh, gr)[k2] by {
                vstd::arithmetic::div_mod::lemma_mod_bound(k2, gw);
            }
        }
    }
    out
}


/// The three box widths that approximate a Gaussian of deviation `sigma`:
/// the ideal width `sqrt(12 sigma^2 / 3 + 1)` is rounded down to an odd
/// integer `wl`, and the count `m` of passes taking `wl` rather than
/// `wl + 2` is chosen so the combined variance matches the target,
/// `m = round((12 sigma^2 - 3 wl^2 - 12 wl - 9) / (-4 wl - 4))`.  For whole
/// `sigma` at least one this collapses to two passes of width
/// `2 sigma - 1` and one of width `2 sigma + 1`.
#[verifier::rlimit(50)]
pub fn create_box_gauss(sigma: u32) -> (sizes: Vec<u32>)
    requires
        sigma <= 0x0010_0000,
    ensures
        sizes@.len() == 3,
        forall|i: int|
            0 <= i < 3 ==> sizes@[i] == (if sigma == 0 {
                1u32
            } else if i < 2 {
                (2 * sigma - 1) as u32
            } else {
                (2 * sigma + 1) as u32
            }),
{
    let s64: u64 = sigma as u64;
    proof {
        assert(4 * s64 * s64 + 1 < 0x4000_0000_0000_0000) by (nonlinear_arith)
            requires
                s64 <= 0x0010_0000,
        ;
    }
    // w_ideal = sqrt(4 sigma^2 + 1); its floor is 1 for sigma = 0 and
    // 2 sigma otherwise
    let root = isqrt64(4 * s64 * s64 + 1);
    proof {
        if s64 == 0 {
            assert(4 * s64 * s64 == 0) by (nonlinear_arith)
                requires
                    s64 == 0,
            ;
            assert(root == 1) by (nonlinear_arith)
                requires
                    root * root <= 1,
                    1 < (root + 1) * (root + 1),
            ;
        } else {
            assert(root == 2 * s64) by (nonlinear_arith)
                requires
                    s64 >= 1,
                    root * root <= 4 * s64 * s64 + 1,
                    4 * s64 * s64 + 1 < (root + 1) * (root + 1),
            ;
        }
    }
    let wl: u64 = if root % 2 == 0 {
        root - 1
    } else {
        root
    };
    proof {
        if s64 == 0 {
            assert(wl == 1);
        } else {
            assert(wl == 2 * s64 - 1);
        }
        assert(wl <= 0x0020_0001);
        assert(3 * wl * wl <= 0x1000_0000_0000_0000) by (nonlinear_arith)
            requires
                wl <= 0x0020_0001,
        ;
        assert(12 * s64 * s64 <= 0x1000_0000_0000_0000) by (nonlinear_arith)
            requires
                s64 <= 0x0010_0000,
        ;
        if s64 >= 1 {
            assert(3 * wl * wl + 12 * wl + 9 == 12 * s64 * s64 + 12 * s64) by (nonlinear_arith)
                requires
                    s64 >= 1,
                    wl == 2 * s64 - 1,
            ;
        } else {
            assert(3 * wl * wl + 12 * wl + 9 == 24) by (nonlinear_arith)
                requires
                    wl == 1,
            ;
            assert(12 * s64 * s64 == 0) by (nonlinear_arith)
                requires
                    s64 == 0,
            ;
        }
    }
    // both numerator and denominator of the variance formula are negative,
    // so the rounded quotient is computed from their magnitudes
    let num: u64 = 3 * wl * wl + 12 * wl + 9 - 12 * s64 * s64;
    let den: u64 = 4 * wl + 4;
    let mr: u64 = (2 * num + den) / (2 * den);
    proof {
        if s64 == 0 {
            assert(num == 24);
            assert(den == 8);
            assert(2 * num + den == 56);
            assert(2 * den == 16);
            assert(56int / 16int == 3) by {
                vstd::arithmetic::div_mod::lemma_fundamental_div_mod_converse(56, 16, 3, 8);
            }
            assert(mr == 3);
        } else {
            assert(num == 12 * s64);
            assert(den == 8 * s64);
            assert(2 * num + den == 32 * s64);
            assert(2 * den == 16 * s64);
            assert((32 * s64) as int / (16 * s64) as int == 2) by {
                assert(32 * s64 == 2 * (16 * s64) + 0) by (nonlinear_arith);
                vstd::arithmetic::div_mod::lemma_fundamental_div_mod_converse(
                    32 * s64 as int,
                    16 * s64 as int,
                    2,
                    0,
                );
            }
            assert(mr == 2);
        }
    }
    let wu: u64 = wl + 2;
    let mut sizes: Vec<u32> = Vec::new();
    let mut i: u64 = 0;
    while i < 3
        invariant
            i <= 3,
            mr == (if s64 == 0 {
                3u64
            } else {
                2u64
            }),
            wl == (if s64 == 0 {
                1
            } else {
                2 * s64 - 1
            }),
            s64 == sigma,
            sigma <= 0x0010_0000,
            wu == wl + 2,
            sizes@.len() == i,
            forall|j: int|
                0 <= j < i ==> sizes@[j] == (if sigma == 0 {
                    1u32
                } else if j < 2 {
                    (2 * sigma - 1) as u32
                } else {
                    (2 * sigma + 1) as u32
                }),
        decreases 3 - i,
    {
        if i < mr {
            sizes.push(wl as u32);
        } else {
            sizes.push(wu as u32);
        }
        i = i + 1;
    }
    sizes
}

/// One box blur: the horizontal pass, then the vertical pass.
pub fn box_blur(src: &Canvas, radius: u32) -> (out: Canvas)
    requires
        src.wf(),
        src.spec_width() <= 0x0100_0000,
        src.spec_height() <= 0x0100_0000,
        radius <= 0x0010_0000,
    ensures
        out.wf(),
        out.spec_width() == src.spec_width(),
        out.spec_height() == src.spec_height(),
        out@ == sp_box_blur(
            src@,
            src.spec_width() as int,
            src.spec_height() as int,
            radius as int,
        ),
{
    let tmp = box_blur_horz(src, radius);
    box_blur_vert(&tmp, radius)
}


/// A Gaussian blur of whole deviation `sigma`, approximated by three box
/// blurs whose widths come from `create_box_gauss`.
pub fn gaussian_blur(image: Canvas, sigma: u32) -> (out: Canvas)
    requires
        image.wf(),
        image.spec_width() <= 0x0100_0000,
        image.spec_height() <= 0x0100_0000,
        sigma <= 0x0010_0000,
    ensures
        out.wf(),
        out.spec_width() == image.spec_width(),
        out.spec_height() == image.spec_height(),
        out@ == sp_gaussian(
            image@,
            image.spec_width() as int,
            image.spec_height() as int,
            sigma as int,
        ),
{
    let sizes = create_box_gauss(sigma);
    let r0: u32 = (sizes[0] - 1) / 2;
    let r1: u32 = (sizes[1] - 1) / 2;
    let r2: u32 = (sizes[2] - 1) / 2;
    proof {
        let rl = if sigma == 0 {
            0int
        } else {
            sigma - 1
        };
        if sigma >= 1 {
            assert((2 * sigma - 2) as int / 2 == sigma - 1) by {
                vstd::arithmetic::div_mod::lemma_fundamental_div_mod_converse(
                    2 * sigma as int - 2,
                    2,
                    sigma as int - 1,
                    0,
                );
            }
            assert((2 * sigma) as int / 2 == sigma as int) by {
                vstd::arithmetic::div_mod::lemma_fundamental_div_mod_converse(
                    2 * sigma as int,
                    2,
                    sigma as int,
                    0,
                );
            }
        }
        assert(r0 == rl && r1 == rl && r2 == sigma);
    }
    let pass1 = box_blur(&image, r0);
    let pass2 = box_blur(&pass1, r1);
    box_blur(&pass2, r2)
}

/// A box pass of radius zero returns the buffer unchanged.
proof fn lemma_box_h_identity(d: Seq<Rgba>, w: int, h: int)
    requires
        d.len() == w * h,
        w >= 0,
        h >= 0,
    ensures
        sp_box_h(d, w, 0) == d,
{
    if w == 0 {
        assert(d.len() == 0) by (nonlinear_arith)
            requires
                d.len() == w * h,
                w == 0,
        ;
        assert(sp_box_h(d, w, 0) =~= d);
    } else {
        assert(sp_box_h(d, w, 0) =~= d) by {
            assert forall|k: int| 0 <= k < d.len() implies sp_box_h(d, w, 0)[k] == d[k] by {
                vstd::arithmetic::div_mod::lemma_mod_bound(k, w);
                vstd::arithmetic::div_mod::lemma_div_pos_is_pos(k, w);
                assert(k == (k / w) * w + k % w) by {
                    vstd::arithmetic::div_mod::lemma_fundamental_div_mod(k, w);
                    assert(w * (k / w) == (k / w) * w) by (nonlinear_arith);
                }
                assert(clamp_coord(k % w, w - 1) == k % w);
                assert(hsum(d, w, k / w, k % w, 0, 0) == 0);
                assert(hsum(d, w, k / w, k % w, 0, 1) == 0);
                assert(hsum(d, w, k / w, k % w, 0, 2) == 0);
                assert(hsum(d, w, k / w, k % w, 0, 3) == 0);
                assert(hsum(d, w, k / w, k % w, 1, 0) == channel(d[k], 0));
                assert(hsum(d, w, k / w, k % w, 1, 1) == channel(d[k], 1));
                assert(hsum(d, w, k / w, k % w, 1, 2) == channel(d[k], 2));
                assert(hsum(d, w, k / w, k % w, 1, 3) == channel(d[k], 3));
                lemma_rdiv_exact(channel(d[k], 0) as int, 1);
                lemma_rdiv_exact(channel(d[k], 1) as int, 1);
                lemma_rdiv_exact(channel(d[k], 2) as int, 1);
                lemma_rdiv_exact(channel(d[k], 3) as int, 1);
                assert(1 * (channel(d[k], 0) as int) == channel(d[k], 0) as int);
                assert(1 * (channel(d[k], 1) as int) == channel(d[k], 1) as int);
                assert(1 * (channel(d[k], 2) as int) == channel(d[k], 2) as int);
                assert(1 * (channel(d[k], 3) as int) == channel(d[k], 3) as int);
                assert(sp_blur_px_h(d, w, k % w, k / w, 0) == d[k]);
            }
        }
    }
}

proof fn lemma_box_v_identity(d: Seq<Rgba>, w: int, h: int)
    requires
        d.len() == w * h,
        w >= 0,
        h >= 0,
    ensures
        sp_box_v(d, w, h, 0) == d,
{
    if w == 0 {
        assert(d.len() == 0) by (nonlinear_arith)
            requires
                d.len() == w * h,
                w == 0,
        ;
        assert(sp_box_v(d, w, h, 0) =~= d);
    } else {
        assert(sp_box_v(d, w, h, 0) =~= d) by {
            assert forall|k: int| 0 <= k < d.len() implies sp_box_v(d, w, h, 0)[k] == d[k] by {
                vstd::arithmetic::div_mod::lemma_mod_bound(k, w);
                vstd::arithmetic::div_mod::lemma_div_pos_is_pos(k, w);
                assert(k == (k / w) * w + k % w) by {
                    vstd::arithmetic::div_mod::lemma_fundamental_div_mod(k, w);
                    assert(w * (k / w) == (k / w) * w) by (nonlinear_arith);
                }
                assert(k / w < h) by {
                    vstd::arithmetic::div_mod::lemma_div_is_ordered(k, w * h - 1, w);
                    assert((w * h - 1) / w == h - 1) by {
                        assert(w * h - 1 == (h - 1) * w + (w - 1)) by (nonlinear_arith)
                            requires
                                w >= 1,
                        ;
                        vstd::arithmetic::div_mod::lemma_fundamental_div_mod_converse(
                            w * h - 1,
                            w,
                            h - 1,
                            w - 1,
                        );
                    }
                    assert(k <= w * h - 1);
                }
                assert(clamp_coord(k / w, h - 1) == k / w);
                assert(vsum(d, w, h, k % w, k / w, 0, 0) == 0);
                assert(vsum(d, w, h, k % w, k / w, 0, 1) == 0);
                assert(vsum(d, w, h, k % w, k / w, 0, 2) == 0);
                assert(vsum(d, w, h, k % w, k / w, 0, 3) == 0);
                assert(vsum(d, w, h, k % w, k / w, 1, 0) == channel(d[k], 0));
                assert(vsum(d, w, h, k % w, k / w, 1, 1) == channel(d[k], 1));
                assert(vsum(d, w, h, k % w, k / w, 1, 2) == channel(d[k], 2));
                assert(vsum(d, w, h, k % w, k / w, 1, 3) == channel(d[k], 3));
                lemma_rdiv_exact(channel(d[k], 0) as int, 1);
                lemma_rdiv_exact(channel(d[k], 1) as int, 1);
                lemma_rdiv_exact(channel(d[k], 2) as int, 1);
                lemma_rdiv_exact(channel(d[k], 3) as int, 1);
                assert(1 * (channel(d[k], 0) as int) == channel(d[k], 0) as int);
                assert(1 * (channel(d[k], 1) as int) == channel(d[k], 1) as int);
                assert(1 * (channel(d[k], 2) as int) == channel(d[k], 2) as int);
                assert(1 * (channel(d[k], 3) as int) == channel(d[k], 3) as int);
                assert(sp_blur_px_v(d, w, h, k % w, k / w, 0) == d[k]);
            }
        }
    }
}

/// Blurring with deviation zero is the identity: each of the three box
/// passes has window width one, so every pixel is the rounded average of
/// itself alone.
pub proof fn lemma_blur_zero_identity(d: Seq<Rgba>, w: int, h: int)
    requires
        d.len() == w * h,
        w >= 0,
        h >= 0,
    ensures
        sp_gaussian(d, w, h, 0) == d,
{
    lemma_box_h_identity(d, w, h);
    lemma_box_v_identity(d, w, h);
}

/// A window sum over a solid-color buffer is the channel value times the
/// window width.
proof fn lemma_hsum_const(d: Seq<Rgba>, w: int, h: int, y: int, a: int, n: nat, c: int, col: Rgba)
    requires
        d.len() == w * h,
        1 <= w,
        0 <= y < h,
        forall|j: int| 0 <= j < d.len() ==> d[j] == col,
    ensures
        hsum(d, w, y, a, n, c) == n * channel(col, c),
    decreases n,
{
    if n == 0 {
        assert(0 * channel(col, c) == 0) by (nonlinear_arith);
    } else {
        lemma_hsum_const(d, w, h, y, a, (n - 1) as nat, c, col);
        let idx = y * w + clamp_coord(a + n - 1, w - 1);
        assert(0 <= idx < d.len()) by (nonlinear_arith)
            requires
                0 <= y < h,
                1 <= w,
                0 <= clamp_coord(a + n - 1, w - 1) < w,
                d.len() == w * h,
                idx == y * w + clamp_coord(a + n - 1, w - 1),
        ;
        assert(d[idx] == col);
        assert(n * channel(col, c) == (n - 1) * channel(col, c) + channel(col, c))
            by (nonlinear_arith);
    }
}

proof fn lemma_vsum_const(d: Seq<Rgba>, w: int, h: int, x: int, a: int, n: nat, c: int, col: Rgba)
    requires
        d.len() == w * h,
        1 <= w,
        1 <= h,
        0 <= x < w,
        forall|j: int| 0 <= j < d.len() ==> d[j] == col,
    ensures
        vsum(d, w, h, x, a, n, c) == n * channel(col, c),
    decreases n,
{
    if n == 0 {
        assert(0 * channel(col, c) == 0) by (nonlinear_arith);
    } else {
        lemma_vsum_const(d, w, h, x, a, (n - 1) as nat, c, col);
        let idx = clamp_coord(a + n - 1, h - 1) * w + x;
        assert(0 <= idx < d.len()) by (nonlinear_arith)
            requires
                0 <= x < w,
                1 <= w,
                0 <= clamp_coord(a + n - 1, h - 1) < h,
                d.len() == w * h,
                idx == clamp_coord(a + n - 1, h - 1) * w + x,
        ;
        assert(d[idx] == col);
        assert(n * channel(col, c) == (n - 1) * channel(col, c) + channel(col, c))
            by (nonlinear_arith);
    }
}

/// The rounded average of `m` equal samples is the sample itself.
proof fn lemma_rdiv_exact(v: int, m: int)
    requires
        m >= 1,
        v >= 0,
    ensures
        rdiv_round(m * v, m) == v,
{
    assert(2 * (m * v) + m == v * (2 * m) + m) by (nonlinear_arith);
    vstd::arithmetic::div_mod::lemma_fundamental_div_mod_converse(
        2 * (m * v) + m,
        2 * m,
        v,
        m,
    );
}

proof fn lemma_box_pass_const(d: Seq<Rgba>, w: int, h: int, r: int, col: Rgba)
    requires
        d.len() == w * h,
        0 <= w,
        0 <= h,
        0 <= r,
        forall|j: int| 0 <= j < d.len() ==> d[j] == col,
    ensures
        sp_box_blur(d, w, h, r) == d,
        forall|j: int| 0 <= j < sp_box_blur(d, w, h, r).len() ==> sp_box_blur(d, w, h, r)[j] == col,
{
    if w == 0 || h == 0 {
        assert(d.len() == 0) by (nonlinear_arith)
            requires
                d.len() == w * h,
                w == 0 || h == 0,
        ;
        assert(sp_box_h(d, w, r) =~= d);
        assert(sp_box_v(sp_box_h(d, w, r), w, h, r) =~= d);
    } else {
        let m = 2 * r + 1;
        assert(sp_box_h(d, w, r) =~= d) by {
            assert forall|k: int| 0 <= k < d.len() implies sp_box_h(d, w, r)[k] == d[k] by {
                vstd::arithmetic::div_mod::lemma_mod_bound(k, w);
                vstd::arithmetic::div_mod::lemma_div_pos_is_pos(k, w);
                assert(k / w < h) by {
                    vstd::arithmetic::div_mod::lemma_div_is_ordered(k, w * h - 1, w);
                    assert((w * h - 1) / w == h - 1) by {
                        assert(w * h - 1 == (h - 1) * w + (w - 1)) by (nonlinear_arith)
                            requires
                                w >= 1,
                        ;
                        vstd::arithmetic::div_mod::lemma_fundamental_div_mod_converse(
                            w * h - 1,
                            w,
                            h - 1,
                            w - 1,
                        );
                    }
                    assert(k <= w * h - 1);
                }
                lemma_hsum_const(d, w, h, k / w, k % w - r, m as nat, 0, col);
                lemma_hsum_const(d, w, h, k / w, k % w - r, m as nat, 1, col);
                lemma_hsum_const(d, w, h, k / w, k % w - r, m as nat, 2, col);
                lemma_hsum_const(d, w, h, k / w, k % w - r, m as nat, 3, col);
                lemma_rdiv_exact(channel(col, 0) as int, m);
                lemma_rdiv_exact(channel(col, 1) as int, m);
                lemma_rdiv_exact(channel(col, 2) as int, m);
                lemma_rdiv_exact(channel(col, 3) as int, m);
                assert(m * channel(col, 0) == hsum(d, w, k / w, k % w - r, m as nat, 0))
                    by (nonlinear_arith)
                    requires
                        hsum(d, w, k / w, k % w - r, m as nat, 0) == m * channel(col, 0),
                ;
                assert(d[k] == col);
                assert(sp_blur_px_h(d, w, k % w, k / w, r) == col);
            }
        }
        assert(sp_box_v(d, w, h, r) =~= d) by {
            assert forall|k: int| 0 <= k < d.len() implies sp_box_v(d, w, h, r)[k] == d[k] by {
                vstd::arithmetic::div_mod::lemma_mod_bound(k, w);
                vstd::arithmetic::div_mod::lemma_div_pos_is_pos(k, w);
                lemma_vsum_const(d, w, h, k % w, k / w - r, m as nat, 0, col);
                lemma_vsum_const(d, w, h, k % w, k / w - r, m as nat, 1, col);
                lemma_vsum_const(d, w, h, k % w, k / w - r, m as nat, 2, col);
                lemma_vsum_const(d, w, h, k % w, k / w - r, m as nat, 3, col);
                lemma_rdiv_exact(channel(col, 0) as int, m);
                lemma_rdiv_exact(channel(col, 1) as int, m);
                lemma_rdiv_exact(channel(col, 2) as int, m);
                lemma_rdiv_exact(channel(col, 3) as int, m);
                assert(d[k] == col);
                assert(sp_blur_px_v(d, w, h, k % w, k / w, r) == col);
            }
        }
    }
}

/// Blurring a solid-color buffer leaves it unchanged: every window is an
/// average of equal samples, so the mean of each channel is preserved
/// exactly.
pub proof fn lemma_blur_solid_invariant(d: Seq<Rgba>, w: int, h: int, sigma: int, col: Rgba)
    requires
        d.len() == w * h,
        0 <= w,
        0 <= h,
        0 <= sigma,
        forall|j: int| 0 <= j < d.len() ==> d[j] == col,
    ensures
        sp_gaussian(d, w, h, sigma) == d,
{
    let rl = if sigma == 0 {
        0int
    } else {
        sigma - 1
    };
    lemma_box_pass_const(d, w, h, rl, col);
    lemma_box_pass_const(d, w, h, sigma, col);
}


/// A horizontal window sum whose sampled positions all hold `col` is the
/// window width times the channel value.
proof fn lemma_hsum_const_local(
    d: Seq<Rgba>,
    w: int,
    y: int,
    a: int,
    n: nat,
    c: int,
    col: Rgba,
)
    requires
        forall|k: int|
            a <= k < a + n ==> 0 <= y * w + clamp_coord(k, w - 1) < d.len() && d[y * w
                + #[trigger] clamp_coord(k, w - 1)] == col,
    ensures
        hsum(d, w, y, a, n, c) == n * channel(col, c),
    decreases n,
{
    if n == 0 {
        assert(0 * channel(col, c) == 0) by (nonlinear_arith);
    } else {
        lemma_hsum_const_local(d, w, y, a, (n - 1) as nat, c, col);
        assert(n * channel(col, c) == (n - 1) * channel(col, c) + channel(col, c))
            by (nonlinear_arith);
    }
}

proof fn lemma_vsum_const_local(
    d: Seq<Rgba>,
    w: int,
    h: int,
    x: int,
    a: int,
    n: nat,
    c: int,
    col: Rgba,
)
    requires
        forall|k: int|
            a <= k < a + n ==> 0 <= clamp_coord(k, h - 1) * w + x < d.len() && d[#[trigger]
            clamp_coord(k, h - 1) * w + x] == col,
    ensures
        vsum(d, w, h, x, a, n, c) == n * channel(col, c),
    decreases n,
{
    if n == 0 {
        assert(0 * channel(col, c) == 0) by (nonlinear_arith);
    } else {
        lemma_vsum_const_local(d, w, h, x, a, (n - 1) as nat, c, col);
        assert(n * channel(col, c) == (n - 1) * channel(col, c) + channel(col, c))
            by (nonlinear_arith);
    }
}

/// Mass preservation on a solid interior region, horizontal pass: a pixel
/// whose whole window holds one color keeps that color exactly, so the mean
/// of each channel over such a region is unchanged.
pub proof fn lemma_blur_px_solid_h(d: Seq<Rgba>, w: int, x: int, y: int, r: int, col: Rgba)
    requires
        0 <= r,
        forall|k: int|
            x - r <= k < x + r + 1 ==> 0 <= y * w + clamp_coord(k, w - 1) < d.len() && d[y * w
                + #[trigger] clamp_coord(k, w - 1)] == col,
    ensures
        sp_blur_px_h(d, w, x, y, r) == col,
{
    let m = 2 * r + 1;
    lemma_hsum_const_local(d, w, y, x - r, m as nat, 0, col);
    lemma_hsum_const_local(d, w, y, x - r, m as nat, 1, col);
    lemma_hsum_const_local(d, w, y, x - r, m as nat, 2, col);
    lemma_hsum_const_local(d, w, y, x - r, m as nat, 3, col);
    lemma_rdiv_exact(channel(col, 0) as int, m);
    lemma_rdiv_exact(channel(col, 1) as int, m);
    lemma_rdiv_exact(channel(col, 2) as int, m);
    lemma_rdiv_exact(channel(col, 3) as int, m);
}

/// Mass preservation on a solid interior region, vertical pass.
pub proof fn lemma_blur_px_solid_v(
    d: Seq<Rgba>,
    w: int,
    h: int,
    x: int,
    y: int,
    r: int,
    col: Rgba,
)
    requires
        0 <= r,
        forall|k: int|
            y - r <= k < y + r + 1 ==> 0 <= clamp_coord(k, h - 1) * w + x < d.len() && d[
            #[trigger] clamp_coord(k, h - 1) * w + x] == col,
    ensures
        sp_blur_px_v(d, w, h, x, y, r) == col,
{
    let m = 2 * r + 1;
    lemma_vsum_const_local(d, w, h, x, y - r, m as nat, 0, col);
    lemma_vsum_const_local(d, w, h, x, y - r, m as nat, 1, col);
    lemma_vsum_const_local(d, w, h, x, y - r, m as nat, 2, col);
    lemma_vsum_const_local(d, w, h, x, y - r, m as nat, 3, col);
    lemma_rdiv_exact(channel(col, 0) as int, m);
    lemma_rdiv_exact(channel(col, 1) as int, m);
    lemma_rdiv_exact(channel(col, 2) as int, m);
    lemma_rdiv_exact(channel(col, 3) as int, m);
}


/// Every pixel of `d` within horizontal distance `kx` and vertical distance
/// `ky` of (`x0`, `y0`) holds `c`.
pub open spec fn sp_rect_const(
    d: Seq<Rgba>,
    w: int,
    x0: int,
    y0: int,
    kx: int,
    ky: int,
    c: Rgba,
) -> bool {
    forall|i: int|
        0 <= i < d.len() && x0 - kx <= i % w <= x0 + kx && y0 - ky <= i / w <= y0 + ky
            ==> #[trigger] d[i] == c
}

/// A horizontal box pass of radius `r` keeps a solid rectangle solid,
/// eroded by `r` on the left and right.
proof fn lemma_box_h_shrink(
    d: Seq<Rgba>,
    w: int,
    h: int,
    r: int,
    x0: int,
    y0: int,
    kx: int,
    ky: int,
    c: Rgba,
)
    requires
        d.len() == w * h,
        w >= 1,
        h >= 1,
        0 <= r <= kx,
        0 <= ky,
        0 <= x0 - kx,
        x0 + kx < w,
        0 <= y0 - ky,
        y0 + ky < h,
        sp_rect_const(d, w, x0, y0, kx, ky, c),
    ensures
        sp_rect_const(sp_box_h(d, w, r), w, x0, y0, kx - r, ky, c),
{
    let out = sp_box_h(d, w, r);
    assert forall|i: int|
        0 <= i < out.len() && x0 - (kx - r) <= i % w <= x0 + (kx - r) && y0 - ky <= i / w <= y0
            + ky implies #[trigger] out[i] == c by {
        let x = i % w;
        let y = i / w;
        assert forall|kk: int| x - r <= kk < x + r + 1 implies 0 <= y * w + clamp_coord(
            kk,
            w - 1,
        ) < d.len() && d[y * w + #[trigger] clamp_coord(kk, w - 1)] == c by {
            assert(0 <= kk < w);
            assert(clamp_coord(kk, w - 1) == kk);
            let j = y * w + kk;
            lemma_row_major(j, kk, y, w);
            assert(j < w * h) by (nonlinear_arith)
                requires
                    j == y * w + kk,
                    0 <= kk < w,
                    0 <= y < h,
            ;
            assert(j >= 0) by (nonlinear_arith)
                requires
                    j == y * w + kk,
                    kk >= 0,
                    y >= 0,
                    w >= 1,
            ;
            assert(d[j] == c);
        }
        lemma_blur_px_solid_h(d, w, x, y, r, c);
        assert(out[i] == sp_blur_px_h(d, w, x, y, r));
    }
}

/// A vertical box pass of radius `r` keeps a solid rectangle solid, eroded
/// by `r` at the top and bottom.
proof fn lemma_box_v_shrink(
    d: Seq<Rgba>,
    w: int,
    h: int,
    r: int,
    x0: int,
    y0: int,
    kx: int,
    ky: int,
    c: Rgba,
)
    requires
        d.len() == w * h,
        w >= 1,
        h >= 1,
        0 <= kx,
        0 <= r <= ky,
        0 <= x0 - kx,
        x0 + kx < w,
        0 <= y0 - ky,
        y0 + ky < h,
        sp_rect_const(d, w, x0, y0, kx, ky, c),
    ensures
        sp_rect_const(sp_box_v(d, w, h, r), w, x0, y0, kx, ky - r, c),
{
    let out = sp_box_v(d, w, h, r);
    assert forall|i: int|
        0 <= i < out.len() && x0 - kx <= i % w <= x0 + kx && y0 - (ky - r) <= i / w <= y0 + (ky
            - r) implies #[trigger] out[i] == c by {
        let x = i % w;
        let y = i / w;
        assert forall|kk: int| y - r <= kk < y + r + 1 implies 0 <= clamp_coord(kk, h - 1) * w + x
            < d.len() && d[#[trigger] clamp_coord(kk, h - 1) * w + x] == c by {
            assert(0 <= kk < h);
            assert(clamp_coord(kk, h - 1) == kk);
            let j = kk * w + x;
            lemma_row_major(j, x, kk, w);
            assert(j < w * h) by (nonlinear_arith)
                requires
                    j == kk * w + x,
                    0 <= x < w,
                    0 <= kk < h,
            ;
            assert(j >= 0) by (nonlinear_arith)
                requires
                    j == kk * w + x,
                    x >= 0,
                    kk >= 0,
                    w >= 1,
            ;
            assert(d[j] == c);
        }
        lemma_blur_px_solid_v(d, w, h, x, y, r, c);
        assert(out[i] == sp_blur_px_v(d, w, h, x, y, r));
    }
}

/// Mass preservation on an interior solid region: a pixel whose whole
/// neighbourhood, out to the combined radius of the three box passes, holds
/// one color keeps that color exactly.  Each pass is a weighted average
/// whose weights sum to one, so the mean channel value of such a region is
/// unchanged by the blur.
pub proof fn lemma_blur_interior_solid(
    d: Seq<Rgba>,
    w: int,
    h: int,
    sigma: int,
    x0: int,
    y0: int,
    c: Rgba,
)
    requires
        d.len() == w * h,
        w >= 1,
        h >= 1,
        0 <= sigma,
        0 <= x0 - sp_blur_reach(sigma),
        x0 + sp_blur_reach(sigma) < w,
        0 <= y0 - sp_blur_reach(sigma),
        y0 + sp_blur_reach(sigma) < h,
        sp_rect_const(d, w, x0, y0, sp_blur_reach(sigma), sp_blur_reach(sigma), c),
    ensures
        sp_gaussian(d, w, h, sigma)[y0 * w + x0] == c,
{
    let k = sp_blur_reach(sigma);
    let rl = if sigma == 0 {
        0int
    } else {
        sigma - 1
    };
    let d1h = sp_box_h(d, w, rl);
    let d1 = sp_box_v(d1h, w, h, rl);
    let d2h = sp_box_h(d1, w, rl);
    let d2 = sp_box_v(d2h, w, h, rl);
    let d3h = sp_box_h(d2, w, sigma);
    let d3 = sp_box_v(d3h, w, h, sigma);
    lemma_box_h_shrink(d, w, h, rl, x0, y0, k, k, c);
    lemma_box_v_shrink(d1h, w, h, rl, x0, y0, k - rl, k, c);
    lemma_box_h_shrink(d1, w, h, rl, x0, y0, k - rl, k - rl, c);
    lemma_box_v_shrink(d2h, w, h, rl, x0, y0, k - 2 * rl, k - rl, c);
    lemma_box_h_shrink(d2, w, h, sigma, x0, y0, k - 2 * rl, k - 2 * rl, c);
    lemma_box_v_shrink(d3h, w, h, sigma, x0, y0, k - 2 * rl - sigma, k - 2 * rl, c);
    let i0 = y0 * w + x0;
    lemma_row_major(i0, x0, y0, w);
    assert(i0 < w * h) by (nonlinear_arith)
        requires
            i0 == y0 * w + x0,
            0 <= x0 < w,
            0 <= y0 < h,
    ;
    assert(i0 >= 0) by (nonlinear_arith)
        requires
            i0 == y0 * w + x0,
            x0 >= 0,
            y0 >= 0,
            w >= 1,
    ;
    assert(d3[i0] == c);
}

/// The combined radius of the three box passes of a blur of deviation
/// `sigma`: two passes of radius `sigma - 1` and one of radius `sigma`.
pub open spec fn sp_blur_reach(sigma: int) -> int {
    if sigma == 0 {
        0
    } else {
        3 * sigma - 2
    }
}

} // verus!
