//! Rectangle, line and disk drawing primitives for the compositor.

use crate::canvas::Canvas;
use crate::canvas::Rgba;
use crate::canvas::lemma_row_major;
use vstd::prelude::*;

verus! {

/// A rectangular region given by its top-left corner and its size.
#[derive(Debug, PartialEq, Eq, Structural, Clone, Copy)]
pub struct Rect {
    pub left: i32,
    pub top: i32,
    pub width: u32,
    pub height: u32,
}

/// Bounds under which the corner arithmetic of a rectangle cannot overflow.
pub open spec fn rect_fits(r: Rect) -> bool {
    &&& -0x4000_0000 <= r.left <= 0x3FFF_FFFF
    &&& -0x4000_0000 <= r.top <= 0x3FFF_FFFF
    &&& r.width <= 0x4000_0000
    &&& r.height <= 0x4000_0000
}

/// Greatest x-coordinate of a rectangle.
pub open spec fn sp_right(r: Rect) -> int {
    r.left + r.width - 1
}

/// Greatest y-coordinate of a rectangle.
pub open spec fn sp_bottom(r: Rect) -> int {
    r.top + r.height - 1
}

/// The intersection of two rectangles, or `None` if they are disjoint.
pub open spec fn sp_intersect(a: Rect, b: Rect) -> Option<Rect> {
    let left = if a.left >= b.left {
        a.left as int
    } else {
        b.left as int
    };
    let top = if a.top >= b.top {
        a.top as int
    } else {
        b.top as int
    };
    let right = if sp_right(a) <= sp_right(b) {
        sp_right(a)
    } else {
        sp_right(b)
    };
    let bottom = if sp_bottom(a) <= sp_bottom(b) {
        sp_bottom(a)
    } else {
        sp_bottom(b)
    };
    if right < left || bottom < top {
        None
    } else {
        Some(
            Rect {
                left: left as i32,
                top: top as i32,
                width: (right - left + 1) as u32,
                height: (bottom - top + 1) as u32,
            },
        )
    }
}

impl Rect {
    /// A zero-sized rectangle whose top-left corner is at (`x`, `y`).
    pub fn at(x: i32, y: i32) -> (r: Rect)
        ensures
            r == (Rect { left: x, top: y, width: 0, height: 0 }),
    {
        Rect { left: x, top: y, width: 0, height: 0 }
    }

    /// The same rectangle resized to `width` x `height`.
    pub fn of_size(self, width: u32, height: u32) -> (r: Rect)
        ensures
            r == (Rect { left: self.left, top: self.top, width, height }),
    {
        Rect { left: self.left, top: self.top, width, height }
    }

    /// Greatest y-coordinate reached by the rectangle.
    pub fn bottom(&self) -> (b: i32)
        requires
            rect_fits(*self),
        ensures
            b == sp_bottom(*self),
    {
        self.top + (self.height as i32) - 1
    }

    /// Greatest x-coordinate reached by the rectangle.
    pub fn right(&self) -> (r: i32)
        requires
            rect_fits(*self),
        ensures
            r == sp_right(*self),
    {
        self.left + (self.width as i32) - 1
    }

    /// The intersection of `self` and `other`, or `None` if they are
    /// disjoint.
    pub fn intersect(&self, other: Rect) -> (r: Option<Rect>)
        requires
            rect_fits(*self),
            rect_fits(other),
        ensures
            r == sp_intersect(*self, other),
    {
        let left = if self.left >= other.left {
            self.left
        } else {
            other.left
        };
        let top = if self.top >= other.top {
            self.top
        } else {
            other.top
        };
        let sr = self.right();
        let or = other.right();
        let right = if sr <= or {
            sr
        } else {
            or
        };
        let sb = self.bottom();
        let ob = other.bottom();
        let bottom = if sb <= ob {
            sb
        } else {
            ob
        };
        if right < left || bottom < top {
            return None;
        }
        Some(Rect { left, top, width: (right - left) as u32 + 1, height: (bottom - top) as u32 + 1 })
    }
}

/// The buffer `d` of row width `dw` with every pixel whose column lies in
/// [`x0`, `x1`) and whose row lies in [`y0`, `y1`) set to `color`.
pub open spec fn sp_fill_region(
    d: Seq<Rgba>,
    dw: int,
    x0: int,
    x1: int,
    y0: int,
    y1: int,
    color: Rgba,
) -> Seq<Rgba> {
    Seq::new(
        d.len(),
        |k: int|
            if x0 <= k % dw < x1 && y0 <= k / dw < y1 {
                color
            } else {
                d[k]
            },
    )
}

/// Fill prefix: rows before `rows` are filled; in row `rows`, columns before
/// `cols` are filled.
pub open spec fn sp_fill_upto(
    d: Seq<Rgba>,
    dw: int,
    x0: int,
    x1: int,
    y0: int,
    y1: int,
    color: Rgba,
    rows: int,
    cols: int,
) -> Seq<Rgba> {
    Seq::new(
        d.len(),
        |k: int|
            if x0 <= k % dw < x1 && y0 <= k / dw < y1 && (k / dw - y0 < rows || (k / dw - y0 == rows
                && k % dw - x0 < cols)) {
                color
            } else {
                d[k]
            },
    )
}

/// Set every pixel of the clipped region [`x0`, `x1`) x [`y0`, `y1`) to
/// `color`.
pub(crate) fn fill_region(canvas: &mut Canvas, x0: u32, x1: u32, y0: u32, y1: u32, color: Rgba)
    requires
        old(canvas).wf(),
        x1 <= old(canvas).spec_width(),
        y1 <= old(canvas).spec_height(),
    ensures
        final(canvas).wf(),
        final(canvas).spec_width() == old(canvas).spec_width(),
        final(canvas).spec_height() == old(canvas).spec_height(),
        final(canvas)@ == sp_fill_region(
            old(canvas)@,
            old(canvas).spec_width() as int,
            x0 as int,
            x1 as int,
            y0 as int,
            y1 as int,
            color,
        ),
{
    let ghost d = canvas@;
    let ghost dw = canvas.spec_width() as int;
    proof {
        assert(canvas@ =~= sp_fill_upto(d, dw, x0 as int, x1 as int, y0 as int, y1 as int, color,
            0, 0));
    }
    let mut j: u32 = y0;
    if x0 >= x1 || y0 >= y1 {
        proof {
            assert(canvas@ =~= sp_fill_region(d, dw, x0 as int, x1 as int, y0 as int, y1 as int,
                color));
        }
        return ;
    }
    while j < y1
        invariant
            y0 <= j <= y1,
            x0 < x1,
            y0 < y1,
            canvas.wf(),
            canvas.spec_width() == old(canvas).spec_width(),
            canvas.spec_height() == old(canvas).spec_height(),
            d == old(canvas)@,
            dw == old(canvas).spec_width() as int,
            x1 <= old(canvas).spec_width(),
            y1 <= old(canvas).spec_height(),
            canvas@ == sp_fill_upto(d, dw, x0 as int, x1 as int, y0 as int, y1 as int, color, j
                - y0, 0),
        decreases y1 - j,
    {
        let mut i: u32 = x0;
        while i < x1
            invariant
                x0 <= i <= x1,
                y0 <= j < y1,
                x0 < x1,
                y0 < y1,
                canvas.wf(),
                canvas.spec_width() == old(canvas).spec_width(),
                canvas.spec_height() == old(canvas).spec_height(),
                d == old(canvas)@,
                dw == old(canvas).spec_width() as int,
                x1 <= old(canvas).spec_width(),
                y1 <= old(canvas).spec_height(),
                canvas@ == sp_fill_upto(d, dw, x0 as int, x1 as int, y0 as int, y1 as int, color,
                    j - y0, i - x0),
            decreases x1 - i,
        {
            let ghost k = j as int * dw + i as int;
            proof {
                canvas.lemma_index_in_bounds(i as int, j as int);
                lemma_row_major(k, i as int, j as int, dw);
            }
            canvas.put_pixel(i, j, color);
            proof {
                assert(canvas@ =~= sp_fill_upto(d, dw, x0 as int, x1 as int, y0 as int, y1 as int,
                    color, j - y0, i + 1 - x0)) by {
                    assert forall|k2: int| 0 <= k2 < d.len() implies canvas@[k2] == sp_fill_upto(
                        d,
                        dw,
                        x0 as int,
                        x1 as int,
                        y0 as int,
                        y1 as int,
                        color,
                        j - y0,
                        i + 1 - x0,
                    )[k2] by {
                        if k2 != k {
                            if k2 % dw == i as int && k2 / dw == j as int {
                                assert(k2 == (k2 / dw) * dw + k2 % dw) by {
                                    vstd::arithmetic::div_mod::lemma_fundamental_div_mod(k2, dw);
                                    assert(dw * (k2 / dw) == (k2 / dw) * dw) by (nonlinear_arith);
                                }
                                assert(false);
                            }
                        }
                    }
                }
            }
            i = i + 1;
        }
        proof {
            assert(sp_fill_upto(d, dw, x0 as int, x1 as int, y0 as int, y1 as int, color, j - y0,
                x1 - x0) =~= sp_fill_upto(d, dw, x0 as int, x1 as int, y0 as int, y1 as int, color,
                j + 1 - y0, 0));
        }
        j = j + 1;
    }
    proof {
        assert(sp_fill_upto(d, dw, x0 as int, x1 as int, y0 as int, y1 as int, color, y1 - y0, 0)
            =~= sp_fill_region(d, dw, x0 as int, x1 as int, y0 as int, y1 as int, color));
    }
}

/// Draw the part of `rect` that lies inside the canvas, in `color`.
pub fn draw_filled_rect_mut(canvas: &mut Canvas, rect: Rect, color: Rgba)
    requires
        old(canvas).wf(),
        rect_fits(rect),
        old(canvas).spec_width() <= 0x4000_0000,
        old(canvas).spec_height() <= 0x4000_0000,
    ensures
        final(canvas).wf(),
        final(canvas).spec_width() == old(canvas).spec_width(),
        final(canvas).spec_height() == old(canvas).spec_height(),
        final(canvas)@ == sp_fill_region(
            old(canvas)@,
            old(canvas).spec_width() as int,
            if rect.left >= 0 {
                rect.left as int
            } else {
                0
            },
            if rect.left + rect.width <= old(canvas).spec_width() {
                rect.left + rect.width
            } else {
                old(canvas).spec_width() as int
            },
            if rect.top >= 0 {
                rect.top as int
            } else {
                0
            },
            if rect.top + rect.height <= old(canvas).spec_height() {
                rect.top + rect.height
            } else {
                old(canvas).spec_height() as int
            },
            color,
        ),
{
    let w = canvas.width();
    let h = canvas.height();
    let x0u: u32 = if rect.left >= 0 {
        rect.left as u32
    } else {
        0
    };
    let x0: u32 = if x0u <= w {
        x0u
    } else {
        w
    };
    let xe: i64 = rect.left as i64 + rect.width as i64;
    let x1: u32 = if xe <= w as i64 {
        if xe >= 0 {
            xe as u32
        } else {
            0
        }
    } else {
        w
    };
    let y0u: u32 = if rect.top >= 0 {
        rect.top as u32
    } else {
        0
    };
    let y0: u32 = if y0u <= h {
        y0u
    } else {
        h
    };
    let ye: i64 = rect.top as i64 + rect.height as i64;
    let y1: u32 = if ye <= h as i64 {
        if ye >= 0 {
            ye as u32
        } else {
            0
        }
    } else {
        h
    };
    fill_region(canvas, x0, if x1 >= x0 { x1 } else { x0 }, y0, if y1 >= y0 { y1 } else { y0 },
        color);
    proof {
        assert(canvas@ =~= sp_fill_region(
            old(canvas)@,
            old(canvas).spec_width() as int,
            if rect.left >= 0 {
                rect.left as int
            } else {
                0
            },
            if rect.left + rect.width <= old(canvas).spec_width() {
                rect.left + rect.width
            } else {
                old(canvas).spec_width() as int
            },
            if rect.top >= 0 {
                rect.top as int
            } else {
                0
            },
            if rect.top + rect.height <= old(canvas).spec_height() {
                rect.top + rect.height
            } else {
                old(canvas).spec_height() as int
            },
            color,
        ));
    }
}

/// Integer square root: the greatest `r` with `r * r <= n`.
pub fn isqrt64(n: u64) -> (r: u64)
    requires
        n < 0x4000_0000_0000_0000,
    ensures
        r * r <= n < (r + 1) * (r + 1),
{
    let mut r: u64 = 0;
    loop
        invariant
            n < 0x4000_0000_0000_0000,
            r * r <= n,
            r < 0x8000_0000,
            r <= n,
        ensures
            r * r <= n < (r + 1) * (r + 1),
        decreases n - r,
    {
        proof {
            assert((r + 1) * (r + 1) <= 0x8000_0000 * 0x8000_0000) by (nonlinear_arith)
                requires
                    r < 0x8000_0000,
            ;
        }
        let nx: u64 = (r + 1) * (r + 1);
        if nx <= n {
            r = r + 1;
            proof {
                assert(r * r < 0x4000_0000_0000_0000 ==> r < 0x8000_0000) by (nonlinear_arith);
                assert(r * r <= n ==> r <= n) by (nonlinear_arith);
            }
        } else {
            break ;
        }
    }
    r
}

/// Whether (`px`, `py`) lies in the closed disk of radius `r` around
/// (`cx`, `cy`).
pub open spec fn in_disk(px: int, py: int, cx: int, cy: int, r: int) -> bool {
    (px - cx) * (px - cx) + (py - cy) * (py - cy) <= r * r
}

/// The buffer after filling the disk of radius `r` around (`cx`, `cy`) with
/// `color`; a negative radius draws nothing.
pub open spec fn sp_fill_disk(
    d: Seq<Rgba>,
    dw: int,
    cx: int,
    cy: int,
    r: int,
    color: Rgba,
) -> Seq<Rgba> {
    Seq::new(
        d.len(),
        |k: int|
            if r >= 0 && in_disk(k % dw, k / dw, cx, cy, r) {
                color
            } else {
                d[k]
            },
    )
}

/// Disk fill prefix: rows with `py - cy < dyc` are done.
pub open spec fn sp_disk_rows(
    d: Seq<Rgba>,
    dw: int,
    cx: int,
    cy: int,
    r: int,
    color: Rgba,
    dyc: int,
) -> Seq<Rgba> {
    Seq::new(
        d.len(),
        |k: int|
            if in_disk(k % dw, k / dw, cx, cy, r) && k / dw - cy < dyc {
                color
            } else {
                d[k]
            },
    )
}

/// Disk fill prefix within a row: rows before `dyc` are done, and in row
/// `dyc` the columns with `px - cx < dxc` are done.
pub open spec fn sp_disk_upto(
    d: Seq<Rgba>,
    dw: int,
    cx: int,
    cy: int,
    r: int,
    color: Rgba,
    dyc: int,
    dxc: int,
) -> Seq<Rgba> {
    Seq::new(
        d.len(),
        |k: int|
            if in_disk(k % dw, k / dw, cx, cy, r) && (k / dw - cy < dyc || (k / dw - cy == dyc && k
                % dw - cx < dxc)) {
                color
            } else {
                d[k]
            },
    )
}

/// Draw as much of a filled disk as lies inside the canvas bounds.
#[verifier::rlimit(50)]
pub fn draw_filled_circle_mut(canvas: &mut Canvas, center: (i32, i32), radius: i32, color: Rgba)
    requires
        old(canvas).wf(),
        old(canvas).spec_width() <= 0x4000_0000,
        old(canvas).spec_height() <= 0x4000_0000,
        -0x4000_0000 <= center.0 <= 0x4000_0000,
        -0x4000_0000 <= center.1 <= 0x4000_0000,
        radius <= 0x4000_0000,
    ensures
        final(canvas).wf(),
        final(canvas).spec_width() == old(canvas).spec_width(),
        final(canvas).spec_height() == old(canvas).spec_height(),
        final(canvas)@ == sp_fill_disk(
            old(canvas)@,
            old(canvas).spec_width() as int,
            center.0 as int,
            center.1 as int,
            radius as int,
            color,
        ),
{
    let ghost d = canvas@;
    let ghost dw = canvas.spec_width() as int;
    let cx: i64 = center.0 as i64;
    let cy: i64 = center.1 as i64;
    if radius < 0 {
        proof {
            assert(canvas@ =~= sp_fill_disk(d, dw, center.0 as int, center.1 as int,
                radius as int, color));
        }
        return ;
    }
    let r: i64 = radius as i64;
    let w = canvas.width();
    let h = canvas.height();
    proof {
        assert(r * r <= 0x4000_0000 * 0x4000_0000) by (nonlinear_arith)
            requires
                0 <= r <= 0x4000_0000,
        ;
        assert(canvas@ =~= sp_disk_rows(d, dw, cx as int, cy as int, r as int, color, -r)) by {
            assert forall|k: int| 0 <= k < d.len() implies sp_disk_rows(
                d,
                dw,
                cx as int,
                cy as int,
                r as int,
                color,
                -r,
            )[k] == d[k] by {
                if in_disk(k % dw, k / dw, cx as int, cy as int, r as int) && k / dw - cy < -r {
                    let dy = k / dw - cy;
                    assert(dy * dy > r * r) by (nonlinear_arith)
                        requires
                            dy < -r,
                            r >= 0,
                    ;
                    assert((k % dw - cx) * (k % dw - cx) >= 0) by (nonlinear_arith);
                }
            }
        }
    }
    let mut t: i64 = 0;
    while t < 2 * r + 1
        invariant
            0 <= t <= 2 * r + 1,
            0 <= r <= 0x4000_0000,
            -0x4000_0000 <= cx <= 0x4000_0000,
            -0x4000_0000 <= cy <= 0x4000_0000,
            canvas.wf(),
            canvas.spec_width() == old(canvas).spec_width(),
            canvas.spec_height() == old(canvas).spec_height(),
            d == old(canvas)@,
            dw == old(canvas).spec_width() as int,
            w == old(canvas).spec_width(),
            h == old(canvas).spec_height(),
            canvas@ == sp_disk_rows(d, dw, cx as int, cy as int, r as int, color, t - r),
        decreases 2 * r + 1 - t,
    {
        let dy: i64 = t - r;
        proof {
            assert(r * r <= 0x4000_0000 * 0x4000_0000) by (nonlinear_arith)
                requires
                    0 <= r <= 0x4000_0000,
            ;
            assert(0 <= dy * dy <= r * r) by (nonlinear_arith)
                requires
                    -r <= dy <= r,
                    r >= 0,
            ;
        }
        let s64: u64 = isqrt64((r * r - dy * dy) as u64);
        let ghost n = r * r - dy * dy;
        let s: i64 = s64 as i64;
        proof {
            assert(s64 * s64 <= n ==> s64 <= 0x4000_0000) by (nonlinear_arith)
                requires
                    n <= 0x4000_0000 * 0x4000_0000,
            ;
            assert(s64 <= 0x4000_0000);
            assert(s as int == s64 as int);
            assert((s as int) * (s as int) <= n);
            assert((s as int + 1) * (s as int + 1) > n);
            assert(canvas@ =~= sp_disk_upto(d, dw, cx as int, cy as int, r as int, color,
                dy as int, -(s as int))) by {
                assert forall|k: int| 0 <= k < d.len() implies sp_disk_upto(
                    d,
                    dw,
                    cx as int,
                    cy as int,
                    r as int,
                    color,
                    dy as int,
                    -(s as int),
                )[k] == sp_disk_rows(d, dw, cx as int, cy as int, r as int, color, dy as int)[k] by {
                    if in_disk(k % dw, k / dw, cx as int, cy as int, r as int) && k / dw - cy == dy
                        && k % dw - cx < -(s as int) {
                        let m = k % dw - cx;
                        assert(m * m <= n) by (nonlinear_arith)
                            requires
                                m * m + dy * dy <= r * r,
                                n == r * r - dy * dy,
                        ;
                        assert(m * m > n) by (nonlinear_arith)
                            requires
                                m <= -(s as int) - 1,
                                s as int >= 0,
                                (s as int + 1) * (s as int + 1) > n,
                        ;
                    }
                }
            }
        }
        let mut u: i64 = 0;
        while u < 2 * s + 1
            invariant
                0 <= u <= 2 * s + 1,
                0 <= s <= 0x4000_0000,
                0 <= r <= 0x4000_0000,
                -r <= dy <= r,
                n == r * r - dy * dy,
                s * s <= n,
                (s + 1) * (s + 1) > n,
                -0x4000_0000 <= cx <= 0x4000_0000,
                -0x4000_0000 <= cy <= 0x4000_0000,
                canvas.wf(),
                canvas.spec_width() == old(canvas).spec_width(),
                canvas.spec_height() == old(canvas).spec_height(),
                d == old(canvas)@,
                dw == old(canvas).spec_width() as int,
                w == old(canvas).spec_width(),
                h == old(canvas).spec_height(),
                canvas@ == sp_disk_upto(d, dw, cx as int, cy as int, r as int, color, dy as int, u
                    - s),
            decreases 2 * s + 1 - u,
        {
            let dx: i64 = u - s;
            let px: i64 = cx + dx;
            let py: i64 = cy + dy;
            proof {
                assert(dx * dx <= n) by (nonlinear_arith)
                    requires
                        -s <= dx <= s,
                        s * s <= n,
                        s >= 0,
                ;
                assert(in_disk(px as int, py as int, cx as int, cy as int, r as int));
            }
            if 0 <= px && px < w as i64 && 0 <= py && py < h as i64 {
                let ghost k = py as int * dw + px as int;
                proof {
                    canvas.lemma_index_in_bounds(px as int, py as int);
                    lemma_row_major(k, px as int, py as int, dw);
                }
                canvas.put_pixel(px as u32, py as u32, color);
                proof {
                    assert(canvas@ =~= sp_disk_upto(d, dw, cx as int, cy as int, r as int, color,
                        dy as int, dx + 1)) by {
                        assert forall|k2: int| 0 <= k2 < d.len() implies canvas@[k2]
                            == sp_disk_upto(
                            d,
                            dw,
                            cx as int,
                            cy as int,
                            r as int,
                            color,
                            dy as int,
                            dx + 1,
                        )[k2] by {
                            if k2 != k {
                                if k2 % dw == px as int && k2 / dw == py as int {
                                    assert(k2 == (k2 / dw) * dw + k2 % dw) by {
                                        vstd::arithmetic::div_mod::lemma_fundamental_div_mod(
                                            k2,
                                            dw,
                                        );
                                        assert(dw * (k2 / dw) == (k2 / dw) * dw)
                                            by (nonlinear_arith);
                                    }
                                    assert(false);
                                }
                            }
                        }
                    }
                }
            } else {
                proof {
                    assert(canvas@ =~= sp_disk_upto(d, dw, cx as int, cy as int, r as int, color,
                        dy as int, dx + 1)) by {
                        assert forall|k2: int| 0 <= k2 < d.len() implies canvas@[k2]
                            == sp_disk_upto(
                            d,
                            dw,
                            cx as int,
                            cy as int,
                            r as int,
                            color,
                            dy as int,
                            dx + 1,
                        )[k2] by {
                            if k2 % dw == px as int && k2 / dw == py as int {
                                let dh = old(canvas).spec_height() as int;
                                assert(dw >= 1 && dh >= 1) by (nonlinear_arith)
                                    requires
                                        dw * dh == d.len(),
                                        d.len() >= 1,
                                        dw >= 0,
                                        dh >= 0,
                                ;
                                assert(0 <= k2 % dw < dw && 0 <= k2 / dw) by {
                                    vstd::arithmetic::div_mod::lemma_mod_bound(k2, dw);
                                    vstd::arithmetic::div_mod::lemma_div_pos_is_pos(k2, dw);
                                }
                                assert(k2 == (k2 / dw) * dw + k2 % dw) by {
                                    vstd::arithmetic::div_mod::lemma_fundamental_div_mod(k2, dw);
                                    assert(dw * (k2 / dw) == (k2 / dw) * dw) by (nonlinear_arith);
                                }
                                assert(k2 < dw * dh);
                                assert(k2 / dw < dh) by {
                                    vstd::arithmetic::div_mod::lemma_div_is_ordered(
                                        k2,
                                        dw * dh - 1,
                                        dw,
                                    );
                                    assert((dw * dh - 1) / dw == dh - 1) by {
                                        assert(dw * dh - 1 == (dh - 1) * dw + (dw - 1))
                                            by (nonlinear_arith)
                                            requires dw >= 1,
                                        ;
                                        vstd::arithmetic::div_mod::lemma_fundamental_div_mod_converse(
                                            dw * dh - 1,
                                            dw,
                                            dh - 1,
                                            dw - 1,
                                        );
                                    }
                                }
                                assert(false);
                            }
                        }
                    }
                }
            }
            u = u + 1;
        }
        proof {
            let up_row = sp_disk_upto(d, dw, cx as int, cy as int, r as int, color, dy as int,
                s as int + 1);
            let rows_next = sp_disk_rows(d, dw, cx as int, cy as int, r as int, color, dy + 1);
            assert(up_row =~= rows_next) by {
                assert forall|k: int| 0 <= k < d.len() implies up_row[k] == rows_next[k] by {
                    if in_disk(k % dw, k / dw, cx as int, cy as int, r as int) && k / dw - cy
                        == dy {
                        let m = k % dw - cx;
                        assert(m * m <= n) by (nonlinear_arith)
                            requires
                                m * m + dy * dy <= r * r,
                                n == r * r - dy * dy,
                        ;
                        assert(m <= s as int ==> m < s as int + 1);
                        if m > s as int {
                            assert(m * m > n) by (nonlinear_arith)
                                requires
                                    m >= s as int + 1,
                                    s as int >= 0,
                                    (s as int + 1) * (s as int + 1) > n,
                                    m >= 0,
                            ;
                        }
                    }
                }
            }
        }
        t = t + 1;
    }
    proof {
        assert(sp_disk_rows(d, dw, cx as int, cy as int, r as int, color, r + 1) =~= sp_fill_disk(
            d,
            dw,
            cx as int,
            cy as int,
            r as int,
            color,
        )) by {
            assert forall|k: int| 0 <= k < d.len() implies sp_disk_rows(
                d,
                dw,
                cx as int,
                cy as int,
                r as int,
                color,
                r + 1,
            )[k] == sp_fill_disk(d, dw, cx as int, cy as int, r as int, color)[k] by {
                if in_disk(k % dw, k / dw, cx as int, cy as int, r as int) {
                    let dyk = k / dw - cy;
                    if dyk > r {
                        assert(dyk * dyk > r * r) by (nonlinear_arith)
                            requires
                                dyk > r,
                                r >= 0,
                        ;
                        assert((k % dw - cx) * (k % dw - cx) >= 0) by (nonlinear_arith);
                        assert(false);
                    }
                }
            }
        }
    }
}

/// State of a Bresenham line walk.  The accumulated error is kept doubled so
/// that it stays integral: the classic initialisation `error = dx / 2`
/// becomes `error2 = dx`, and each step subtracts `2 * dy`.
#[derive(Debug, PartialEq, Eq, Structural, Clone, Copy)]
pub struct BresenhamLineIter {
    pub dx: i64,
    pub dy: i64,
    pub x: i64,
    pub y: i64,
    pub error2: i64,
    pub end_x: i64,
    pub is_steep: bool,
    pub y_step: i64,
}

/// Field bounds under which a walk never overflows.
pub open spec fn bres_wf(st: BresenhamLineIter) -> bool {
    &&& 0 <= st.dy <= st.dx <= 0x0100_0000
    &&& -0x0200_0000 <= st.x <= 0x0200_0001
    &&& -0x0601_0000 <= st.y <= 0x0601_0000
    &&& (st.x <= st.end_x ==> -0x0600_0000 + (st.end_x - st.x + 1) <= st.y <= 0x0600_0000 - (
    st.end_x - st.x + 1))
    &&& -2 * st.dy <= st.error2 <= 2 * st.dx
    &&& -0x0200_0000 <= st.end_x <= 0x0200_0000
    &&& (st.y_step == 1 || st.y_step == -1)
}

/// Whether the walk has passed its last column.
pub open spec fn bres_done(st: BresenhamLineIter) -> bool {
    st.x > st.end_x
}

/// The point the walk emits in its current state.
pub open spec fn bres_point(st: BresenhamLineIter) -> (int, int) {
    if st.is_steep {
        (st.y as int, st.x as int)
    } else {
        (st.x as int, st.y as int)
    }
}

/// One step of the walk.
pub open spec fn bres_step(st: BresenhamLineIter) -> BresenhamLineIter {
    let e = st.error2 - 2 * st.dy;
    if e < 0 {
        BresenhamLineIter {
            x: (st.x + 1) as i64,
            y: (st.y + st.y_step) as i64,
            error2: (e + 2 * st.dx) as i64,
            ..st
        }
    } else {
        BresenhamLineIter { x: (st.x + 1) as i64, error2: e as i64, ..st }
    }
}

/// The initial walk state for the segment from `start` to `end`.
pub open spec fn bres_init(start: (i32, i32), end: (i32, i32)) -> BresenhamLineIter {
    let steep = abs_int(end.1 - start.1) > abs_int(end.0 - start.0);
    let a0 = if steep {
        (start.1 as int, start.0 as int)
    } else {
        (start.0 as int, start.1 as int)
    };
    let a1 = if steep {
        (end.1 as int, end.0 as int)
    } else {
        (end.0 as int, end.1 as int)
    };
    let b0 = if a0.0 > a1.0 {
        a1
    } else {
        a0
    };
    let b1 = if a0.0 > a1.0 {
        a0
    } else {
        a1
    };
    let dx = b1.0 - b0.0;
    BresenhamLineIter {
        dx: dx as i64,
        dy: abs_int(b1.1 - b0.1) as i64,
        x: b0.0 as i64,
        y: b0.1 as i64,
        error2: dx as i64,
        end_x: b1.0 as i64,
        is_steep: steep,
        y_step: if b0.1 < b1.1 {
            1 as i64
        } else {
            (-1) as i64
        },
    }
}

pub open spec fn abs_int(v: int) -> int {
    if v < 0 {
        -v
    } else {
        v
    }
}

/// The points a walk emits from state `st` until it finishes.
pub open spec fn bres_points(st: BresenhamLineIter) -> Seq<(int, int)>
    decreases
            (if bres_done(st) || !bres_wf(st) {
                0
            } else {
                st.end_x - st.x + 1
            }),
{
    if bres_done(st) || !bres_wf(st) {
        Seq::empty()
    } else {
        seq![bres_point(st)] + bres_points(bres_step(st))
    }
}

impl BresenhamLineIter {
    /// Start a walk over the integer points of the segment from `start` to
    /// `end`.
    pub fn new(start: (i32, i32), end: (i32, i32)) -> (it: BresenhamLineIter)
        requires
            -0x0080_0000 <= start.0 <= 0x0080_0000,
            -0x0080_0000 <= start.1 <= 0x0080_0000,
            -0x0080_0000 <= end.0 <= 0x0080_0000,
            -0x0080_0000 <= end.1 <= 0x0080_0000,
        ensures
            it == bres_init(start, end),
            bres_wf(it),
    {
        let mut x0: i64 = start.0 as i64;
        let mut y0: i64 = start.1 as i64;
        let mut x1: i64 = end.0 as i64;
        let mut y1: i64 = end.1 as i64;
        let ady: i64 = if y1 - y0 < 0 {
            y0 - y1
        } else {
            y1 - y0
        };
        let adx: i64 = if x1 - x0 < 0 {
            x0 - x1
        } else {
            x1 - x0
        };
        let is_steep = ady > adx;
        if is_steep {
            let t = x0;
            x0 = y0;
            y0 = t;
            let t = x1;
            x1 = y1;
            y1 = t;
        }
        if x0 > x1 {
            let t = x0;
            x0 = x1;
            x1 = t;
            let t = y0;
            y0 = y1;
            y1 = t;
        }
        let dx = x1 - x0;
        BresenhamLineIter {
            dx,
            dy: if y1 - y0 < 0 {
                y0 - y1
            } else {
                y1 - y0
            },
            x: x0,
            y: y0,
            error2: dx,
            end_x: x1,
            is_steep,
            y_step: if y0 < y1 {
                1
            } else {
                -1
            },
        }
    }

    /// The next point of the walk, or `None` once the segment is exhausted.
    pub fn next(&mut self) -> (r: Option<(i32, i32)>)
        requires
            bres_wf(*old(self)),
        ensures
            bres_wf(*final(self)),
            bres_done(*old(self)) ==> r is None && *final(self) == *old(self),
            !bres_done(*old(self)) ==> r == Some(
                (
                    (bres_point(*old(self)).0) as i32,
                    (bres_point(*old(self)).1) as i32,
                ),
            ) && *final(self) == bres_step(*old(self)),
    {
        if self.x > self.end_x {
            None
        } else {
            let ret: (i32, i32) = if self.is_steep {
                (self.y as i32, self.x as i32)
            } else {
                (self.x as i32, self.y as i32)
            };
            self.x = self.x + 1;
            self.error2 = self.error2 - 2 * self.dy;
            if self.error2 < 0 {
                self.y = self.y + self.y_step;
                self.error2 = self.error2 + 2 * self.dx;
            }
            Some(ret)
        }
    }
}

/// The buffer after setting each in-bounds point of `pts` to `color`.
pub open spec fn sp_draw_points(
    d: Seq<Rgba>,
    dw: int,
    dh: int,
    pts: Seq<(int, int)>,
    color: Rgba,
) -> Seq<Rgba>
    decreases pts.len(),
{
    if pts.len() == 0 {
        d
    } else {
        let rest = sp_draw_points(d, dw, dh, pts.drop_last(), color);
        let p = pts.last();
        if 0 <= p.0 < dw && 0 <= p.1 < dh {
            rest.update(p.1 * dw + p.0, color)
        } else {
            rest
        }
    }
}

/// Draw as much of the line segment between `start` and `end` as lies inside
/// the canvas bounds, one Bresenham point at a time.
pub fn draw_line_segment_mut(canvas: &mut Canvas, start: (i32, i32), end: (i32, i32), color: Rgba)
    requires
        old(canvas).wf(),
        old(canvas).spec_width() <= 0x0100_0000,
        old(canvas).spec_height() <= 0x0100_0000,
        -0x0080_0000 <= start.0 <= 0x0080_0000,
        -0x0080_0000 <= start.1 <= 0x0080_0000,
        -0x0080_0000 <= end.0 <= 0x0080_0000,
        -0x0080_0000 <= end.1 <= 0x0080_0000,
    ensures
        final(canvas).wf(),
        final(canvas).spec_width() == old(canvas).spec_width(),
        final(canvas).spec_height() == old(canvas).spec_height(),
        final(canvas)@ == sp_draw_points(
            old(canvas)@,
            old(canvas).spec_width() as int,
            old(canvas).spec_height() as int,
            bres_points(bres_init(start, end)),
            color,
        ),
{
    let ghost d = canvas@;
    let ghost dw = canvas.spec_width() as int;
    let ghost dh = canvas.spec_height() as int;
    let w = canvas.width();
    let h = canvas.height();
    let mut it = BresenhamLineIter::new(start, end);
    let ghost all = bres_points(bres_init(start, end));
    let ghost mut emitted: Seq<(int, int)> = Seq::empty();
    proof {
        assert(emitted + bres_points(it) =~= all);
        assert(canvas@ =~= sp_draw_points(d, dw, dh, emitted, color));
    }
    loop
        invariant
            bres_wf(it),
            canvas.wf(),
            canvas.spec_width() == old(canvas).spec_width(),
            canvas.spec_height() == old(canvas).spec_height(),
            d == old(canvas)@,
            dw == old(canvas).spec_width() as int,
            dh == old(canvas).spec_height() as int,
            w == old(canvas).spec_width(),
            h == old(canvas).spec_height(),
            w <= 0x0100_0000,
            h <= 0x0100_0000,
            all == bres_points(bres_init(start, end)),
            emitted + bres_points(it) == all,
            canvas@ == sp_draw_points(d, dw, dh, emitted, color),
        ensures
            canvas@ == sp_draw_points(d, dw, dh, all, color),
            canvas.wf(),
            canvas.spec_width() == old(canvas).spec_width(),
            canvas.spec_height() == old(canvas).spec_height(),
        decreases
                (if bres_done(it) {
                    0
                } else {
                    it.end_x - it.x + 1
                }),
    {
        let ghost pre = it;
        match it.next() {
            None => {
                proof {
                    assert(bres_points(pre) =~= Seq::<(int, int)>::empty());
                    assert(emitted =~= all);
                }
                break ;
            },
            Some(p) => {
                proof {
                    assert(bres_points(pre) == seq![bres_point(pre)] + bres_points(bres_step(pre)));
                }
                let ghost emitted2 = emitted.push(bres_point(pre));
                proof {
                    assert(-0x0601_0000 <= bres_point(pre).0 <= 0x0601_0000);
                    assert(-0x0601_0000 <= bres_point(pre).1 <= 0x0601_0000);
                    assert(p.0 as int == bres_point(pre).0);
                    assert(p.1 as int == bres_point(pre).1);
                }
                if 0 <= p.0 && p.0 < w as i32 && 0 <= p.1 && p.1 < h as i32 {
                    proof {
                        canvas.lemma_index_in_bounds(p.0 as int, p.1 as int);
                    }
                    canvas.put_pixel(p.0 as u32, p.1 as u32, color);
                    proof {
                        assert(canvas@ == sp_draw_points(d, dw, dh, emitted, color).update(
                            bres_point(pre).1 * dw + bres_point(pre).0, color));
                    }
                } else {
                    proof {
                        assert(canvas@ == sp_draw_points(d, dw, dh, emitted, color));
                        assert(!(0 <= bres_point(pre).0 < dw && 0 <= bres_point(pre).1 < dh));
                    }
                }
                proof {
                    assert(emitted2.drop_last() =~= emitted);
                    assert(emitted2.last() == bres_point(pre));
                    assert(emitted2.len() > 0);
                    assert(sp_draw_points(d, dw, dh, emitted2, color) == (
                        if 0 <= bres_point(pre).0 < dw && 0 <= bres_point(pre).1 < dh {
                            sp_draw_points(d, dw, dh, emitted, color).update(
                                bres_point(pre).1 * dw + bres_point(pre).0, color)
                        } else {
                            sp_draw_points(d, dw, dh, emitted, color)
                        }));
                    assert(canvas@ =~= sp_draw_points(d, dw, dh, emitted2, color));
                    assert(emitted2 + bres_points(it) =~= emitted + bres_points(pre));
                    emitted = emitted2;
                }
            },
        }
    }
}

} // verus!
