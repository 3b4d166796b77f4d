//! Color parsing and the compositing utilities around the raster pipeline.

use crate::canvas::Canvas;
use crate::canvas::Rgba;
use crate::canvas::sp_crop;
use crate::canvas::sp_paste_alpha;
use crate::canvas::sp_paste_over;
use crate::blur::sp_gaussian;
use crate::blur::gaussian_blur;
use crate::error::ParseColorError;
use crate::imageproc::Rect;
use crate::imageproc::draw_filled_circle_mut;
use crate::imageproc::draw_filled_rect_mut;
use crate::imageproc::sp_fill_disk;
use crate::imageproc::sp_fill_region;
use crate::scale::resize_canvas;
use crate::scale::sp_resized;
use vstd::prelude::*;
use vstd::string::StringSliceAdditionalSpecFns;

verus! {

/// Conversion of a value into an RGBA color.
pub trait ToRgba {
    type Target;

    fn to_rgba(&self) -> Self::Target;
}

/// Whether byte `b` is an ASCII hexadecimal digit.
pub open spec fn is_hex_digit(b: u8) -> bool {
    (48 <= b <= 57) || (97 <= b <= 102) || (65 <= b <= 70)
}

/// Numeric value of the ASCII hexadecimal digit `b`.
pub open spec fn hex_digit_value(b: u8) -> int {
    if 48 <= b <= 57 {
        b - 48
    } else if 97 <= b <= 102 {
        b - 87
    } else {
        b - 55
    }
}

pub open spec fn all_hex_digits(s: Seq<u8>) -> bool {
    forall|i: int| 0 <= i < s.len() ==> is_hex_digit(#[trigger] s[i])
}

/// The number written by the hexadecimal digits `s`, most significant first.
pub open spec fn hex_value(s: Seq<u8>) -> int
    decreases s.len(),
{
    if s.len() == 0 {
        0
    } else {
        16 * hex_value(s.drop_last()) + hex_digit_value(s.last())
    }
}

proof fn lemma_hex_value_nonneg(s: Seq<u8>)
    requires
        all_hex_digits(s),
    ensures
        hex_value(s) >= 0,
    decreases s.len(),
{
    if s.len() > 0 {
        assert(all_hex_digits(s.drop_last()));
        lemma_hex_value_nonneg(s.drop_last());
    }
}

/// The value of a prefix of a digit string never exceeds the whole.
proof fn lemma_hex_prefix_le(s: Seq<u8>, j: int)
    requires
        all_hex_digits(s),
        0 <= j <= s.len(),
    ensures
        0 <= hex_value(s.take(j)) <= hex_value(s),
    decreases s.len() - j,
{
    if j == s.len() {
        assert(s.take(j) =~= s);
        lemma_hex_value_nonneg(s);
    } else {
        let t = s.drop_last();
        assert(all_hex_digits(t));
        assert(s.take(j) =~= t.take(j));
        lemma_hex_prefix_le(t, j);
        lemma_hex_value_nonneg(t);
    }
}

/// A four-bit value spread over both nibbles of a byte, as in `#RGB` colors.
pub open spec fn widen_nibble(v: int) -> u8 {
    (17 * v) as u8
}

/// What parsing a `#`-prefixed hexadecimal color string yields: `#RGB`,
/// `#RGBA`, `#RRGGBB` and `#RRGGBBAA` forms are accepted; a missing `#`, a
/// non-digit, or a value beyond 32 bits is an invalid digit, and any other
/// length an invalid length.
pub open spec fn spec_to_rgba(s: Seq<u8>) -> Result<Rgba, ParseColorError> {
    if s.len() == 0 || s[0] != 35 {
        Err(ParseColorError::InvalidDigit)
    } else if s.len() == 1 || !all_hex_digits(s.skip(1)) {
        Err(ParseColorError::InvalidDigit)
    } else if hex_value(s.skip(1)) > u32::MAX {
        Err(ParseColorError::InvalidDigit)
    } else {
        let v = hex_value(s.skip(1));
        if s.len() == 4 {
            Ok(Rgba {
                r: widen_nibble((v / 256) % 16),
                g: widen_nibble((v / 16) % 16),
                b: widen_nibble(v % 16),
                a: 255,
            })
        } else if s.len() == 5 {
            Ok(Rgba {
                r: widen_nibble((v / 4096) % 16),
                g: widen_nibble((v / 256) % 16),
                b: widen_nibble((v / 16) % 16),
                a: widen_nibble(v % 16),
            })
        } else if s.len() == 7 {
            Ok(Rgba {
                r: ((v / 65536) % 256) as u8,
                g: ((v / 256) % 256) as u8,
                b: (v % 256) as u8,
                a: 255,
            })
        } else if s.len() == 9 {
            Ok(Rgba {
                r: ((v / 16777216) % 256) as u8,
                g: ((v / 65536) % 256) as u8,
                b: ((v / 256) % 256) as u8,
                a: (v % 256) as u8,
            })
        } else {
            Err(ParseColorError::InvalidLength)
        }
    }
}

/// Numeric value of one hexadecimal digit byte, or `None` for any other byte.
fn hex_digit(b: u8) -> (r: Option<u8>)
    ensures
        r is Some <==> is_hex_digit(b),
        r is Some ==> r->0 == hex_digit_value(b),
{
    if 48 <= b && b <= 57 {
        Some(b - 48)
    } else if 97 <= b && b <= 102 {
        Some(b - 87)
    } else if 65 <= b && b <= 70 {
        Some(b - 55)
    } else {
        None
    }
}

/// Parse a hex color from its raw bytes.
pub fn parse_color_bytes(s: &[u8]) -> (r: Result<Rgba, ParseColorError>)
    requires
        s@.len() >= 1,
    ensures
        r == spec_to_rgba(s@),
{
    let len: usize = s.len();
    if s[0] != 35 {
        return Err(ParseColorError::InvalidDigit);
    }
    if len == 1 {
        return Err(ParseColorError::InvalidDigit);
    }
    let ghost digits = s@.skip(1);
    let mut acc: u64 = 0;
    let mut i: usize = 1;
    while i < len
        invariant
            1 <= i <= len,
            len == s@.len(),
            digits == s@.skip(1),
            all_hex_digits(digits.take(i - 1)),
            acc == hex_value(digits.take(i - 1)),
            acc <= u32::MAX,
        decreases len - i,
    {
        let b = s[i];
        proof {
            assert(digits[i - 1] == s@[i as int]);
        }
        match hex_digit(b) {
            None => {
                proof {
                    assert(!is_hex_digit(digits[i - 1]));
                    assert(!all_hex_digits(digits));
                }
                return Err(ParseColorError::InvalidDigit);
            },
            Some(v) => {
                let next: u64 = acc * 16 + (v as u64);
                proof {
                    assert(digits.take(i as int) =~= digits.take(i - 1).push(digits[i - 1]));
                    assert(digits.take(i as int).drop_last() =~= digits.take(i - 1));
                    assert(all_hex_digits(digits.take(i as int)));
                    assert(hex_value(digits.take(i as int)) == 16 * acc + hex_digit_value(
                        digits[i - 1],
                    ));
                }
                if next > 0xFFFF_FFFF {
                    proof {
                        if all_hex_digits(digits) {
                            lemma_hex_prefix_le(digits, i as int);
                            assert(hex_value(digits) > u32::MAX);
                        }
                    }
                    return Err(ParseColorError::InvalidDigit);
                }
                acc = next;
                i = i + 1;
            },
        }
    }
    proof {
        assert(digits.take(len - 1) =~= digits);
    }
    let v: u32 = acc as u32;
    if len == 4 {
        let r: u8 = ((v / 256) % 16) as u8;
        let g: u8 = ((v / 16) % 16) as u8;
        let b: u8 = (v % 16) as u8;
        Ok(Rgba { r: 17 * r, g: 17 * g, b: 17 * b, a: 255 })
    } else if len == 5 {
        let r: u8 = ((v / 4096) % 16) as u8;
        let g: u8 = ((v / 256) % 16) as u8;
        let b: u8 = ((v / 16) % 16) as u8;
        let a: u8 = (v % 16) as u8;
        Ok(Rgba { r: 17 * r, g: 17 * g, b: 17 * b, a: 17 * a })
    } else if len == 7 {
        Ok(Rgba {
            r: ((v / 65536) % 256) as u8,
            g: ((v / 256) % 256) as u8,
            b: (v % 256) as u8,
            a: 255,
        })
    } else if len == 9 {
        Ok(Rgba {
            r: ((v / 16777216) % 256) as u8,
            g: ((v / 65536) % 256) as u8,
            b: ((v / 256) % 256) as u8,
            a: (v % 256) as u8,
        })
    } else {
        Err(ParseColorError::InvalidLength)
    }
}

impl ToRgba for str {
    type Target = Result<Rgba, ParseColorError>;

    /// Parse a hex color string of the form `#RGB`, `#RGBA`, `#RRGGBB` or
    /// `#RRGGBBAA`; an empty string is an invalid digit.
    fn to_rgba(&self) -> Self::Target {
        let bytes = self.as_bytes();
        if bytes.len() == 0 {
            return Err(ParseColorError::InvalidDigit);
        }
        parse_color_bytes(bytes)
    }
}

/// Parse a hex color string.
pub fn parse_str_color(s: &str) -> (r: Result<Rgba, ParseColorError>)
    ensures
        r == (if s.spec_bytes().len() == 0 {
            Err::<Rgba, ParseColorError>(ParseColorError::InvalidDigit)
        } else {
            spec_to_rgba(s.spec_bytes())
        }),
{
    let bytes = s.as_bytes();
    if bytes.len() == 0 {
        return Err(ParseColorError::InvalidDigit);
    }
    parse_color_bytes(bytes)
}


/// Alpha-composite `src` onto `dst` at offset (`x`, `y`), taking the source
/// alpha channel into account pixel by pixel.
pub fn copy_alpha(src: &Canvas, dst: &mut Canvas, x: u32, y: u32)
    requires
        src.wf(),
        old(dst).wf(),
        x + src.spec_width() <= old(dst).spec_width(),
        y + src.spec_height() <= old(dst).spec_height(),
    ensures
        final(dst).wf(),
        final(dst).spec_width() == old(dst).spec_width(),
        final(dst).spec_height() == old(dst).spec_height(),
        final(dst)@ == sp_paste_alpha(
            old(dst)@,
            old(dst).spec_width() as int,
            src@,
            src.spec_width() as int,
            src.spec_height() as int,
            x as int,
            y as int,
        ),
{
    dst.paste(src, x, y, true);
}

/// Geometry of the window-control dots: the title-bar strip they live in,
/// its padding, and the dot radius.
#[derive(Debug, PartialEq, Eq, Structural, Clone, Copy)]
pub struct WindowControlsParams {
    pub width: u32,
    pub height: u32,
    pub padding: u32,
    pub radius: u32,
}

/// The three dot colors with their darker outlines.
pub open spec fn wc_fill(i: int) -> Rgba {
    if i == 0 {
        Rgba { r: 0xFF, g: 0x5F, b: 0x56, a: 0xFF }
    } else if i == 1 {
        Rgba { r: 0xFF, g: 0xBD, b: 0x2E, a: 0xFF }
    } else {
        Rgba { r: 0x27, g: 0xC9, b: 0x3F, a: 0xFF }
    }
}

pub open spec fn wc_outline(i: int) -> Rgba {
    if i == 0 {
        Rgba { r: 0xE0, g: 0x44, b: 0x3E, a: 0xFF }
    } else if i == 1 {
        Rgba { r: 0xDE, g: 0xA1, b: 0x23, a: 0xFF }
    } else {
        Rgba { r: 0x1A, g: 0xAB, b: 0x29, a: 0xFF }
    }
}

/// One dot and its outline drawn onto the supersampled strip.
pub open spec fn sp_wc_dot(bar: Seq<Rgba>, p: WindowControlsParams, i: int) -> Seq<Rgba> {
    let w3 = 3 * p.width as int;
    let cx3 = 3 * (i * 4 * p.radius + 2 * p.radius);
    let cy3 = 3 * (p.height as int / 2);
    sp_fill_disk(
        sp_fill_disk(bar, w3, cx3, cy3, 3 * (p.radius + 1), wc_outline(i)),
        w3,
        cx3,
        cy3,
        3 * p.radius as int,
        wc_fill(i),
    )
}

/// The first `n` dots drawn in order.
pub open spec fn sp_wc_dots(bar: Seq<Rgba>, p: WindowControlsParams, n: int) -> Seq<Rgba>
    decreases n,
{
    if n <= 0 {
        bar
    } else {
        sp_wc_dot(sp_wc_dots(bar, p, n - 1), p, n - 1)
    }
}

/// The buffer after painting the window controls: a strip is drawn at three
/// times the target size over the transparent background color sampled at
/// (37, 37), smoothed by Triangle downsampling, and alpha-composited at the
/// padding offset.
pub open spec fn sp_window_controls(d: Seq<Rgba>, dw: int, p: WindowControlsParams) -> Seq<Rgba> {
    let bg0 = d[37 * dw + 37];
    let bg = Rgba { r: bg0.r, g: bg0.g, b: bg0.b, a: 0 };
    let w3 = 3 * p.width as int;
    let h3 = 3 * p.height as int;
    let bar0 = Seq::new((w3 * h3) as nat, |k: int| bg);
    let bar = sp_wc_dots(bar0, p, 3);
    let strip = sp_resized(bar, w3, h3, p.width as int, p.height as int);
    sp_paste_alpha(d, dw, strip, p.width as int, p.height as int, p.padding as int, p.padding as int)
}

/// Draw the three window-control dots onto the image.
#[verifier::rlimit(50)]
pub fn add_window_controls(image: &mut Canvas, params: &WindowControlsParams)
    requires
        old(image).wf(),
        old(image).spec_width() >= 38,
        old(image).spec_height() >= 38,
        old(image).spec_width() <= 0x0100_0000,
        old(image).spec_height() <= 0x0100_0000,
        1 <= params.width <= 0x1000,
        1 <= params.height <= 0x1000,
        params.radius <= 0x400,
        params.padding + params.width <= old(image).spec_width(),
        params.padding + params.height <= old(image).spec_height(),
    ensures
        final(image).wf(),
        final(image).spec_width() == old(image).spec_width(),
        final(image).spec_height() == old(image).spec_height(),
        final(image)@ == sp_window_controls(
            old(image)@,
            old(image).spec_width() as int,
            *params,
        ),
{
    let ghost d = image@;
    let ghost dw = image.spec_width() as int;
    let mut background = image.get_pixel(37, 37);
    background.a = 0;
    proof {
        image.lemma_index_in_bounds(37, 37);
    }
    let w3: u32 = 3 * params.width;
    let h3: u32 = 3 * params.height;
    proof {
        assert(w3 as int * h3 as int <= 0x0900_0000) by (nonlinear_arith)
            requires
                w3 <= 0x3000,
                h3 <= 0x3000,
        ;
    }
    let mut title_bar = Canvas::from_pixel(w3, h3, background);
    let ghost bar0 = Seq::new((3 * params.width as int * (3 * params.height as int)) as nat,
        |k: int| background);
    proof {
        assert(title_bar@ =~= bar0);
        assert(title_bar@ == sp_wc_dots(bar0, *params, 0));
    }
    let step: i32 = (params.radius as i32) * 2;
    let spacer: i32 = step * 2;
    let center_y: i32 = (params.height / 2) as i32;
    let mut i: i32 = 0;
    while i < 3
        invariant
            0 <= i <= 3,
            1 <= params.width <= 0x1000,
            1 <= params.height <= 0x1000,
            params.radius <= 0x400,
            step == 2 * params.radius,
            spacer == 4 * params.radius,
            center_y == params.height as int / 2,
            w3 == 3 * params.width,
            h3 == 3 * params.height,
            title_bar.wf(),
            title_bar.spec_width() == w3,
            title_bar.spec_height() == h3,
            bar0 == Seq::new((3 * params.width as int * (3 * params.height as int)) as nat,
                |k: int| background),
            title_bar@ == sp_wc_dots(bar0, *params, i as int),
        decreases 3 - i,
    {
        let fill: Rgba = if i == 0 {
            Rgba { r: 0xFF, g: 0x5F, b: 0x56, a: 0xFF }
        } else if i == 1 {
            Rgba { r: 0xFF, g: 0xBD, b: 0x2E, a: 0xFF }
        } else {
            Rgba { r: 0x27, g: 0xC9, b: 0x3F, a: 0xFF }
        };
        let outline: Rgba = if i == 0 {
            Rgba { r: 0xE0, g: 0x44, b: 0x3E, a: 0xFF }
        } else if i == 1 {
            Rgba { r: 0xDE, g: 0xA1, b: 0x23, a: 0xFF }
        } else {
            Rgba { r: 0x1A, g: 0xAB, b: 0x29, a: 0xFF }
        };
        proof {
            assert(fill == wc_fill(i as int));
            assert(outline == wc_outline(i as int));
            assert(i * spacer <= 2 * 0x1000) by (nonlinear_arith)
                requires
                    0 <= i <= 2,
                    0 <= spacer <= 0x1000,
            ;
            assert(i * spacer >= 0) by (nonlinear_arith)
                requires
                    0 <= i,
                    0 <= spacer,
            ;
        }
        let cx3: i32 = (i * spacer + step) * 3;
        let cy3: i32 = center_y * 3;
        proof {
            assert(cx3 as int == 3 * (i as int * 4 * params.radius + 2 * params.radius))
                by (nonlinear_arith)
                requires
                    cx3 == (i * spacer + step) * 3,
                    spacer == 4 * params.radius,
                    step == 2 * params.radius,
            ;
        }
        draw_filled_circle_mut(&mut title_bar, (cx3, cy3), (params.radius as i32 + 1) * 3, outline);
        draw_filled_circle_mut(&mut title_bar, (cx3, cy3), (params.radius as i32) * 3, fill);
        proof {
            assert(title_bar@ == sp_wc_dot(sp_wc_dots(bar0, *params, i as int), *params, i as int));
            assert(sp_wc_dots(bar0, *params, i + 1) == sp_wc_dot(
                sp_wc_dots(bar0, *params, i as int),
                *params,
                i as int,
            ));
        }
        i = i + 1;
    }
    // downscale the supersampled strip to smooth the dot edges
    proof {
        assert(4 * params.width as int * params.height as int <= 0x0400_0000) by (nonlinear_arith)
            requires
                params.width <= 0x1000,
                params.height <= 0x1000,
        ;
        assert(16 * w3 as int * params.height as int <= 0x3000_0000) by (nonlinear_arith)
            requires
                w3 <= 0x3000,
                params.height <= 0x1000,
        ;
        assert(16 * params.width as int * params.height as int <= 0x1000_0000)
            by (nonlinear_arith)
            requires
                params.width <= 0x1000,
                params.height <= 0x1000,
        ;
    }
    let title_bar = resize_canvas(&title_bar, params.width, params.height);
    copy_alpha(&title_bar, image, params.padding, params.padding);
    proof {
        assert(bar0 =~= Seq::new((3 * params.width as int * (3 * params.height as int)) as nat,
            |k: int| (Rgba { r: d[37 * dw + 37].r, g: d[37 * dw + 37].g, b: d[37 * dw + 37].b,
                a: 0 })));
    }
}

/// The buffer after rounding its corners: a supersampled disk in the color
/// of the bottom-right pixel is smoothed by Triangle downsampling, and its
/// four quadrants replace the four corners of the image.
pub open spec fn sp_round_corner(d: Seq<Rgba>, dw: int, dh: int, r: int) -> Seq<Rgba> {
    let fg = d[(dh - 1) * dw + (dw - 1)];
    let side0 = 4 * (r + 1);
    let side1 = 2 * (r + 1);
    let c0 = Seq::new((side0 * side0) as nat, |k: int| (Rgba { r: 255, g: 255, b: 255, a: 0 }));
    let c1 = sp_fill_disk(c0, side0, side1, side1, 2 * r, fg);
    let circ = sp_resized(c1, side0, side0, side1, side1);
    let d1 = sp_paste_over(d, dw, sp_crop(circ, side1, 1, 1, r, r), r, r, 0, 0);
    let d2 = sp_paste_over(d1, dw, sp_crop(circ, side1, r + 1, 1, r, r - 1), r, r - 1, dw - r, 0);
    let d3 = sp_paste_over(d2, dw, sp_crop(circ, side1, 1, r + 1, r, r), r, r, 0, dh - r);
    sp_paste_over(d3, dw, sp_crop(circ, side1, r + 1, r + 1, r, r), r, r, dw - r, dh - r)
}

/// Round the four corners of the image in place, using its own bottom-right
/// pixel as the corner color.
#[verifier::rlimit(50)]
pub fn round_corner(image: &mut Canvas, radius: u32)
    requires
        old(image).wf(),
        1 <= radius <= 0x400,
        old(image).spec_width() >= radius,
        old(image).spec_height() >= radius,
        old(image).spec_width() >= 1,
        old(image).spec_height() >= 1,
    ensures
        final(image).wf(),
        final(image).spec_width() == old(image).spec_width(),
        final(image).spec_height() == old(image).spec_height(),
        final(image)@ == sp_round_corner(
            old(image)@,
            old(image).spec_width() as int,
            old(image).spec_height() as int,
            radius as int,
        ),
{
    let w = image.width();
    let h = image.height();
    let side0: u32 = (radius + 1) * 4;
    let side1: u32 = (radius + 1) * 2;
    proof {
        assert(side0 as int * side0 as int <= 0x0101_0010) by (nonlinear_arith)
            requires
                side0 <= 0x1004,
        ;
        assert(4 * side1 as int * side1 as int <= 0x0101_0010) by (nonlinear_arith)
            requires
                side1 <= 0x802,
        ;
        assert(16 * side0 as int * side1 as int <= 0x0808_0800) by (nonlinear_arith)
            requires
                side0 <= 0x1004,
                side1 <= 0x802,
        ;
        assert(16 * side1 as int * side1 as int <= 0x0404_0400) by (nonlinear_arith)
            requires
                side1 <= 0x802,
        ;
    }
    let mut circle = Canvas::from_pixel(side0, side0, Rgba { r: 255, g: 255, b: 255, a: 0 });
    let foreground = image.get_pixel(w - 1, h - 1);
    proof {
        image.lemma_index_in_bounds(w - 1, h - 1);
    }
    draw_filled_circle_mut(
        &mut circle,
        (side1 as i32, side1 as i32),
        radius as i32 * 2,
        foreground,
    );
    // downscale the supersampled disk to smooth its edge
    let circle = resize_canvas(&circle, side1, side1);
    let part = circle.crop(1, 1, radius, radius);
    image.copy_from(&part, 0, 0);
    let part = circle.crop(radius + 1, 1, radius, radius - 1);
    image.copy_from(&part, w - radius, 0);
    let part = circle.crop(1, radius + 1, radius, radius);
    image.copy_from(&part, 0, h - radius);
    let part = circle.crop(radius + 1, radius + 1, radius, radius);
    image.copy_from(&part, w - radius, h - radius);
}

/// The backdrop behind a shadowed image: a solid color, or a backdrop image
/// resized to fit.
#[derive(Debug, Clone)]
pub enum Background {
    Solid(Rgba),
    Image(Canvas),
}

/// The backdrop's shape invariant.
pub open spec fn background_wf(bg: Background) -> bool {
    match bg {
        Background::Solid(_) => true,
        Background::Image(img) => img.wf() && img.spec_width() <= 0x2000 && img.spec_height()
            <= 0x2000 && img.spec_width() >= 1 && img.spec_height() >= 1,
    }
}

/// The backdrop rendered at `w` x `h`.
pub open spec fn sp_background(bg: Background, w: int, h: int) -> Seq<Rgba> {
    match bg {
        Background::Solid(color) => Seq::new((w * h) as nat, |k: int| color),
        Background::Image(img) => sp_resized(
            img@,
            img.spec_width() as int,
            img.spec_height() as int,
            w,
            h,
        ),
    }
}

impl Background {
    /// Render the backdrop at the given size.
    pub fn to_image(&self, width: u32, height: u32) -> (out: Canvas)
        requires
            background_wf(*self),
            width <= 0x0100_0000,
            height <= 0x0100_0000,
            width as int * height as int <= usize::MAX,
            (*self is Image) ==> 16 * width as int * height as int <= usize::MAX && 16 * 0x2000
                * height as int <= usize::MAX,
        ensures
            out.wf(),
            out.spec_width() == width,
            out.spec_height() == height,
            out@ == sp_background(*self, width as int, height as int),
    {
        match self {
            Background::Solid(color) => { Canvas::from_pixel(width, height, *color) },
            Background::Image(img) => {
                proof {
                    assert(4 * width as int * height as int <= 16 * width as int
                        * height as int) by (nonlinear_arith)
                        requires
                            width >= 0,
                            height >= 0,
                    ;
                    assert(16 * img.spec_width() as int * height as int <= 16 * 0x2000
                        * height as int) by (nonlinear_arith)
                        requires
                            img.spec_width() <= 0x2000,
                            height >= 0,
                    ;
                }
                resize_canvas(img, width, height)
            },
        }
    }
}

impl Default for Background {
    /// The default backdrop: a solid light blue-grey.
    fn default() -> (r: Self)
        ensures
            r == Background::Solid(Rgba { r: 0xab, g: 0xb8, b: 0xc3, a: 0xff }),
    {
        Background::Solid(Rgba { r: 0xab, g: 0xb8, b: 0xc3, a: 0xff })
    }
}

/// Adds a drop shadow: the image is placed on an enlarged backdrop on which
/// a blurred rectangle of the shadow color has been painted.
#[derive(Debug, Clone)]
pub struct ShadowAdder {
    pub background: Background,
    pub shadow_color: Rgba,
    pub blur_radius: u32,
    pub pad_horiz: u32,
    pub pad_vert: u32,
    pub offset_x: i32,
    pub offset_y: i32,
}

/// Bounds under which a shadow can be applied without overflow.
pub open spec fn shadow_adder_wf(s: ShadowAdder) -> bool {
    &&& background_wf(s.background)
    &&& s.blur_radius <= 0x0010_0000
    &&& s.pad_horiz <= 0x400
    &&& s.pad_vert <= 0x400
    &&& -0x1000 <= s.offset_x <= 0x1000
    &&& -0x1000 <= s.offset_y <= 0x1000
}

/// The shadowed image: backdrop, blurred shadow rectangle, then the image
/// itself composited at the padding offset.
pub open spec fn sp_apply_shadow(d: Seq<Rgba>, w: int, h: int, s: ShadowAdder) -> Seq<Rgba> {
    let nw = w + 2 * s.pad_horiz;
    let nh = h + 2 * s.pad_vert;
    let backdrop = sp_background(s.background, nw, nh);
    let shadowed = if s.blur_radius > 0 {
        let rx = s.pad_horiz + s.offset_x;
        let ry = s.pad_vert + s.offset_y;
        let painted = sp_fill_region(
            backdrop,
            nw,
            if rx >= 0 { rx } else { 0 },
            if rx + w <= nw { rx + w } else { nw },
            if ry >= 0 { ry } else { 0 },
            if ry + h <= nh { ry + h } else { nh },
            s.shadow_color,
        );
        sp_gaussian(painted, nw, nh, s.blur_radius as int)
    } else {
        backdrop
    };
    sp_paste_alpha(shadowed, nw, d, w, h, s.pad_horiz as int, s.pad_vert as int)
}

impl ShadowAdder {
    /// A shadow adder with the default backdrop, a soft grey shadow, and
    /// generous padding.
    pub fn new() -> (r: Self)
        ensures
            r.background == Background::Solid(Rgba { r: 0xab, g: 0xb8, b: 0xc3, a: 0xff }),
            r.shadow_color == (Rgba { r: 0x70, g: 0x70, b: 0x70, a: 0xff }),
            r.blur_radius == 50,
            r.pad_horiz == 80,
            r.pad_vert == 100,
            r.offset_x == 0,
            r.offset_y == 0,
            shadow_adder_wf(r),
    {
        ShadowAdder {
            background: Background::Solid(Rgba { r: 0xab, g: 0xb8, b: 0xc3, a: 0xff }),
            shadow_color: Rgba { r: 0x70, g: 0x70, b: 0x70, a: 0xff },
            blur_radius: 50,
            pad_horiz: 80,
            pad_vert: 100,
            offset_x: 0,
            offset_y: 0,
        }
    }

    /// Set the backdrop.
    pub fn background(self, bg: Background) -> (r: Self)
        ensures
            r == (ShadowAdder { background: bg, ..self }),
    {
        ShadowAdder { background: bg, ..self }
    }

    /// Set the shadow color.
    pub fn shadow_color(self, color: Rgba) -> (r: Self)
        ensures
            r == (ShadowAdder { shadow_color: color, ..self }),
    {
        ShadowAdder { shadow_color: color, ..self }
    }

    /// Set the blur deviation of the shadow; zero hides it.
    pub fn blur_radius(self, sigma: u32) -> (r: Self)
        ensures
            r == (ShadowAdder { blur_radius: sigma, ..self }),
    {
        ShadowAdder { blur_radius: sigma, ..self }
    }

    /// Set the horizontal padding around the image.
    pub fn pad_horiz(self, pad: u32) -> (r: Self)
        ensures
            r == (ShadowAdder { pad_horiz: pad, ..self }),
    {
        ShadowAdder { pad_horiz: pad, ..self }
    }

    /// Set the vertical padding around the image.
    pub fn pad_vert(self, pad: u32) -> (r: Self)
        ensures
            r == (ShadowAdder { pad_vert: pad, ..self }),
    {
        ShadowAdder { pad_vert: pad, ..self }
    }

    /// Set the horizontal shadow offset.
    pub fn offset_x(self, offset: i32) -> (r: Self)
        ensures
            r == (ShadowAdder { offset_x: offset, ..self }),
    {
        ShadowAdder { offset_x: offset, ..self }
    }

    /// Set the vertical shadow offset.
    pub fn offset_y(self, offset: i32) -> (r: Self)
        ensures
            r == (ShadowAdder { offset_y: offset, ..self }),
    {
        ShadowAdder { offset_y: offset, ..self }
    }

    /// Apply the shadow: pad the canvas, paint and blur the shadow
    /// rectangle, and composite the original image on top.
    pub fn apply_to(&self, image: &Canvas) -> (out: Canvas)
        requires
            image.wf(),
            shadow_adder_wf(*self),
            1 <= image.spec_width(),
            1 <= image.spec_height(),
            image.spec_width() + 2 * self.pad_horiz <= 0x0100_0000,
            image.spec_height() + 2 * self.pad_vert <= 0x0100_0000,
            (image.spec_width() + 2 * self.pad_horiz) * (image.spec_height() + 2 * self.pad_vert)
                <= usize::MAX,
            (self.background is Image) ==> 16 * (image.spec_width() + 2 * self.pad_horiz) * (
            image.spec_height() + 2 * self.pad_vert) <= usize::MAX && 16 * 0x2000 * (
            image.spec_height() + 2 * self.pad_vert) <= usize::MAX,
        ensures
            out.wf(),
            out.spec_width() == image.spec_width() + 2 * self.pad_horiz,
            out.spec_height() == image.spec_height() + 2 * self.pad_vert,
            out@ == sp_apply_shadow(
                image@,
                image.spec_width() as int,
                image.spec_height() as int,
                *self,
            ),
    {
        let width: u32 = image.width() + self.pad_horiz * 2;
        let height: u32 = image.height() + self.pad_vert * 2;
        let mut shadow = self.background.to_image(width, height);
        if self.blur_radius > 0 {
            let rect = Rect::at(
                self.pad_horiz as i32 + self.offset_x,
                self.pad_vert as i32 + self.offset_y,
            ).of_size(image.width(), image.height());
            draw_filled_rect_mut(&mut shadow, rect, self.shadow_color);
            shadow = gaussian_blur(shadow, self.blur_radius);
        }
        copy_alpha(image, &mut shadow, self.pad_horiz, self.pad_vert);
        shadow
    }
}

impl Default for ShadowAdder {
    fn default() -> (r: Self)
        ensures
            r.background == Background::Solid(Rgba { r: 0xab, g: 0xb8, b: 0xc3, a: 0xff }),
            r.shadow_color == (Rgba { r: 0x70, g: 0x70, b: 0x70, a: 0xff }),
            r.blur_radius == 50,
            r.pad_horiz == 80,
            r.pad_vert == 100,
            r.offset_x == 0,
            r.offset_y == 0,
            shadow_adder_wf(r),
    {
        ShadowAdder::new()
    }
}

} // verus!
