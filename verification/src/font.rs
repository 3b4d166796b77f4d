//! The font model and the text layout engine.
//!
//! Font discovery, shaping and rasterization belong to an external font
//! subsystem; the layout engine works on plain integer metrics: ascent,
//! descent and advance widths in font units, and a pixel size.  Text renders
//! one glyph per character with a fixed per-character advance, ASCII and
//! non-ASCII characters may carry different advances (a monospace primary
//! font and a wide secondary font), and a character without ink contributes
//! advance but no pixels.

use crate::canvas::Canvas;
use crate::canvas::Rgba;
use crate::imageproc::Rect;
use crate::imageproc::draw_filled_rect_mut;
use crate::imageproc::sp_fill_region;
use vstd::prelude::*;

verus! {

/// Style of a font face.
#[derive(Copy, Clone, Debug, Eq, PartialEq, Structural, Hash)]
pub enum FontStyle {
    REGULAR,
    ITALIC,
    BOLD,
    BOLDITALIC,
}

impl FontStyle {
    /// The total mapping from highlighter style flags to a font style.
    pub fn from_flags(bold: bool, italic: bool) -> (r: FontStyle)
        ensures
            r == (if bold && italic {
                FontStyle::BOLDITALIC
            } else if bold {
                FontStyle::BOLD
            } else if italic {
                FontStyle::ITALIC
            } else {
                FontStyle::REGULAR
            }),
    {
        if bold {
            if italic {
                FontStyle::BOLDITALIC
            } else {
                FontStyle::BOLD
            }
        } else if italic {
            FontStyle::ITALIC
        } else {
            FontStyle::REGULAR
        }
    }
}

/// Weight and slant of a font face, as the font subsystem classifies it.
#[derive(Clone, Copy, Debug, PartialEq, Eq, Structural, Hash)]
pub enum FontType {
    REGULAR,
    BOLD,
    ITALIC,
    BOLDITALIC,
}

/// A single font at a specific pixel size, reduced to the plain integer
/// metrics the layout engine reads: everything in font units except `size`.
#[derive(Debug, PartialEq, Eq, Structural, Clone, Copy)]
pub struct ImageFont {
    /// Point size in pixels.
    pub size: u32,
    /// Units above the baseline.
    pub ascent: u32,
    /// Units below the baseline, as a magnitude.
    pub descent: u32,
    /// Font units per em square.
    pub units_per_em: u32,
    /// Advance of an ASCII glyph, in font units.
    pub advance: u32,
    /// Advance of a non-ASCII glyph, in font units.
    pub wide_advance: u32,
}

/// Bounds that keep every metric computation within machine integers.
pub open spec fn font_wf(f: ImageFont) -> bool {
    &&& 1 <= f.units_per_em <= 0x4000
    &&& 1 <= f.size <= 0x400
    &&& 1 <= f.ascent <= 0x1_0000
    &&& f.descent <= 0x1_0000
    &&& 1 <= f.advance <= 0x1_0000
    &&& 1 <= f.wide_advance <= 0x1_0000
}

/// The pixel height of a line set in font `f`:
/// `ceil((ascent + descent) / units_per_em * size)`.
pub open spec fn sp_font_height(f: ImageFont) -> int {
    ((f.ascent + f.descent) * f.size + f.units_per_em - 1) / f.units_per_em as int
}

/// The pixel advance of one glyph of font `f`.
pub open spec fn sp_glyph_advance(f: ImageFont, wide: bool) -> int {
    if wide {
        (f.wide_advance * f.size + f.units_per_em - 1) / f.units_per_em as int
    } else {
        (f.advance * f.size + f.units_per_em - 1) / f.units_per_em as int
    }
}

impl ImageFont {
    /// A font from validated metrics; `None` when a metric is out of range.
    pub fn new(
        size: u32,
        ascent: u32,
        descent: u32,
        units_per_em: u32,
        advance: u32,
        wide_advance: u32,
    ) -> (r: Option<ImageFont>)
        ensures
            r is Some <==> font_wf(
                ImageFont { size, ascent, descent, units_per_em, advance, wide_advance },
            ),
            r is Some ==> r->0 == (ImageFont {
                size,
                ascent,
                descent,
                units_per_em,
                advance,
                wide_advance,
            }),
    {
        if 1 <= units_per_em && units_per_em <= 0x4000 && 1 <= size && size <= 0x400
            && 1 <= ascent && ascent <= 0x1_0000
            && descent <= 0x1_0000 && 1 <= advance && advance <= 0x1_0000 && 1 <= wide_advance
            && wide_advance <= 0x1_0000 {
            Some(ImageFont { size, ascent, descent, units_per_em, advance, wide_advance })
        } else {
            None
        }
    }

    /// The pixel height of a line set in this font.
    pub fn get_font_height(&self) -> (h: u32)
        requires
            font_wf(*self),
        ensures
            h == sp_font_height(*self),
    {
        proof {
            assert((self.ascent + self.descent) * self.size <= 0x2_0000 * 0x400)
                by (nonlinear_arith)
                requires
                    self.ascent <= 0x1_0000,
                    self.descent <= 0x1_0000,
                    self.size <= 0x400,
            ;
            assert((self.ascent + self.descent) * self.size >= 0) by (nonlinear_arith)
                requires
                    self.ascent >= 0,
                    self.descent >= 0,
                    self.size >= 0,
            ;
        }
        let num: u64 = (self.ascent as u64 + self.descent as u64) * (self.size as u64)
            + (self.units_per_em as u64) - 1;
        proof {
            vstd::arithmetic::div_mod::lemma_div_pos_is_pos(
                num as int,
                self.units_per_em as int,
            );
            vstd::arithmetic::div_mod::lemma_div_is_ordered(
                num as int,
                (0x2_0000 * 0x400 + 0x4000) as int,
                self.units_per_em as int,
            );
        }
        (num / (self.units_per_em as u64)) as u32
    }

    /// The pixel advance of one glyph.
    pub fn glyph_advance(&self, wide: bool) -> (a: u32)
        requires
            font_wf(*self),
        ensures
            a == sp_glyph_advance(*self, wide),
            1 <= a <= 0x0400_0000,
    {
        let units: u64 = if wide {
            self.wide_advance as u64
        } else {
            self.advance as u64
        };
        proof {
            assert(1 <= units * self.size <= 0x1_0000 * 0x400) by (nonlinear_arith)
                requires
                    1 <= units <= 0x1_0000,
                    1 <= self.size <= 0x400,
            ;
        }
        let num: u64 = units * (self.size as u64) + (self.units_per_em as u64) - 1;
        proof {
            vstd::arithmetic::div_mod::lemma_div_pos_is_pos(
                num as int,
                self.units_per_em as int,
            );
            assert(num as int <= (units * self.size) * self.units_per_em + (self.units_per_em
                - 1)) by (nonlinear_arith)
                requires
                    units * self.size >= 1,
                    self.units_per_em >= 1,
                    num == units * self.size + self.units_per_em - 1,
            ;
            assert(((units * self.size) * self.units_per_em + (self.units_per_em - 1))
                / self.units_per_em as int == units * self.size) by {
                vstd::arithmetic::div_mod::lemma_fundamental_div_mod_converse(
                    (units * self.size) * self.units_per_em + (self.units_per_em - 1),
                    self.units_per_em as int,
                    units as int * self.size as int,
                    self.units_per_em - 1,
                );
            }
            vstd::arithmetic::div_mod::lemma_div_is_ordered(
                num as int,
                (units * self.size) * self.units_per_em + (self.units_per_em - 1),
                self.units_per_em as int,
            );
            assert(num / self.units_per_em as u64 >= 1) by {
                assert(num >= self.units_per_em);
                vstd::arithmetic::div_mod::lemma_div_is_ordered(
                    self.units_per_em as int,
                    num as int,
                    self.units_per_em as int,
                );
                vstd::arithmetic::div_mod::lemma_div_by_self(self.units_per_em as int);
            }
        }
        (num / (self.units_per_em as u64)) as u32
    }
}

impl Default for ImageFont {
    /// The built-in monospace metrics at size 26: an em square of 2048 units,
    /// an ascent of 1901, a descent of 483, and glyphs of 1233 units, twice
    /// that for non-ASCII glyphs.
    fn default() -> (r: Self)
        ensures
            r == (ImageFont {
                size: 26,
                ascent: 1901,
                descent: 483,
                units_per_em: 2048,
                advance: 1233,
                wide_advance: 2466,
            }),
            font_wf(r),
    {
        ImageFont {
            size: 26,
            ascent: 1901,
            descent: 483,
            units_per_em: 2048,
            advance: 1233,
            wide_advance: 2466,
        }
    }
}

/// Whether a character is outside the ASCII range and so takes the wide
/// advance and, when configured, the secondary font.
pub open spec fn sp_is_wide(c: char) -> bool {
    c as u32 >= 128
}

/// Whether a character leaves no ink: it advances the cursor but draws no
/// pixels.
pub open spec fn sp_is_blank(c: char) -> bool {
    c == ' '
}

/// A primary font with an optional secondary font for non-ASCII scripts.
#[derive(Debug, PartialEq, Eq, Structural, Clone, Copy)]
pub struct FontCollection {
    pub primary: ImageFont,
    pub secondary: Option<ImageFont>,
}

pub open spec fn collection_wf(fc: FontCollection) -> bool {
    &&& font_wf(fc.primary)
    &&& (fc.secondary is Some ==> font_wf(fc.secondary->0))
}

/// The font a character renders with: the secondary font for non-ASCII
/// characters when one is configured, the primary font otherwise.
pub open spec fn sp_font_for(fc: FontCollection, c: char) -> ImageFont {
    if sp_is_wide(c) && fc.secondary is Some {
        fc.secondary->0
    } else {
        fc.primary
    }
}

/// The pixel advance of one character.
pub open spec fn sp_char_advance(fc: FontCollection, c: char) -> int {
    sp_glyph_advance(sp_font_for(fc, c), sp_is_wide(c))
}

/// The pixel width of a text: the sum of its character advances.
pub open spec fn sp_text_width(fc: FontCollection, text: Seq<char>) -> int
    decreases text.len(),
{
    if text.len() == 0 {
        0
    } else {
        sp_text_width(fc, text.drop_last()) + sp_char_advance(fc, text.last())
    }
}

/// The height of a line in the collection: the tallest of its fonts.
pub open spec fn sp_collection_height(fc: FontCollection) -> int {
    let p = sp_font_height(fc.primary);
    if fc.secondary is Some {
        let s = sp_font_height(fc.secondary->0);
        if s > p {
            s
        } else {
            p
        }
    } else {
        p
    }
}

/// Character advances are positive and bounded.
pub proof fn lemma_char_advance_bounds(fc: FontCollection, c: char)
    requires
        collection_wf(fc),
    ensures
        1 <= sp_char_advance(fc, c) <= 0x0400_0000,
{
    let f = sp_font_for(fc, c);
    let units = if sp_is_wide(c) {
        f.wide_advance as int
    } else {
        f.advance as int
    };
    let num = units * f.size + f.units_per_em - 1;
    assert(units * f.size <= 0x1_0000 * 0x400) by (nonlinear_arith)
        requires
            units <= 0x1_0000,
            f.size <= 0x400,
    ;
    assert(units * f.size >= 0) by (nonlinear_arith)
        requires
            units >= 0,
            f.size >= 0,
    ;
    vstd::arithmetic::div_mod::lemma_div_pos_is_pos(num, f.units_per_em as int);
    assert(units * f.size >= 1) by (nonlinear_arith)
        requires
            units >= 1,
            f.size >= 1,
    ;
    assert(num <= (units * f.size) * f.units_per_em + (f.units_per_em - 1)) by (nonlinear_arith)
        requires
            units * f.size >= 1,
            f.units_per_em >= 1,
            num == units * f.size + f.units_per_em - 1,
    ;
    assert(((units * f.size) * f.units_per_em + (f.units_per_em - 1)) / f.units_per_em as int
        == units * f.size) by {
        vstd::arithmetic::div_mod::lemma_fundamental_div_mod_converse(
            (units * f.size) * f.units_per_em + (f.units_per_em - 1),
            f.units_per_em as int,
            units * f.size,
            f.units_per_em - 1,
        );
    }
    vstd::arithmetic::div_mod::lemma_div_is_ordered(
        num,
        (units * f.size) * f.units_per_em + (f.units_per_em - 1),
        f.units_per_em as int,
    );
    assert(num >= f.units_per_em) by (nonlinear_arith)
        requires
            units >= 1,
            f.size >= 1,
            num == units * f.size + f.units_per_em - 1,
            f.units_per_em >= 1,
    ;
    vstd::arithmetic::div_mod::lemma_div_is_ordered(
        f.units_per_em as int,
        num,
        f.units_per_em as int,
    );
    vstd::arithmetic::div_mod::lemma_div_by_self(f.units_per_em as int);
}

/// Text widths are nonnegative and grow with the text.
pub proof fn lemma_text_width_bounds(fc: FontCollection, text: Seq<char>)
    requires
        collection_wf(fc),
    ensures
        0 <= sp_text_width(fc, text) <= text.len() * 0x0400_0000,
    decreases text.len(),
{
    if text.len() == 0 {
        assert(text.len() * 0x0400_0000 == 0) by (nonlinear_arith)
            requires
                text.len() == 0,
        ;
    } else {
        lemma_text_width_bounds(fc, text.drop_last());
        lemma_char_advance_bounds(fc, text.last());
        assert(text.len() * 0x0400_0000 == (text.len() - 1) * 0x0400_0000 + 0x0400_0000)
            by (nonlinear_arith);
    }
}

/// The cursor of a layout only ever moves right: a longer prefix is at
/// least as wide.
pub proof fn lemma_text_width_monotonic(fc: FontCollection, text: Seq<char>, i: int, j: int)
    requires
        collection_wf(fc),
        0 <= i <= j <= text.len(),
    ensures
        sp_text_width(fc, text.take(i)) <= sp_text_width(fc, text.take(j)),
    decreases j - i,
{
    if i < j {
        lemma_text_width_monotonic(fc, text, i, j - 1);
        assert(text.take(j).drop_last() =~= text.take(j - 1));
        lemma_char_advance_bounds(fc, text.take(j).last());
    }
}

/// One positioned glyph of a laid-out text: the horizontal cursor where it
/// starts and the character it draws.
#[derive(Debug, Clone, Copy)]
pub struct PositionedGlyph {
    pub x: u64,
    pub ch: char,
}

impl FontCollection {
    /// A collection from a primary and an optional secondary font.
    pub fn new(primary: ImageFont, secondary: Option<ImageFont>) -> (r: FontCollection)
        ensures
            r == (FontCollection { primary, secondary }),
    {
        FontCollection { primary, secondary }
    }

    /// The height of a line: the tallest of the fonts.
    pub fn get_font_height(&self) -> (h: u32)
        requires
            collection_wf(*self),
        ensures
            h == sp_collection_height(*self),
    {
        let p = self.primary.get_font_height();
        match &self.secondary {
            Some(f) => {
                let s = f.get_font_height();
                if s > p {
                    s
                } else {
                    p
                }
            },
            None => p,
        }
    }

    /// The font a character renders with.
    pub fn font_for_char(&self, c: char) -> (f: ImageFont)
        ensures
            f == sp_font_for(*self, c),
    {
        let wide = (c as u32) >= 128;
        match &self.secondary {
            Some(s) => if wide {
                *s
            } else {
                self.primary
            },
            None => self.primary,
        }
    }

    /// The pixel advance of one character.
    pub fn char_advance(&self, c: char) -> (a: u32)
        requires
            collection_wf(*self),
        ensures
            a == sp_char_advance(*self, c),
    {
        let f = self.font_for_char(c);
        f.glyph_advance((c as u32) >= 128)
    }

    /// The pixel width of a text.
    pub fn get_text_len(&self, text: &Vec<char>) -> (w: u64)
        requires
            collection_wf(*self),
            text@.len() <= 0x0100_0000,
        ensures
            w == sp_text_width(*self, text@),
    {
        let n = text.len();
        let mut w: u64 = 0;
        let mut i: usize = 0;
        while i < n
            invariant
                i <= n,
                n == text@.len() <= 0x0100_0000,
                collection_wf(*self),
                w == sp_text_width(*self, text@.take(i as int)),
                w <= i * 0x0400_0000,
            decreases n - i,
        {
            let a = self.char_advance(text[i]);
            proof {
                assert(text@.take(i + 1).drop_last() =~= text@.take(i as int));
                assert(text@.take(i + 1).last() == text@[i as int]);
                lemma_char_advance_bounds(*self, text@[i as int]);
                assert((i + 1) * 0x0400_0000 == i * 0x0400_0000 + 0x0400_0000)
                    by (nonlinear_arith);
            }
            w = w + a as u64;
            i = i + 1;
        }
        proof {
            assert(text@.take(n as int) =~= text@);
        }
        w
    }

    /// Lay out a text as one glyph per character: each glyph carries the
    /// cursor position where it starts, and the cursor advances by the
    /// character's advance, so it only ever moves right.
    pub fn layout(&self, text: &Vec<char>) -> (r: (Vec<PositionedGlyph>, u64))
        requires
            collection_wf(*self),
            text@.len() <= 0x0100_0000,
        ensures
            r.1 == sp_text_width(*self, text@),
            r.0@.len() == text@.len(),
            forall|i: int|
                0 <= i < text@.len() ==> (#[trigger] r.0@[i]).ch == text@[i] && r.0@[i].x
                    == sp_text_width(*self, text@.take(i)),
    {
        let n = text.len();
        let mut glyphs: Vec<PositionedGlyph> = Vec::new();
        let mut w: u64 = 0;
        let mut i: usize = 0;
        while i < n
            invariant
                i <= n,
                n == text@.len() <= 0x0100_0000,
                collection_wf(*self),
                w == sp_text_width(*self, text@.take(i as int)),
                w <= i * 0x0400_0000,
                glyphs@.len() == i,
                forall|j: int|
                    0 <= j < i ==> (#[trigger] glyphs@[j]).ch == text@[j] && glyphs@[j].x
                        == sp_text_width(*self, text@.take(j)),
            decreases n - i,
        {
            let ghost g0 = glyphs@;
            let gl = PositionedGlyph { x: w, ch: text[i] };
            glyphs.push(gl);
            proof {
                vstd::seq::axiom_seq_push_len(g0, gl);
                vstd::seq::axiom_seq_push_index_same(g0, gl, i as int);
                assert forall|j: int| 0 <= j < i implies glyphs@[j] == g0[j] by {
                    vstd::seq::axiom_seq_push_index_different(g0, gl, j);
                }
                assert(glyphs@.len() == i + 1);
                assert(glyphs@[i as int].ch == text@[i as int]);
                assert(glyphs@[i as int].x == sp_text_width(*self, text@.take(i as int)));
            }
            let a = self.char_advance(text[i]);
            proof {
                assert(text@.take(i + 1).drop_last() =~= text@.take(i as int));
                assert(text@.take(i + 1).last() == text@[i as int]);
                lemma_char_advance_bounds(*self, text@[i as int]);
                assert((i + 1) * 0x0400_0000 == i * 0x0400_0000 + 0x0400_0000)
                    by (nonlinear_arith);
            }
            w = w + a as u64;
            i = i + 1;
        }
        proof {
            assert(text@.take(n as int) =~= text@);
        }
        (glyphs, w)
    }
}

impl Default for FontCollection {
    /// The built-in monospace font alone.
    fn default() -> (r: Self)
        ensures
            r == (FontCollection {
                primary: ImageFont {
                    size: 26,
                    ascent: 1901,
                    descent: 483,
                    units_per_em: 2048,
                    advance: 1233,
                    wide_advance: 2466,
                },
                secondary: None::<ImageFont>,
            }),
            collection_wf(r),
    {
        FontCollection {
            primary: ImageFont {
                size: 26,
                ascent: 1901,
                descent: 483,
                units_per_em: 2048,
                advance: 1233,
                wide_advance: 2466,
            },
            secondary: None,
        }
    }
}

/// The buffer after drawing the first `n` characters of `text` at (`x`,
/// `y`): each non-blank character fills its advance-wide, line-high cell
/// (clipped to the canvas), and every character moves the cursor.
pub open spec fn sp_draw_text_upto(
    d: Seq<Rgba>,
    dw: int,
    dh: int,
    fc: FontCollection,
    color: Rgba,
    x: int,
    y: int,
    text: Seq<char>,
    n: int,
) -> Seq<Rgba>
    decreases n,
{
    if n <= 0 {
        d
    } else {
        let prev = sp_draw_text_upto(d, dw, dh, fc, color, x, y, text, n - 1);
        let c = text[n - 1];
        if sp_is_blank(c) {
            prev
        } else {
            let cx = x + sp_text_width(fc, text.take(n - 1));
            let cw = sp_char_advance(fc, c);
            let ch = sp_font_height(sp_font_for(fc, c));
            sp_fill_region(
                prev,
                dw,
                if cx >= 0 {
                    cx
                } else {
                    0
                },
                if cx + cw <= dw {
                    cx + cw
                } else {
                    dw
                },
                if y >= 0 {
                    y
                } else {
                    0
                },
                if y + ch <= dh {
                    y + ch
                } else {
                    dh
                },
                color,
            )
        }
    }
}

/// The buffer after drawing the whole text.
pub open spec fn sp_draw_text(
    d: Seq<Rgba>,
    dw: int,
    dh: int,
    fc: FontCollection,
    color: Rgba,
    x: int,
    y: int,
    text: Seq<char>,
) -> Seq<Rgba> {
    sp_draw_text_upto(d, dw, dh, fc, color, x, y, text, text.len() as int)
}

/// Drawing at a position beyond the canvas changes nothing: every cell is
/// clipped empty.
pub proof fn lemma_draw_text_far(
    d: Seq<Rgba>,
    dw: int,
    dh: int,
    fc: FontCollection,
    color: Rgba,
    x: int,
    y: int,
    text: Seq<char>,
    n: int,
)
    requires
        collection_wf(fc),
        0 <= x,
        0 <= y,
        x >= dw || y >= dh,
        0 <= n <= text.len(),
    ensures
        sp_draw_text_upto(d, dw, dh, fc, color, x, y, text, n) == d,
    decreases n,
{
    if n > 0 {
        lemma_draw_text_far(d, dw, dh, fc, color, x, y, text, n - 1);
        if !sp_is_blank(text[n - 1]) {
            lemma_text_width_bounds(fc, text.take(n - 1));
            lemma_char_advance_bounds(fc, text[n - 1]);
            let cx = x + sp_text_width(fc, text.take(n - 1));
            let cw = sp_char_advance(fc, text[n - 1]);
            let ch = sp_font_height(sp_font_for(fc, text[n - 1]));
            assert(sp_fill_region(
                d,
                dw,
                if cx >= 0 {
                    cx
                } else {
                    0
                },
                if cx + cw <= dw {
                    cx + cw
                } else {
                    dw
                },
                if y >= 0 {
                    y
                } else {
                    0
                },
                if y + ch <= dh {
                    y + ch
                } else {
                    dh
                },
                color,
            ) =~= d);
        }
    }
}

impl FontCollection {
    /// Draw a text onto the image at (`x`, `y`) in the given color, one
    /// filled cell per character, and return the text's pixel width.  The
    /// style selects a face of the same metrics, so it does not change the
    /// pixels this fallback renderer produces.
    #[verifier::rlimit(50)]
    pub fn draw_text_mut(
        &self,
        image: &mut Canvas,
        color: Rgba,
        xpos: u64,
        ypos: u64,
        style: FontStyle,
        text: &Vec<char>,
    ) -> (w: u64)
        requires
            collection_wf(*self),
            old(image).wf(),
            old(image).spec_width() <= 0x0100_0000,
            old(image).spec_height() <= 0x0100_0000,
            text@.len() <= 0x0100_0000,
        ensures
            final(image).wf(),
            final(image).spec_width() == old(image).spec_width(),
            final(image).spec_height() == old(image).spec_height(),
            final(image)@ == sp_draw_text(
                old(image)@,
                old(image).spec_width() as int,
                old(image).spec_height() as int,
                *self,
                color,
                xpos as int,
                ypos as int,
                text@,
            ),
            w == sp_text_width(*self, text@),
    {
        let ghost d = image@;
        let ghost dw = image.spec_width() as int;
        let ghost dh = image.spec_height() as int;
        if xpos >= 0x1000_0000 || ypos >= 0x1000_0000 {
            // far beyond any canvas this crate can hold: every cell clips to
            // nothing, so only the width is computed
            proof {
                lemma_draw_text_far(d, dw, dh, *self, color, xpos as int, ypos as int, text@,
                    text@.len() as int);
            }
            return self.get_text_len(text);
        }
        let x: u32 = xpos as u32;
        let y: u32 = ypos as u32;
        let n = text.len();
        let mut w: u64 = 0;
        let mut i: usize = 0;
        while i < n
            invariant
                i <= n,
                n == text@.len() <= 0x0100_0000,
                collection_wf(*self),
                x <= 0x1000_0000,
                y <= 0x1000_0000,
                image.wf(),
                image.spec_width() == old(image).spec_width(),
                image.spec_height() == old(image).spec_height(),
                image.spec_width() <= 0x0100_0000,
                image.spec_height() <= 0x0100_0000,
                d == old(image)@,
                dw == old(image).spec_width() as int,
                dh == old(image).spec_height() as int,
                w == sp_text_width(*self, text@.take(i as int)),
                w <= i * 0x0400_0000,
                image@ == sp_draw_text_upto(d, dw, dh, *self, color, x as int, y as int, text@,
                    i as int),
            decreases n - i,
        {
            let c = text[i];
            let a = self.char_advance(c);
            let f = self.font_for_char(c);
            proof {
                assert(font_wf(f));
                lemma_char_advance_bounds(*self, c);
            }
            let fh = f.get_font_height();
            if c != ' ' {
                let cx: i64 = x as i64 + w as i64;
                proof {
                    assert(i * 0x0400_0000 <= 0x0100_0000 * 0x0400_0000) by (nonlinear_arith)
                        requires
                            i <= 0x0100_0000,
                    ;
                    assert(sp_font_height(f) <= 0x0800_4000) by {
                        vstd::arithmetic::div_mod::lemma_div_pos_is_pos(
                            (f.ascent + f.descent) * f.size + f.units_per_em - 1,
                            f.units_per_em as int,
                        );
                        assert((f.ascent + f.descent) * f.size <= 0x2_0000 * 0x400)
                            by (nonlinear_arith)
                            requires
                                f.ascent <= 0x1_0000,
                                f.descent <= 0x1_0000,
                                f.size <= 0x400,
                        ;
                        vstd::arithmetic::div_mod::lemma_div_is_ordered(
                            (f.ascent + f.descent) * f.size + f.units_per_em - 1,
                            (0x2_0000 * 0x400 + 0x4000) as int,
                            f.units_per_em as int,
                        );
                    }
                }
                if cx <= 0x3FFF_FFFF - (a as i64) {
                    let rect = Rect {
                        left: cx as i32,
                        top: y as i32,
                        width: a,
                        height: fh,
                    };
                    draw_filled_rect_mut(image, rect, color);
                } else {
                    // the cursor is far beyond any canvas this crate can
                    // hold, so the clipped cell is empty
                    proof {
                        let prev = sp_draw_text_upto(d, dw, dh, *self, color, x as int, y as int,
                            text@, i as int);
                        assert(image@ =~= sp_fill_region(prev, dw, cx as int, dw, y as int, (
                        if y + sp_font_height(f) <= dh {
                            y + sp_font_height(f)
                        } else {
                            dh
                        }), color));
                    }
                }
                proof {
                    assert(text@.take(i + 1).last() == text@[i as int]);
                    assert(text@.take(i + 1).drop_last() =~= text@.take(i as int));
                    assert(!sp_is_blank(text@[i as int]));
                    assert(image@ == sp_draw_text_upto(d, dw, dh, *self, color, x as int,
                        y as int, text@, i + 1));
                }
            } else {
                proof {
                    assert(text@.take(i + 1).last() == text@[i as int]);
                    assert(text@.take(i + 1).drop_last() =~= text@.take(i as int));
                    assert(sp_is_blank(text@[i as int]));
                    assert(image@ == sp_draw_text_upto(d, dw, dh, *self, color, x as int,
                        y as int, text@, i + 1));
                }
            }
            proof {
                lemma_char_advance_bounds(*self, text@[i as int]);
                assert((i + 1) * 0x0400_0000 == i * 0x0400_0000 + 0x0400_0000)
                    by (nonlinear_arith);
            }
            w = w + a as u64;
            i = i + 1;
        }
        proof {
            assert(text@.take(n as int) =~= text@);
        }
        w
    }
}


} // verus!
