//! The raster compositor: canvas sizing and the ordered stack of layers
//! (background, highlight strips, line numbers, glyphs, window chrome,
//! rounded corners, drop shadow).

use crate::canvas::Canvas;
use crate::canvas::Rgba;
use crate::canvas::sp_paste_alpha;
use crate::error::RenderError;
use crate::font::FontCollection;
use crate::font::FontStyle;
use crate::font::collection_wf;
use crate::font::sp_char_advance;
use crate::font::sp_glyph_advance;
use crate::font::sp_is_wide;
use crate::font::sp_collection_height;
use crate::font::sp_text_width;
use crate::font::sp_draw_text;
use crate::utils::Background;
use crate::utils::ShadowAdder;
use crate::utils::WindowControlsParams;
use crate::utils::copy_alpha;
use crate::utils::add_window_controls;
use crate::utils::round_corner;
use crate::utils::shadow_adder_wf;
use crate::utils::sp_apply_shadow;
use crate::utils::sp_round_corner;
use crate::utils::sp_window_controls;
use vstd::prelude::*;

verus! {

/// One styled span of highlighted text, as the external highlighter hands
/// it over.
#[derive(Debug, Clone, Copy, PartialEq, Eq, Structural)]
pub struct Style {
    pub foreground: Rgba,
    pub font_style: FontStyle,
}

/// Colors of the theme the document was highlighted with.
#[derive(Debug, Clone, Copy, PartialEq, Eq, Structural)]
pub struct Theme {
    pub foreground: Rgba,
    pub background: Rgba,
}

/// A positioned glyph-draw command, the ghost-level form: where a run of
/// text is drawn, in which color and style.
pub struct SpecCommand {
    pub x: int,
    pub y: int,
    pub color: Option<Rgba>,
    pub style: FontStyle,
    pub text: Seq<char>,
}

/// A positioned glyph-draw command.  A command without a color renders in
/// the theme foreground.
#[derive(Debug, Clone)]
pub struct DrawCommand {
    pub x: u64,
    pub y: u64,
    pub color: Option<Rgba>,
    pub style: FontStyle,
    pub text: Vec<char>,
}

impl View for DrawCommand {
    type V = SpecCommand;

    open spec fn view(&self) -> SpecCommand {
        SpecCommand {
            x: self.x as int,
            y: self.y as int,
            color: self.color,
            style: self.style,
            text: self.text@,
        }
    }
}

/// The views of a sequence of commands.
pub open spec fn sp_views(cmds: Seq<DrawCommand>) -> Seq<SpecCommand> {
    Seq::new(cmds.len(), |i: int| cmds[i]@)
}

/// Everything the compositor draws, together with the extents that size the
/// canvas; computed in full before any pixel is written.
#[derive(Debug, Clone)]
pub struct Drawable {
    pub max_width: u64,
    pub max_lineno: u32,
    pub drawables: Vec<DrawCommand>,
}

/// Number of decimal digits of a nonnegative integer.
pub open spec fn sp_digits10(n: int) -> int
    decreases n,
{
    if n < 10 {
        1
    } else {
        1 + sp_digits10(n / 10)
    }
}

/// Width of the line-number gutter in digits: enough for the largest
/// displayed line number `line_count + line_offset - 1`, and nothing when
/// there is nothing to number.
pub open spec fn sp_gutter_chars(count: int, offset: int) -> int {
    if count + offset == 0 {
        0
    } else {
        sp_digits10(count + offset - 1)
    }
}

/// A number up to 2^33 has at most 11 decimal digits.
pub proof fn lemma_digits10_le_11(n: int)
    requires
        0 <= n <= 0x2_0000_0000,
    ensures
        1 <= sp_digits10(n) <= 11,
{
    let n1 = n / 10;
    let n2 = n1 / 10;
    let n3 = n2 / 10;
    let n4 = n3 / 10;
    let n5 = n4 / 10;
    let n6 = n5 / 10;
    let n7 = n6 / 10;
    let n8 = n7 / 10;
    let n9 = n8 / 10;
    assert(n9 < 10);
    assert(sp_digits10(n9) == 1);
    assert(sp_digits10(n8) <= 2);
    assert(sp_digits10(n7) <= 3);
    assert(sp_digits10(n6) <= 4);
    assert(sp_digits10(n5) <= 5);
    assert(sp_digits10(n4) <= 6);
    assert(sp_digits10(n3) <= 7);
    assert(sp_digits10(n2) <= 8);
    assert(sp_digits10(n1) <= 9);
    assert(sp_digits10(n) <= 10);
}

/// Number of decimal digits, executable form.
pub fn digits10(n: u64) -> (d: u32)
    requires
        n <= 0x2_0000_0000,
    ensures
        d == sp_digits10(n as int),
        1 <= d <= 11,
    decreases n,
{
    proof {
        lemma_digits10_le_11(n as int);
    }
    if n < 10 {
        1
    } else {
        let rest = digits10(n / 10);
        proof {
            assert(sp_digits10(n as int) == 1 + sp_digits10(n as int / 10));
        }
        rest + 1
    }
}

/// The decimal digit characters of `n`, most significant first.
pub open spec fn sp_number_chars(n: int) -> Seq<char>
    decreases n,
{
    if n < 10 {
        seq![((48 + n) as u8) as char]
    } else {
        sp_number_chars(n / 10).push(((48 + n % 10) as u8) as char)
    }
}

/// `n` right-aligned in a field of `width` characters, padded with spaces;
/// a number wider than the field is not cut.
pub open spec fn sp_padded_number(n: int, width: int) -> Seq<char> {
    let digits = sp_number_chars(n);
    if digits.len() >= width {
        digits
    } else {
        Seq::new((width - digits.len()) as nat, |i: int| ' ') + digits
    }
}

proof fn lemma_number_chars_len(n: int)
    requires
        n >= 0,
    ensures
        sp_number_chars(n).len() == sp_digits10(n),
    decreases n,
{
    if n >= 10 {
        vstd::arithmetic::div_mod::lemma_div_pos_is_pos(n, 10);
        lemma_number_chars_len(n / 10);
    }
}

/// The decimal digits of `n`, executable form.
pub fn number_chars(n: u64) -> (r: Vec<char>)
    requires
        n <= 0x2_0000_0000,
    ensures
        r@ == sp_number_chars(n as int),
        1 <= r@.len() <= 11,
    decreases n,
{
    proof {
        lemma_number_chars_len(n as int);
        lemma_digits10_le_11(n as int);
    }
    if n < 10 {
        let c: u8 = 48 + (n as u8);
        let mut r: Vec<char> = Vec::new();
        r.push(c as char);
        proof {
            assert(r@ =~= sp_number_chars(n as int));
        }
        r
    } else {
        let mut r = number_chars(n / 10);
        let c: u8 = 48 + ((n % 10) as u8);
        r.push(c as char);
        proof {
            assert(r@ =~= sp_number_chars(n as int));
        }
        r
    }
}

/// Format a line number right-aligned in a `width`-character gutter.
pub fn format_line_number(n: u64, width: u32) -> (r: Vec<char>)
    requires
        n <= 0x2_0000_0000,
        width <= 0x400,
    ensures
        r@ == sp_padded_number(n as int, width as int),
        r@.len() <= 0x414,
{
    let digits = number_chars(n);
    let dl = digits.len();
    let mut r: Vec<char> = Vec::new();
    let mut i: usize = 0;
    let pad: usize = if (width as usize) > dl {
        (width as usize) - dl
    } else {
        0
    };
    while i < pad
        invariant
            i <= pad,
            pad <= 0x400,
            r@ =~= Seq::new(i as nat, |j: int| ' '),
        decreases pad - i,
    {
        r.push(' ');
        i = i + 1;
    }
    let mut j: usize = 0;
    while j < dl
        invariant
            j <= dl,
            dl == digits@.len(),
            pad <= 0x400,
            r@ =~= Seq::new(pad as nat, |k: int| ' ') + digits@.take(j as int),
        decreases dl - j,
    {
        let c = digits[j];
        r.push(c);
        proof {
            assert(digits@.take(j + 1) =~= digits@.take(j as int).push(digits@[j as int]));
        }
        j = j + 1;
    }
    proof {
        assert(digits@.take(dl as int) =~= digits@);
        if digits@.len() >= width {
            assert(pad == 0);
            assert(r@ =~= sp_padded_number(n as int, width as int));
        } else {
            assert(pad == width - digits@.len());
            assert(r@ =~= sp_padded_number(n as int, width as int));
        }
    }
    r
}

/// The text with its trailing newline characters removed.
pub open spec fn sp_trim_newlines(t: Seq<char>) -> Seq<char>
    decreases t.len(),
{
    if t.len() > 0 && t.last() == '\n' {
        sp_trim_newlines(t.drop_last())
    } else {
        t
    }
}

/// The text with every tab expanded to `tw` spaces.
pub open spec fn sp_expand_tabs(t: Seq<char>, tw: int) -> Seq<char>
    decreases t.len(),
{
    if t.len() == 0 {
        Seq::empty()
    } else {
        let rest = sp_expand_tabs(t.drop_last(), tw);
        if t.last() == '\t' {
            rest + Seq::new(tw as nat, |i: int| ' ')
        } else {
            rest.push(t.last())
        }
    }
}

/// The drawable form of a span's text: trailing newlines dropped, tabs
/// expanded.
pub open spec fn sp_span_text(t: Seq<char>, tw: int) -> Seq<char> {
    sp_expand_tabs(sp_trim_newlines(t), tw)
}

proof fn lemma_trim_newlines_len(t: Seq<char>)
    ensures
        sp_trim_newlines(t).len() <= t.len(),
    decreases t.len(),
{
    if t.len() > 0 && t.last() == '\n' {
        lemma_trim_newlines_len(t.drop_last());
    }
}

proof fn lemma_expand_tabs_len(t: Seq<char>, tw: int)
    requires
        0 <= tw,
    ensures
        sp_expand_tabs(t, tw).len() <= t.len() * (if tw > 1 {
            tw
        } else {
            1
        }),
    decreases t.len(),
{
    if t.len() > 0 {
        lemma_expand_tabs_len(t.drop_last(), tw);
        let m = if tw > 1 {
            tw
        } else {
            1int
        };
        assert(t.len() * m == (t.len() - 1) * m + m) by (nonlinear_arith);
    }
}

/// Drop trailing newlines and expand tabs, executable form.
pub fn span_text(t: &Vec<char>, tab_width: u8) -> (r: Vec<char>)
    requires
        t@.len() <= 0x1_0000,
    ensures
        r@ == sp_span_text(t@, tab_width as int),
        r@.len() <= 0x100_0000,
{
    let mut end = t.len();
    proof {
        assert(t@.take(t@.len() as int) =~= t@);
    }
    while end > 0 && t[end - 1] == '\n'
        invariant
            end <= t@.len() <= 0x1_0000,
            sp_trim_newlines(t@) == sp_trim_newlines(t@.take(end as int)),
        decreases end,
    {
        proof {
            assert(t@.take(end as int).last() == t@[end - 1]);
            assert(t@.take(end as int).drop_last() =~= t@.take(end - 1));
        }
        end = end - 1;
    }
    proof {
        if end > 0 {
            assert(t@.take(end as int).last() == t@[end - 1]);
        }
        assert(sp_trim_newlines(t@.take(end as int)) == t@.take(end as int));
    }
    let ghost trimmed = t@.take(end as int);
    let mut r: Vec<char> = Vec::new();
    let mut i: usize = 0;
    while i < end
        invariant
            i <= end,
            end <= t@.len() <= 0x1_0000,
            trimmed == t@.take(end as int),
            r@ == sp_expand_tabs(trimmed.take(i as int), tab_width as int),
            r@.len() <= i * 0x100,
        decreases end - i,
    {
        let c = t[i];
        proof {
            assert(trimmed.take(i + 1).drop_last() =~= trimmed.take(i as int));
            assert(trimmed.take(i + 1).last() == t@[i as int]);
            assert((i + 1) * 0x100 == i * 0x100 + 0x100) by (nonlinear_arith);
        }
        if c == '\t' {
            let mut k: u8 = 0;
            let ghost r0 = r@;
            while k < tab_width
                invariant
                    k <= tab_width,
                    r@ =~= r0 + Seq::new(k as nat, |j: int| ' '),
                decreases tab_width - k,
            {
                r.push(' ');
                k = k + 1;
            }
            proof {
                assert(r@ =~= sp_expand_tabs(trimmed.take(i + 1), tab_width as int));
            }
        } else {
            r.push(c);
            proof {
                assert(r@ =~= sp_expand_tabs(trimmed.take(i + 1), tab_width as int));
            }
        }
        i = i + 1;
    }
    proof {
        assert(trimmed.take(end as int) =~= trimmed);
    }
    r
}


/// The raster compositor's configuration: paddings, chrome toggles, the
/// font set, highlighted lines and the optional drop shadow.
#[derive(Debug, Clone)]
pub struct ImageFormatter {
    /// Pad between lines.
    pub line_pad: u32,
    /// Pad between the code area and the canvas edge.
    pub code_pad: u32,
    /// Extra pad above the code area, nonzero only under a title bar.
    pub code_pad_top: u32,
    /// Pad inside the title bar.
    pub title_bar_pad: u32,
    /// Whether the three window-control dots are drawn.
    pub window_controls: bool,
    /// Width of the window-control strip.
    pub window_controls_width: u32,
    /// Height of the window-control strip.
    pub window_controls_height: u32,
    /// Title drawn in the title bar.
    pub window_title: Option<Vec<char>>,
    /// Whether line numbers are drawn.
    pub line_number: bool,
    /// Whether the corners are rounded.
    pub round_corner: bool,
    /// Pad between the line numbers and the code.
    pub line_number_pad: u32,
    /// Digits reserved for line numbers; computed per render.
    pub line_number_chars: u32,
    /// The font set.
    pub font: FontCollection,
    /// 1-based lines to highlight.
    pub highlight_lines: Vec<u32>,
    /// The drop shadow, if any.
    pub shadow_adder: Option<ShadowAdder>,
    /// Spaces a tab expands to.
    pub tab_width: u8,
    /// Number of the first line.
    pub line_offset: u32,
}

/// Bounds under which a render cannot overflow.
pub open spec fn fmt_wf(fmt: ImageFormatter) -> bool {
    &&& collection_wf(fmt.font)
    &&& fmt.line_pad <= 0x400
    &&& fmt.code_pad <= 0x400
    &&& fmt.code_pad_top <= 0x400
    &&& fmt.title_bar_pad <= 0x400
    &&& 1 <= fmt.window_controls_width <= 0x1000
    &&& 1 <= fmt.window_controls_height <= 0x1000
    &&& fmt.line_number_pad <= 0x400
    &&& fmt.line_number_chars <= 0x400
    &&& fmt.highlight_lines@.len() <= 0x100_0000
    &&& (fmt.window_title is Some ==> fmt.window_title->0@.len() <= 0x1000)
    &&& (fmt.window_title is Some ==> sp_collection_height(fmt.font) / 2 <= fmt.title_bar_pad
        + fmt.window_controls_height as int / 2)
    &&& (fmt.shadow_adder is Some ==> shadow_adder_wf(fmt.shadow_adder->0))
}

/// Whether a document is within the sizes a render accepts.
pub open spec fn sp_doc_ok(v: Seq<Vec<(Style, Vec<char>)>>) -> bool {
    &&& v.len() <= 0x100_0000
    &&& forall|i: int|
        0 <= i < v.len() ==> (#[trigger] v[i])@.len() <= 0x1000 && forall|j: int|
            0 <= j < v[i]@.len() ==> (#[trigger] v[i]@[j]).1@.len() <= 0x1_0000
}

/// Height of one text line: font height plus the line pad.
pub open spec fn sp_line_height(fmt: ImageFormatter) -> int {
    sp_collection_height(fmt.font) + fmt.line_pad
}

/// The y coordinate of a line's band.
pub open spec fn sp_line_y(fmt: ImageFormatter, lineno: int) -> int {
    lineno * sp_line_height(fmt) + fmt.code_pad + fmt.code_pad_top
}

/// The canvas width: the widest drawable plus the pad, at least 150 pixels.
pub open spec fn sp_image_width(fmt: ImageFormatter, max_width: int) -> int {
    if max_width + fmt.code_pad > 150 {
        max_width + fmt.code_pad
    } else {
        150
    }
}

/// The canvas height: one band past the last line, plus the pad.
pub open spec fn sp_image_height(fmt: ImageFormatter, max_lineno: int) -> int {
    sp_line_y(fmt, max_lineno + 1) + fmt.code_pad
}

/// Pixel width of the line-number gutter text: a zero right-aligned in the
/// reserved digits.
pub open spec fn sp_gutter_text_len(fmt: ImageFormatter) -> int {
    sp_text_width(fmt.font, sp_padded_number(0, fmt.line_number_chars as int))
}

/// Where the code starts: the pad plus, with line numbers on, the gutter
/// and its own pads.
pub open spec fn sp_left_pad(fmt: ImageFormatter) -> int {
    fmt.code_pad + (if fmt.line_number {
        2 * fmt.line_number_pad + sp_gutter_text_len(fmt)
    } else {
        0
    })
}

/// Font heights are positive and bounded.
pub proof fn lemma_collection_height_bounds(fc: FontCollection)
    requires
        collection_wf(fc),
    ensures
        1 <= sp_collection_height(fc) <= 0x0800_4000,
{
    lemma_font_height_bounds(fc.primary);
    if fc.secondary is Some {
        lemma_font_height_bounds(fc.secondary->0);
    }
}

proof fn lemma_font_height_bounds(f: crate::font::ImageFont)
    requires
        crate::font::font_wf(f),
    ensures
        1 <= crate::font::sp_font_height(f) <= 0x0800_4000,
{
    let num = (f.ascent + f.descent) * f.size + f.units_per_em - 1;
    assert((f.ascent + f.descent) * f.size <= 0x2_0000 * 0x400) by (nonlinear_arith)
        requires
            f.ascent <= 0x1_0000,
            f.descent <= 0x1_0000,
            f.size <= 0x400,
    ;
    assert((f.ascent + f.descent) * f.size >= 1) by (nonlinear_arith)
        requires
            f.ascent >= 1,
            f.size >= 1,
            f.descent >= 0,
    ;
    vstd::arithmetic::div_mod::lemma_div_is_ordered(
        num,
        (0x2_0000 * 0x400 + 0x4000) as int,
        f.units_per_em as int,
    );
    assert(num >= f.units_per_em);
    vstd::arithmetic::div_mod::lemma_div_is_ordered(
        f.units_per_em as int,
        num,
        f.units_per_em as int,
    );
    vstd::arithmetic::div_mod::lemma_div_by_self(f.units_per_em as int);
}

impl ImageFormatter {
    /// Height of one text line.
    pub fn get_line_height(&self) -> (h: u64)
        requires
            fmt_wf(*self),
        ensures
            h == sp_line_height(*self),
            1 <= h <= 0x0800_4400,
    {
        proof {
            lemma_collection_height_bounds(self.font);
        }
        self.font.get_font_height() as u64 + self.line_pad as u64
    }

    /// The y coordinate of a line's band.
    pub fn get_line_y(&self, lineno: u32) -> (y: u64)
        requires
            fmt_wf(*self),
            lineno <= 0x100_0001,
        ensures
            y == sp_line_y(*self, lineno as int),
            y <= 0x9_0000_0000_0000,
    {
        let lh = self.get_line_height();
        proof {
            assert(lineno as int * lh as int <= 0x100_0001 * 0x0800_4400) by (nonlinear_arith)
                requires
                    lineno <= 0x100_0001,
                    lh <= 0x0800_4400,
            ;
            assert(lineno as int * lh as int >= 0) by (nonlinear_arith)
                requires
                    lineno >= 0,
                    lh >= 0,
            ;
        }
        (lineno as u64) * lh + self.code_pad as u64 + self.code_pad_top as u64
    }

    /// The canvas size for the given extents.
    pub fn get_image_size(&self, max_width: u64, lineno: u32) -> (size: (u64, u64))
        requires
            fmt_wf(*self),
            lineno <= 0x100_0000,
            max_width <= 0x4100_0000_0000_0000,
        ensures
            size.0 == sp_image_width(*self, max_width as int),
            size.1 == sp_image_height(*self, lineno as int),
    {
        let w = max_width + self.code_pad as u64;
        let w = if w > 150 {
            w
        } else {
            150
        };
        let h = self.get_line_y(lineno + 1) + self.code_pad as u64;
        (w, h)
    }

    /// Where the code starts.
    pub fn get_left_pad(&self) -> (p: u64)
        requires
            fmt_wf(*self),
        ensures
            p == sp_left_pad(*self),
            p <= 0x11_0000_0000,
    {
        if self.line_number {
            let tmp = format_line_number(0, self.line_number_chars);
            let gutter = self.font.get_text_len(&tmp);
            proof {
                crate::font::lemma_text_width_bounds(self.font, tmp@);
                assert(tmp@.len() * 0x0400_0000 <= 0x414 * 0x0400_0000) by (nonlinear_arith)
                    requires
                        tmp@.len() <= 0x414,
                ;
                assert(gutter <= 0x10_5000_0000);
                assert(sp_left_pad(*self) == self.code_pad + 2 * self.line_number_pad
                    + sp_gutter_text_len(*self));
                assert(gutter == sp_gutter_text_len(*self));
            }
            self.code_pad as u64 + 2 * self.line_number_pad as u64 + gutter
        } else {
            self.code_pad as u64
        }
    }
}

/// Builder for the compositor's configuration.
#[derive(Debug, Clone)]
pub struct ImageFormatterBuilder {
    /// Pad between lines.
    pub line_pad: u32,
    /// Whether line numbers are drawn.
    pub line_number: bool,
    /// The font set.
    pub font: FontCollection,
    /// 1-based lines to highlight.
    pub highlight_lines: Vec<u32>,
    /// Whether the window-control dots are drawn.
    pub window_controls: bool,
    /// Title drawn in the title bar.
    pub window_title: Option<Vec<char>>,
    /// Whether the corners are rounded.
    pub round_corner: bool,
    /// The drop shadow, if any.
    pub shadow_adder: Option<ShadowAdder>,
    /// Spaces a tab expands to.
    pub tab_width: u8,
    /// Number of the first line.
    pub line_offset: u32,
}

impl ImageFormatterBuilder {
    /// Defaults: two pixels between lines, line numbers, window controls and
    /// rounded corners on, four-space tabs, the built-in font.
    pub fn new() -> (r: Self)
        ensures
            r.line_pad == 2,
            r.line_number == true,
            r.window_controls == true,
            r.window_title is None,
            r.round_corner == true,
            r.tab_width == 4,
            r.line_offset == 0,
            r.highlight_lines@.len() == 0,
            r.shadow_adder is None,
            collection_wf(r.font),
    {
        ImageFormatterBuilder {
            line_pad: 2,
            line_number: true,
            font: FontCollection::default(),
            highlight_lines: Vec::new(),
            window_controls: true,
            window_title: None,
            round_corner: true,
            shadow_adder: None,
            tab_width: 4,
            line_offset: 0,
        }
    }

    /// Whether line numbers are drawn.
    pub fn line_number(self, show: bool) -> (r: Self)
        ensures
            r == (ImageFormatterBuilder { line_number: show, ..self }),
    {
        ImageFormatterBuilder { line_number: show, ..self }
    }

    /// Number of the first line.
    pub fn line_offset(self, offset: u32) -> (r: Self)
        ensures
            r == (ImageFormatterBuilder { line_offset: offset, ..self }),
    {
        ImageFormatterBuilder { line_offset: offset, ..self }
    }

    /// Pad between lines.
    pub fn line_pad(self, pad: u32) -> (r: Self)
        ensures
            r == (ImageFormatterBuilder { line_pad: pad, ..self }),
    {
        ImageFormatterBuilder { line_pad: pad, ..self }
    }

    /// The font set.
    pub fn font(self, font: FontCollection) -> (r: Self)
        ensures
            r == (ImageFormatterBuilder { font, ..self }),
    {
        ImageFormatterBuilder { font, ..self }
    }

    /// Whether the window-control dots are drawn.
    pub fn window_controls(self, show: bool) -> (r: Self)
        ensures
            r == (ImageFormatterBuilder { window_controls: show, ..self }),
    {
        ImageFormatterBuilder { window_controls: show, ..self }
    }

    /// Title drawn in the title bar.
    pub fn window_title(self, title: Option<Vec<char>>) -> (r: Self)
        ensures
            r == (ImageFormatterBuilder { window_title: title, ..self }),
    {
        ImageFormatterBuilder { window_title: title, ..self }
    }

    /// Whether the corners are rounded.
    pub fn round_corner(self, b: bool) -> (r: Self)
        ensures
            r == (ImageFormatterBuilder { round_corner: b, ..self }),
    {
        ImageFormatterBuilder { round_corner: b, ..self }
    }

    /// The drop shadow.
    pub fn shadow_adder(self, adder: ShadowAdder) -> (r: Self)
        ensures
            r == (ImageFormatterBuilder { shadow_adder: Some(adder), ..self }),
    {
        ImageFormatterBuilder { shadow_adder: Some(adder), ..self }
    }

    /// 1-based lines to highlight.
    pub fn highlight_lines(self, lines: Vec<u32>) -> (r: Self)
        ensures
            r == (ImageFormatterBuilder { highlight_lines: lines, ..self }),
    {
        ImageFormatterBuilder { highlight_lines: lines, ..self }
    }

    /// Spaces a tab expands to.
    pub fn tab_width(self, width: u8) -> (r: Self)
        ensures
            r == (ImageFormatterBuilder { tab_width: width, ..self }),
    {
        ImageFormatterBuilder { tab_width: width, ..self }
    }

    /// The configured compositor: a 25-pixel code pad, a 50-pixel top pad
    /// under a title bar, a 15-pixel title-bar pad, a 120 x 40 control
    /// strip, and a 6-pixel line-number pad.
    pub fn build(self) -> (r: ImageFormatter)
        ensures
            r.line_pad == self.line_pad,
            r.code_pad == 25,
            r.code_pad_top == (if self.window_controls || self.window_title is Some {
                50u32
            } else {
                0u32
            }),
            r.title_bar_pad == 15,
            r.window_controls == self.window_controls,
            r.window_controls_width == 120,
            r.window_controls_height == 40,
            r.window_title == self.window_title,
            r.line_number == self.line_number,
            r.line_number_pad == 6,
            r.line_number_chars == 0,
            r.highlight_lines == self.highlight_lines,
            r.round_corner == self.round_corner,
            r.shadow_adder == self.shadow_adder,
            r.tab_width == self.tab_width,
            r.font == self.font,
            r.line_offset == self.line_offset,
    {
        let title_bar = self.window_controls || match &self.window_title {
            Some(_) => true,
            None => false,
        };
        ImageFormatter {
            line_pad: self.line_pad,
            code_pad: 25,
            code_pad_top: if title_bar {
                50
            } else {
                0
            },
            title_bar_pad: 15,
            window_controls: self.window_controls,
            window_controls_width: 120,
            window_controls_height: 40,
            window_title: self.window_title,
            line_number: self.line_number,
            line_number_pad: 6,
            line_number_chars: 0,
            highlight_lines: self.highlight_lines,
            round_corner: self.round_corner,
            shadow_adder: self.shadow_adder,
            tab_width: self.tab_width,
            font: self.font,
            line_offset: self.line_offset,
        }
    }
}


/// The cursor after laying out the first `n` spans of a line, starting at
/// `start`: every nonempty span advances it by its text width.
pub open spec fn sp_span_cursor(
    fmt: ImageFormatter,
    line: Seq<(Style, Vec<char>)>,
    start: int,
    n: int,
) -> int
    decreases n,
{
    if n <= 0 {
        start
    } else {
        let prev = sp_span_cursor(fmt, line, start, n - 1);
        let t = sp_span_text(line[n - 1].1@, fmt.tab_width as int);
        if t.len() == 0 {
            prev
        } else {
            prev + sp_text_width(fmt.font, t)
        }
    }
}

/// The commands emitted for the first `n` spans of a line at height `y`:
/// one per nonempty span, at the cursor where the span starts.
pub open spec fn sp_span_cmds(
    fmt: ImageFormatter,
    line: Seq<(Style, Vec<char>)>,
    y: int,
    start: int,
    n: int,
) -> Seq<SpecCommand>
    decreases n,
{
    if n <= 0 {
        Seq::empty()
    } else {
        let prev = sp_span_cmds(fmt, line, y, start, n - 1);
        let t = sp_span_text(line[n - 1].1@, fmt.tab_width as int);
        if t.len() == 0 {
            prev
        } else {
            prev.push(
                SpecCommand {
                    x: sp_span_cursor(fmt, line, start, n - 1),
                    y,
                    color: Some(line[n - 1].0.foreground),
                    style: line[n - 1].0.font_style,
                    text: t,
                },
            )
        }
    }
}

/// The running maximum width after the first `n` spans, threaded through
/// from `acc`.
pub open spec fn sp_span_maxw(
    fmt: ImageFormatter,
    line: Seq<(Style, Vec<char>)>,
    start: int,
    n: int,
    acc: int,
) -> int
    decreases n,
{
    if n <= 0 {
        acc
    } else {
        let prev = sp_span_maxw(fmt, line, start, n - 1, acc);
        let t = sp_span_text(line[n - 1].1@, fmt.tab_width as int);
        if t.len() == 0 {
            prev
        } else {
            let c = sp_span_cursor(fmt, line, start, n);
            if c > prev {
                c
            } else {
                prev
            }
        }
    }
}

/// The commands of the first `n` lines of a document.
pub open spec fn sp_doc_cmds(
    fmt: ImageFormatter,
    v: Seq<Vec<(Style, Vec<char>)>>,
    n: int,
) -> Seq<SpecCommand>
    decreases n,
{
    if n <= 0 {
        Seq::empty()
    } else {
        sp_doc_cmds(fmt, v, n - 1) + sp_span_cmds(
            fmt,
            v[n - 1]@,
            sp_line_y(fmt, n - 1),
            sp_left_pad(fmt),
            v[n - 1]@.len() as int,
        )
    }
}

/// The maximum width over the first `n` lines of a document.
pub open spec fn sp_doc_maxw(fmt: ImageFormatter, v: Seq<Vec<(Style, Vec<char>)>>, n: int) -> int
    decreases n,
{
    if n <= 0 {
        0
    } else {
        sp_span_maxw(
            fmt,
            v[n - 1]@,
            sp_left_pad(fmt),
            v[n - 1]@.len() as int,
            sp_doc_maxw(fmt, v, n - 1),
        )
    }
}

/// Offset taken up by the window controls when a title follows them.
pub open spec fn sp_ctrls_offset(fmt: ImageFormatter) -> int {
    if fmt.window_controls {
        fmt.window_controls_width + fmt.title_bar_pad
    } else {
        0
    }
}

/// The command that draws the window title, if one is configured.
pub open spec fn sp_title_cmds(fmt: ImageFormatter) -> Seq<SpecCommand> {
    match fmt.window_title {
        Option::None => Seq::empty(),
        Option::Some(t) => seq![
            SpecCommand {
                x: sp_ctrls_offset(fmt) + fmt.title_bar_pad,
                y: fmt.title_bar_pad + fmt.window_controls_height as int / 2 - sp_collection_height(
                    fmt.font,
                ) / 2,
                color: None,
                style: FontStyle::BOLD,
                text: t@,
            },
        ],
    }
}

/// The maximum width including the title bar, when a title is configured.
pub open spec fn sp_final_maxw(fmt: ImageFormatter, v: Seq<Vec<(Style, Vec<char>)>>) -> int {
    let m = sp_doc_maxw(fmt, v, v.len() as int);
    match fmt.window_title {
        Option::None => m,
        Option::Some(t) => {
            let tb = sp_ctrls_offset(fmt) + sp_text_width(fmt.font, t@) + 2 * fmt.title_bar_pad;
            if tb > m {
                tb
            } else {
                m
            }
        },
    }
}

/// The last line index: zero for an empty document.
pub open spec fn sp_max_lineno(v: Seq<Vec<(Style, Vec<char>)>>) -> int {
    if v.len() == 0 {
        0
    } else {
        v.len() - 1
    }
}

/// Cursors stay within `start` plus the span budget.
proof fn lemma_span_cursor_bounds(
    fmt: ImageFormatter,
    line: Seq<(Style, Vec<char>)>,
    start: int,
    n: int,
)
    requires
        fmt_wf(fmt),
        0 <= start,
        0 <= n <= line.len(),
        forall|j: int| 0 <= j < line.len() ==> (#[trigger] line[j]).1@.len() <= 0x1_0000,
    ensures
        start <= sp_span_cursor(fmt, line, start, n) <= start + n * 0x4_0000_0000_0000,
    decreases n,
{
    if n > 0 {
        lemma_span_cursor_bounds(fmt, line, start, n - 1);
        let t0 = line[n - 1].1@;
        lemma_trim_newlines_len(t0);
        lemma_expand_tabs_len(sp_trim_newlines(t0), fmt.tab_width as int);
        let t = sp_span_text(t0, fmt.tab_width as int);
        assert(sp_trim_newlines(t0).len() * (if fmt.tab_width as int > 1 {
            fmt.tab_width as int
        } else {
            1
        }) <= 0x1_0000 * 0x100) by (nonlinear_arith)
            requires
                sp_trim_newlines(t0).len() <= 0x1_0000,
                (if fmt.tab_width as int > 1 {
                    fmt.tab_width as int
                } else {
                    1
                }) <= 0x100,
        ;
        crate::font::lemma_text_width_bounds(fmt.font, t);
        assert(t.len() * 0x0400_0000 <= 0x100_0000 * 0x0400_0000) by (nonlinear_arith)
            requires
                t.len() <= 0x100_0000,
        ;
        assert(n * 0x4_0000_0000_0000 == (n - 1) * 0x4_0000_0000_0000 + 0x4_0000_0000_0000)
            by (nonlinear_arith);
    } else {
        assert(n * 0x4_0000_0000_0000 >= 0) by (nonlinear_arith)
            requires
                n >= 0,
        ;
    }
}

/// The running maximum is bounded by the largest cursor seen and the
/// accumulator.
proof fn lemma_span_maxw_bounds(
    fmt: ImageFormatter,
    line: Seq<(Style, Vec<char>)>,
    start: int,
    n: int,
    acc: int,
)
    requires
        fmt_wf(fmt),
        0 <= start,
        0 <= acc,
        0 <= n <= line.len(),
        forall|j: int| 0 <= j < line.len() ==> (#[trigger] line[j]).1@.len() <= 0x1_0000,
    ensures
        acc <= sp_span_maxw(fmt, line, start, n, acc),
        sp_span_maxw(fmt, line, start, n, acc) <= (if start + n * 0x4_0000_0000_0000 > acc {
            start + n * 0x4_0000_0000_0000
        } else {
            acc
        }),
    decreases n,
{
    if n > 0 {
        lemma_span_maxw_bounds(fmt, line, start, n - 1, acc);
        lemma_span_cursor_bounds(fmt, line, start, n);
        assert((n - 1) * 0x4_0000_0000_0000 <= n * 0x4_0000_0000_0000) by (nonlinear_arith)
            requires
                n >= 1,
        ;
    } else {
        assert(n * 0x4_0000_0000_0000 >= 0) by (nonlinear_arith)
            requires
                n >= 0,
        ;
    }
}

/// The padded zero of the gutter has at most `width + 11` characters.
proof fn lemma_padded_number_len(n: int, width: int)
    requires
        0 <= n <= 0x2_0000_0000,
        0 <= width,
    ensures
        1 <= sp_padded_number(n, width).len() <= width + 11,
{
    lemma_number_chars_len(n);
    lemma_digits10_le_11(n);
}

/// The left pad is nonnegative and bounded.
pub proof fn lemma_left_pad_bounds(fmt: ImageFormatter)
    requires
        fmt_wf(fmt),
    ensures
        0 <= sp_left_pad(fmt) <= 0x11_0000_0000,
{
    if fmt.line_number {
        lemma_padded_number_len(0, fmt.line_number_chars as int);
        let tmp = sp_padded_number(0, fmt.line_number_chars as int);
        crate::font::lemma_text_width_bounds(fmt.font, tmp);
        assert(tmp.len() * 0x0400_0000 <= 0x414 * 0x0400_0000) by (nonlinear_arith)
            requires
                tmp.len() <= 0x414,
        ;
    }
}

/// The document-wide maximum width is bounded.
proof fn lemma_doc_maxw_bounds(fmt: ImageFormatter, v: Seq<Vec<(Style, Vec<char>)>>, n: int)
    requires
        fmt_wf(fmt),
        sp_doc_ok(v),
        0 <= n <= v.len(),
    ensures
        0 <= sp_doc_maxw(fmt, v, n) <= 0x11_0000_0000 + 0x1000 * 0x4_0000_0000_0000,
    decreases n,
{
    lemma_left_pad_bounds(fmt);
    if n > 0 {
        lemma_doc_maxw_bounds(fmt, v, n - 1);
        assert((v[n - 1])@.len() <= 0x1000);
        assert(forall|j: int|
            0 <= j < v[n - 1]@.len() ==> (#[trigger] (v[n - 1]@[j])).1@.len() <= 0x1_0000);
        lemma_span_maxw_bounds(
            fmt,
            v[n - 1]@,
            sp_left_pad(fmt),
            v[n - 1]@.len() as int,
            sp_doc_maxw(fmt, v, n - 1),
        );
        assert(v[n - 1]@.len() as int * 0x4_0000_0000_0000 <= 0x1000 * 0x4_0000_0000_0000)
            by (nonlinear_arith)
            requires
                v[n - 1]@.len() <= 0x1000,
        ;
    }
}

impl ImageFormatter {
    /// Lay the document out: one command per nonempty span and one for the
    /// window title, together with the extents that will size the canvas.
    /// Positions accumulate left to right within a line and top to bottom
    /// across lines, so every command lies within the returned extents.
    #[verifier::rlimit(50)]
    pub fn create_drawables(&self, v: &Vec<Vec<(Style, Vec<char>)>>) -> (d: Drawable)
        requires
            fmt_wf(*self),
            sp_doc_ok(v@),
        ensures
            d.max_width == sp_final_maxw(*self, v@),
            d.max_lineno == sp_max_lineno(v@),
            sp_views(d.drawables@) == sp_doc_cmds(*self, v@, v@.len() as int) + sp_title_cmds(
                *self,
            ),
            d.max_width <= 0x12_0000_0000 + 0x1000 * 0x4_0000_0000_0000,
    {
        let mut drawables: Vec<DrawCommand> = Vec::new();
        let mut max_width: u64 = 0;
        let mut max_lineno: u32 = 0;
        let left_pad = self.get_left_pad();
        let nlines = v.len();
        let mut i: usize = 0;
        proof {
            assert(sp_views(drawables@) =~= sp_doc_cmds(*self, v@, 0));
        }
        while i < nlines
            invariant
                i <= nlines,
                nlines == v@.len() <= 0x100_0000,
                fmt_wf(*self),
                sp_doc_ok(v@),
                left_pad == sp_left_pad(*self),
                left_pad <= 0x11_0000_0000,
                max_width == sp_doc_maxw(*self, v@, i as int),
                max_width <= 0x11_0000_0000 + 0x1000 * 0x4_0000_0000_0000,
                max_lineno == (if i == 0 {
                    0int
                } else {
                    i - 1
                }),
                sp_views(drawables@) == sp_doc_cmds(*self, v@, i as int),
            decreases nlines - i,
        {
            let height = self.get_line_y(i as u32);
            let mut width: u64 = left_pad;
            let line = &v[i];
            let nspans = line.len();
            let ghost lview = v@[i as int]@;
            let mut j: usize = 0;
            proof {
                lemma_doc_maxw_bounds(*self, v@, i as int);
                assert((v@[i as int])@.len() <= 0x1000);
                assert(sp_doc_cmds(*self, v@, i as int) + sp_span_cmds(*self, lview,
                    sp_line_y(*self, i as int), left_pad as int, 0) =~= sp_doc_cmds(*self, v@,
                    i as int));
            }
            while j < nspans
                invariant
                    j <= nspans,
                    i < nlines,
                    nlines == v@.len() <= 0x100_0000,
                    fmt_wf(*self),
                    sp_doc_ok(v@),
                    lview == v@[i as int]@,
                    nspans == lview.len() <= 0x1000,
                    line@ == lview,
                    left_pad == sp_left_pad(*self),
                    left_pad <= 0x11_0000_0000,
                    height == sp_line_y(*self, i as int),
                    width == sp_span_cursor(*self, lview, left_pad as int, j as int),
                    width <= 0x11_0000_0000 + 0x1_0000_0000_0000_0000 - 0x4_0000_0000_0000,
                    max_width == sp_span_maxw(*self, lview, left_pad as int, j as int,
                        sp_doc_maxw(*self, v@, i as int)),
                    max_width <= 0x11_0000_0000 + 0x1_0000_0000_0000_0000
                        - 0x4_0000_0000_0000,
                    sp_views(drawables@) == sp_doc_cmds(*self, v@, i as int) + sp_span_cmds(
                        *self,
                        lview,
                        sp_line_y(*self, i as int),
                        left_pad as int,
                        j as int,
                    ),
                decreases nspans - j,
            {
                let span = &line[j];
                proof {
                    assert((v@[i as int]@[j as int]).1@.len() <= 0x1_0000);
                    assert(span.1@ == lview[j as int].1@);
                    lemma_doc_maxw_bounds(*self, v@, i as int);
                    lemma_span_cursor_bounds(*self, lview, left_pad as int, j + 1);
                    lemma_span_maxw_bounds(*self, lview, left_pad as int, j + 1,
                        sp_doc_maxw(*self, v@, i as int));
                    assert((j + 1) * 0x4_0000_0000_0000 <= 0x1000 * 0x4_0000_0000_0000)
                        by (nonlinear_arith)
                        requires
                            j + 1 <= 0x1000,
                    ;
                }
                let text = span_text(&span.1, self.tab_width);
                proof {
                    lemma_trim_newlines_len(lview[j as int].1@);
                    lemma_expand_tabs_len(
                        sp_trim_newlines(lview[j as int].1@),
                        self.tab_width as int,
                    );
                    assert(sp_trim_newlines(lview[j as int].1@).len() * (
                    if self.tab_width as int > 1 {
                        self.tab_width as int
                    } else {
                        1
                    }) <= 0x1_0000 * 0x100) by (nonlinear_arith)
                        requires
                            sp_trim_newlines(lview[j as int].1@).len() <= 0x1_0000,
                            (if self.tab_width as int > 1 {
                                self.tab_width as int
                            } else {
                                1
                            }) <= 0x100,
                    ;
                    assert(text@ == sp_span_text(lview[j as int].1@, self.tab_width as int));
                }
                if text.len() == 0 {
                    proof {
                        assert(sp_span_cursor(*self, lview, left_pad as int, j + 1) == width);
                        assert(sp_span_cmds(*self, lview, sp_line_y(*self, i as int),
                            left_pad as int, j + 1) == sp_span_cmds(*self, lview,
                            sp_line_y(*self, i as int), left_pad as int, j as int));
                        assert(sp_span_maxw(*self, lview, left_pad as int, j + 1,
                            sp_doc_maxw(*self, v@, i as int)) == max_width);
                    }
                    j = j + 1;
                    continue ;
                }
                let ghost g0 = drawables@;
                let cmd = DrawCommand {
                    x: width,
                    y: height,
                    color: Some(span.0.foreground),
                    style: span.0.font_style,
                    text,
                };
                let ghost gcmd = cmd;
                let tlen = self.font.get_text_len(&cmd.text);
                proof {
                    crate::font::lemma_text_width_bounds(self.font, cmd.text@);
                    assert(cmd.text@.len() * 0x0400_0000 <= 0x100_0000 * 0x0400_0000)
                        by (nonlinear_arith)
                        requires
                            cmd.text@.len() <= 0x100_0000,
                    ;
                }
                drawables.push(cmd);
                width = width + tlen;
                if width > max_width {
                    max_width = width;
                }
                proof {
                    vstd::seq::axiom_seq_push_len(g0, gcmd);
                    vstd::seq::axiom_seq_push_index_same(g0, gcmd, g0.len() as int);
                    assert forall|k: int| 0 <= k < g0.len() implies drawables@[k] == g0[k] by {
                        vstd::seq::axiom_seq_push_index_different(g0, gcmd, k);
                    }
                    assert(sp_span_cursor(*self, lview, left_pad as int, j + 1) == width);
                    assert(sp_span_maxw(*self, lview, left_pad as int, j + 1,
                        sp_doc_maxw(*self, v@, i as int)) == max_width);
                    let b = sp_span_cmds(*self, lview, sp_line_y(*self, i as int),
                        left_pad as int, j as int);
                    let c = SpecCommand {
                        x: sp_span_cursor(*self, lview, left_pad as int, j as int),
                        y: sp_line_y(*self, i as int),
                        color: Some(lview[j as int].0.foreground),
                        style: lview[j as int].0.font_style,
                        text: sp_span_text(lview[j as int].1@, self.tab_width as int),
                    };
                    assert(sp_span_cmds(*self, lview, sp_line_y(*self, i as int),
                        left_pad as int, j + 1) == b.push(c));
                    vstd::seq::axiom_seq_push_len(b, c);
                    vstd::seq::axiom_seq_push_index_same(b, c, b.len() as int);
                    assert forall|k: int| 0 <= k < b.len() implies b.push(c)[k] == b[k] by {
                        vstd::seq::axiom_seq_push_index_different(b, c, k);
                    }
                    assert(gcmd@ == c);
                    let a = sp_doc_cmds(*self, v@, i as int);
                    assert(sp_views(g0).len() == a.len() + b.len());
                    assert forall|k: int| 0 <= k < g0.len() + 1 implies sp_views(drawables@)[k]
                        == (a + b.push(c))[k] by {
                        if k < g0.len() {
                            assert(sp_views(drawables@)[k] == drawables@[k]@);
                            assert(drawables@[k] == g0[k]);
                            assert(sp_views(g0)[k] == g0[k]@);
                            assert(sp_views(g0)[k] == (a + b)[k]);
                            if k < a.len() {
                                assert((a + b)[k] == a[k]);
                                assert((a + b.push(c))[k] == a[k]);
                            } else {
                                assert((a + b)[k] == b[k - a.len()]);
                                assert((a + b.push(c))[k] == b.push(c)[k - a.len()]);
                                assert(b.push(c)[k - a.len()] == b[k - a.len()]);
                            }
                        } else {
                            assert(k == g0.len());
                            assert(sp_views(drawables@)[k] == drawables@[k]@);
                            assert(drawables@[k] == gcmd);
                            assert((a + b.push(c))[k] == b.push(c)[b.len() as int]);
                        }
                    }
                    assert(sp_views(drawables@) =~= a + b.push(c));
                }
                j = j + 1;
            }
            max_lineno = i as u32;
            proof {
                assert(sp_doc_cmds(*self, v@, i + 1) == sp_doc_cmds(*self, v@, i as int)
                    + sp_span_cmds(*self, v@[i as int]@, sp_line_y(*self, i as int),
                    sp_left_pad(*self), v@[i as int]@.len() as int));
                assert(sp_doc_maxw(*self, v@, i + 1) == sp_span_maxw(*self, v@[i as int]@,
                    sp_left_pad(*self), v@[i as int]@.len() as int, sp_doc_maxw(*self, v@,
                    i as int)));
                lemma_doc_maxw_bounds(*self, v@, i + 1);
            }
            i = i + 1;
        }
        match &self.window_title {
            Some(title) => {
                let title_text = title.clone();
                proof {
                    assert(title_text@ == self.window_title->0@);
                }
                let title_width = self.font.get_text_len(&title_text);
                proof {
                    crate::font::lemma_text_width_bounds(self.font, title_text@);
                    assert(title_text@.len() * 0x0400_0000 <= 0x1000 * 0x0400_0000)
                        by (nonlinear_arith)
                        requires
                            title_text@.len() <= 0x1000,
                    ;
                }
                let ctrls_offset: u64 = if self.window_controls {
                    self.window_controls_width as u64 + self.title_bar_pad as u64
                } else {
                    0
                };
                let ctrls_center: u64 = (self.window_controls_height / 2) as u64;
                let fh = self.font.get_font_height() as u64;
                proof {
                    lemma_collection_height_bounds(self.font);
                }
                let ty: u64 = self.title_bar_pad as u64 + ctrls_center - fh / 2;
                let ghost g0 = drawables@;
                let cmd = DrawCommand {
                    x: ctrls_offset + self.title_bar_pad as u64,
                    y: ty,
                    color: None,
                    style: FontStyle::BOLD,
                    text: title_text,
                };
                let ghost gcmd = cmd;
                drawables.push(cmd);
                let title_bar_width = ctrls_offset + title_width + 2 * self.title_bar_pad as u64;
                if title_bar_width > max_width {
                    max_width = title_bar_width;
                }
                proof {
                    vstd::seq::axiom_seq_push_len(g0, gcmd);
                    vstd::seq::axiom_seq_push_index_same(g0, gcmd, g0.len() as int);
                    assert forall|k: int| 0 <= k < g0.len() implies drawables@[k] == g0[k] by {
                        vstd::seq::axiom_seq_push_index_different(g0, gcmd, k);
                    }
                    assert(max_width == sp_final_maxw(*self, v@));
                    assert(sp_views(drawables@) =~= sp_doc_cmds(*self, v@, v@.len() as int)
                        + sp_title_cmds(*self));
                }
            },
            None => {
                proof {
                    assert(sp_views(drawables@) =~= sp_doc_cmds(*self, v@, v@.len() as int)
                        + sp_title_cmds(*self));
                }
            },
        }
        Drawable { max_width, max_lineno, drawables }
    }
}


/// One channel brightened by `amt`, stopping at white.
pub open spec fn sp_sat_add(c: u8, amt: u8) -> u8 {
    if c + amt > 255 {
        255
    } else {
        (c + amt) as u8
    }
}

/// One channel darkened by `amt`, stopping at black.
pub open spec fn sp_sat_sub(c: u8, amt: u8) -> u8 {
    if c < amt {
        0
    } else {
        (c - amt) as u8
    }
}

/// Every channel brightened by 40: the highlight-strip color derived from
/// the pixel sampled at (20, 20).
pub open spec fn sp_brighten(p: Rgba) -> Rgba {
    Rgba {
        r: sp_sat_add(p.r, 40),
        g: sp_sat_add(p.g, 40),
        b: sp_sat_add(p.b, 40),
        a: sp_sat_add(p.a, 40),
    }
}

/// Every channel darkened by 20: the line-number color derived from the
/// theme foreground.
pub open spec fn sp_darken(p: Rgba) -> Rgba {
    Rgba {
        r: sp_sat_sub(p.r, 20),
        g: sp_sat_sub(p.g, 20),
        b: sp_sat_sub(p.b, 20),
        a: sp_sat_sub(p.a, 20),
    }
}

fn sat_add(c: u8, amt: u8) -> (r: u8)
    ensures
        r == sp_sat_add(c, amt),
{
    if c > 255 - amt {
        255
    } else {
        c + amt
    }
}

fn sat_sub(c: u8, amt: u8) -> (r: u8)
    ensures
        r == sp_sat_sub(c, amt),
{
    if c < amt {
        0
    } else {
        c - amt
    }
}

/// The buffer after compositing the translucent highlight strip over the
/// bands of the first `n` configured lines; indices outside
/// [1, `maxlineno` + 1] change nothing.
pub open spec fn sp_highlights(
    fmt: ImageFormatter,
    d: Seq<Rgba>,
    wid: int,
    maxlineno: int,
    n: int,
) -> Seq<Rgba>
    decreases n,
{
    if n <= 0 {
        d
    } else {
        let prev = sp_highlights(fmt, d, wid, maxlineno, n - 1);
        let ln = fmt.highlight_lines@[n - 1];
        if 1 <= ln <= maxlineno + 1 {
            let color = sp_brighten(d[20 * wid + 20]);
            let strip = Seq::new((wid * sp_line_height(fmt)) as nat, |k: int| color);
            sp_paste_alpha(
                prev,
                wid,
                strip,
                wid,
                sp_line_height(fmt),
                0,
                sp_line_y(fmt, ln - 1),
            )
        } else {
            prev
        }
    }
}

/// The buffer after drawing the first `n` line numbers in the gutter.
pub open spec fn sp_line_numbers(
    fmt: ImageFormatter,
    d: Seq<Rgba>,
    dw: int,
    dh: int,
    fg: Rgba,
    n: int,
) -> Seq<Rgba>
    decreases n,
{
    if n <= 0 {
        d
    } else {
        sp_draw_text(
            sp_line_numbers(fmt, d, dw, dh, fg, n - 1),
            dw,
            dh,
            fmt.font,
            fg,
            fmt.code_pad as int,
            sp_line_y(fmt, n - 1),
            sp_padded_number(n - 1 + fmt.line_offset, fmt.line_number_chars as int),
        )
    }
}

/// The buffer after drawing the first `n` glyph commands; a command without
/// a color renders in the theme foreground.
pub open spec fn sp_draw_cmds(
    fmt: ImageFormatter,
    theme: Theme,
    d: Seq<Rgba>,
    dw: int,
    dh: int,
    cmds: Seq<SpecCommand>,
    n: int,
) -> Seq<Rgba>
    decreases n,
{
    if n <= 0 {
        d
    } else {
        let c = cmds[n - 1];
        sp_draw_text(
            sp_draw_cmds(fmt, theme, d, dw, dh, cmds, n - 1),
            dw,
            dh,
            fmt.font,
            (if c.color is Some {
                c.color->0
            } else {
                theme.foreground
            }),
            c.x,
            c.y,
            c.text,
        )
    }
}

/// Line bands never move up as the line index grows.
pub proof fn lemma_line_y_mono(fmt: ImageFormatter, a: int, b: int)
    requires
        fmt_wf(fmt),
        0 <= a <= b,
    ensures
        sp_line_y(fmt, a) <= sp_line_y(fmt, b),
        sp_line_y(fmt, a) >= 0,
{
    lemma_collection_height_bounds(fmt.font);
    assert(a * sp_line_height(fmt) <= b * sp_line_height(fmt)) by (nonlinear_arith)
        requires
            a <= b,
            sp_line_height(fmt) >= 0,
    ;
    assert(a * sp_line_height(fmt) >= 0) by (nonlinear_arith)
        requires
            a >= 0,
            sp_line_height(fmt) >= 0,
    ;
}

/// The parameters of the window-control strip: the configured strip with
/// the title-bar pad and a radius of one twelfth of the width.
pub open spec fn sp_wc_params(fmt: ImageFormatter) -> WindowControlsParams {
    WindowControlsParams {
        width: fmt.window_controls_width,
        height: fmt.window_controls_height,
        padding: fmt.title_bar_pad,
        radius: (fmt.window_controls_width / 3 / 4) as u32,
    }
}

/// The formatter as a render prepares it: the gutter width is computed from
/// the line count and offset, or zeroed (with its pad) when line numbers
/// are off.
pub open spec fn sp_prepared(fmt: ImageFormatter, v: Seq<Vec<(Style, Vec<char>)>>) -> ImageFormatter {
    if fmt.line_number {
        ImageFormatter {
            line_number_chars: sp_gutter_chars(v.len() as int, fmt.line_offset as int) as u32,
            ..fmt
        }
    } else {
        ImageFormatter { line_number_chars: 0, line_number_pad: 0, ..fmt }
    }
}

/// Whether a render of this document fits the library's size limits; when
/// it does not, `format` returns an error instead of a canvas.
pub open spec fn sp_render_ok(fmt: ImageFormatter, v: Seq<Vec<(Style, Vec<char>)>>) -> bool {
    let wid = sp_image_width(fmt, sp_final_maxw(fmt, v));
    let hei = sp_image_height(fmt, sp_max_lineno(v));
    &&& wid <= 0x0100_0000
    &&& hei <= 0x0100_0000
    &&& wid * hei <= usize::MAX
    &&& (fmt.window_controls ==> hei >= 38 && fmt.title_bar_pad + fmt.window_controls_width <= wid
        && fmt.title_bar_pad + fmt.window_controls_height <= hei)
    &&& (fmt.round_corner ==> hei >= 12)
    &&& (fmt.highlight_lines@.len() > 0 ==> hei >= 21)
    &&& (fmt.shadow_adder is Some ==> ({
        let s = fmt.shadow_adder->0;
        let nw = wid + 2 * s.pad_horiz;
        let nh = hei + 2 * s.pad_vert;
        &&& nw <= 0x0100_0000
        &&& nh <= 0x0100_0000
        &&& nw * nh <= usize::MAX
        &&& (s.background is Image ==> 16 * nw * nh <= usize::MAX && 16 * 0x2000 * nh
            <= usize::MAX)
    }))
}

/// The size of the finished image, shadow padding included.
pub open spec fn sp_render_size(fmt0: ImageFormatter, v: Seq<Vec<(Style, Vec<char>)>>) -> (
    int,
    int,
) {
    let fmt = sp_prepared(fmt0, v);
    let wid = sp_image_width(fmt, sp_final_maxw(fmt, v));
    let hei = sp_image_height(fmt, sp_max_lineno(v));
    match fmt.shadow_adder {
        Option::None => (wid, hei),
        Option::Some(s) => (wid + 2 * s.pad_horiz, hei + 2 * s.pad_vert),
    }
}

/// The finished image: background, highlight strips, line numbers, glyph
/// commands, window controls, rounded corners and drop shadow, stacked in
/// that order.
pub open spec fn sp_render(
    fmt0: ImageFormatter,
    v: Seq<Vec<(Style, Vec<char>)>>,
    theme: Theme,
) -> Seq<Rgba> {
    let fmt = sp_prepared(fmt0, v);
    let ml = sp_max_lineno(v);
    let wid = sp_image_width(fmt, sp_final_maxw(fmt, v));
    let hei = sp_image_height(fmt, ml);
    let bg = Seq::new((wid * hei) as nat, |k: int| theme.background);
    let h1 = if fmt.highlight_lines@.len() > 0 {
        sp_highlights(fmt, bg, wid, ml, fmt.highlight_lines@.len() as int)
    } else {
        bg
    };
    let h2 = if fmt.line_number {
        sp_line_numbers(fmt, h1, wid, hei, sp_darken(theme.foreground), ml + 1)
    } else {
        h1
    };
    let cmds = sp_doc_cmds(fmt, v, v.len() as int) + sp_title_cmds(fmt);
    let h3 = sp_draw_cmds(fmt, theme, h2, wid, hei, cmds, cmds.len() as int);
    let h4 = if fmt.window_controls {
        sp_window_controls(h3, wid, sp_wc_params(fmt))
    } else {
        h3
    };
    let h5 = if fmt.round_corner {
        sp_round_corner(h4, wid, hei, 12)
    } else {
        h4
    };
    match fmt.shadow_adder {
        Option::None => h5,
        Option::Some(s) => sp_apply_shadow(h5, wid, hei, s),
    }
}

/// Every span command's text is bounded by the expanded span budget.
proof fn lemma_span_cmds_text_len(
    fmt: ImageFormatter,
    line: Seq<(Style, Vec<char>)>,
    y: int,
    start: int,
    n: int,
)
    requires
        fmt_wf(fmt),
        0 <= n <= line.len(),
        forall|j: int| 0 <= j < line.len() ==> (#[trigger] line[j]).1@.len() <= 0x1_0000,
    ensures
        forall|k: int|
            0 <= k < sp_span_cmds(fmt, line, y, start, n).len() ==> (#[trigger] sp_span_cmds(
                fmt,
                line,
                y,
                start,
                n,
            )[k]).text.len() <= 0x100_0000,
    decreases n,
{
    if n > 0 {
        lemma_span_cmds_text_len(fmt, line, y, start, n - 1);
        let t0 = line[n - 1].1@;
        lemma_trim_newlines_len(t0);
        lemma_expand_tabs_len(sp_trim_newlines(t0), fmt.tab_width as int);
        assert(sp_trim_newlines(t0).len() * (if fmt.tab_width as int > 1 {
            fmt.tab_width as int
        } else {
            1
        }) <= 0x1_0000 * 0x100) by (nonlinear_arith)
            requires
                sp_trim_newlines(t0).len() <= 0x1_0000,
                (if fmt.tab_width as int > 1 {
                    fmt.tab_width as int
                } else {
                    1
                }) <= 0x100,
        ;
    }
}

/// Every command's text is bounded.
proof fn lemma_doc_cmds_text_len(fmt: ImageFormatter, v: Seq<Vec<(Style, Vec<char>)>>, n: int)
    requires
        fmt_wf(fmt),
        sp_doc_ok(v),
        0 <= n <= v.len(),
    ensures
        forall|k: int|
            0 <= k < sp_doc_cmds(fmt, v, n).len() ==> (#[trigger] sp_doc_cmds(fmt, v, n)[k])
                .text.len() <= 0x100_0000,
    decreases n,
{
    if n > 0 {
        lemma_doc_cmds_text_len(fmt, v, n - 1);
        assert((v[n - 1])@.len() <= 0x1000);
        assert(forall|j: int|
            0 <= j < v[n - 1]@.len() ==> (#[trigger] (v[n - 1]@[j])).1@.len() <= 0x1_0000);
        lemma_span_cmds_text_len(
            fmt,
            v[n - 1]@,
            sp_line_y(fmt, n - 1),
            sp_left_pad(fmt),
            v[n - 1]@.len() as int,
        );
    }
}

impl ImageFormatter {
    /// Composite the highlight strip over each configured line's band;
    /// indices outside [1, `maxlineno` + 1] are silently ignored.
    #[verifier::rlimit(50)]
    fn highlight_rows(&self, image: &mut Canvas, maxlineno: u32)
        requires
            fmt_wf(*self),
            old(image).wf(),
            old(image).spec_width() >= 21,
            old(image).spec_height() >= 21,
            maxlineno <= 0x100_0000,
            old(image).spec_height() as int >= sp_image_height(*self, maxlineno as int)
                - self.code_pad,
            old(image).spec_width() <= 0x0100_0000,
            old(image).spec_height() <= 0x0100_0000,
            old(image).spec_width() as int * old(image).spec_height() as int <= usize::MAX,
            sp_line_height(*self) <= old(image).spec_height(),
        ensures
            final(image).wf(),
            final(image).spec_width() == old(image).spec_width(),
            final(image).spec_height() == old(image).spec_height(),
            final(image)@ == sp_highlights(
                *self,
                old(image)@,
                old(image).spec_width() as int,
                maxlineno as int,
                self.highlight_lines@.len() as int,
            ),
    {
        let ghost d = image@;
        let ghost wid = image.spec_width() as int;
        let width = image.width();
        let lh64 = self.get_line_height();
        let lh: u32 = lh64 as u32;
        proof {
            lemma_collection_height_bounds(self.font);
        }
        let mut color = image.get_pixel(20, 20);
        color = Rgba {
            r: sat_add(color.r, 40),
            g: sat_add(color.g, 40),
            b: sat_add(color.b, 40),
            a: sat_add(color.a, 40),
        };
        proof {
            image.lemma_index_in_bounds(20, 20);
            assert(color == sp_brighten(d[20 * wid + 20]));
            let gh = old(image).spec_height() as int;
            assert(width as int * lh as int <= width as int * gh) by (nonlinear_arith)
                requires
                    lh <= gh,
                    width >= 0,
            ;
        }
        let shadow = Canvas::from_pixel(width, lh, color);
        let n = self.highlight_lines.len();
        let mut i: usize = 0;
        while i < n
            invariant
                i <= n,
                n == self.highlight_lines@.len() <= 0x100_0000,
                fmt_wf(*self),
                maxlineno <= 0x100_0000,
                image.wf(),
                image.spec_width() == old(image).spec_width(),
                image.spec_height() == old(image).spec_height(),
                d == old(image)@,
                wid == old(image).spec_width() as int,
                width == old(image).spec_width(),
                width <= 0x0100_0000,
                lh == sp_line_height(*self),
                lh <= old(image).spec_height(),
                old(image).spec_height() as int >= sp_image_height(*self, maxlineno as int)
                    - self.code_pad,
                shadow.wf(),
                shadow.spec_width() == width,
                shadow.spec_height() == lh,
                shadow@ == Seq::new((wid * sp_line_height(*self)) as nat,
                    |k: int| sp_brighten(d[20 * wid + 20])),
                image@ == sp_highlights(*self, d, wid, maxlineno as int, i as int),
            decreases n - i,
        {
            let ln = self.highlight_lines[i];
            if 1 <= ln && ln <= maxlineno + 1 {
                let y64 = self.get_line_y(ln - 1);
                proof {
                    lemma_line_y_mono(*self, ln - 1, maxlineno as int);
                    lemma_line_y_mono(*self, maxlineno as int, maxlineno + 1);
                    assert((maxlineno + 1) * sp_line_height(*self) == maxlineno as int
                        * sp_line_height(*self) + sp_line_height(*self)) by (nonlinear_arith);
                    assert((ln - 1 + 1) * sp_line_height(*self) == (ln - 1) * sp_line_height(
                        *self,
                    ) + sp_line_height(*self)) by (nonlinear_arith);
                    assert(ln as int * sp_line_height(*self) <= (maxlineno + 1)
                        * sp_line_height(*self)) by (nonlinear_arith)
                        requires
                            ln <= maxlineno + 1,
                            sp_line_height(*self) >= 0,
                    ;
                }
                let y: u32 = y64 as u32;
                copy_alpha(&shadow, image, 0, y);
            }
            i = i + 1;
        }
    }

    /// Draw the gutter: every line number from the offset up, right-aligned
    /// in the reserved digits, in the given color darkened by 20 on every
    /// channel.
    pub fn draw_line_number(&self, image: &mut Canvas, lineno: u32, color: Rgba)
        requires
            fmt_wf(*self),
            old(image).wf(),
            lineno <= 0x100_0000,
            old(image).spec_width() <= 0x0100_0000,
            old(image).spec_height() <= 0x0100_0000,
        ensures
            final(image).wf(),
            final(image).spec_width() == old(image).spec_width(),
            final(image).spec_height() == old(image).spec_height(),
            final(image)@ == sp_line_numbers(
                *self,
                old(image)@,
                old(image).spec_width() as int,
                old(image).spec_height() as int,
                sp_darken(color),
                lineno + 1,
            ),
    {
        let ghost d = image@;
        let ghost dw = image.spec_width() as int;
        let ghost dh = image.spec_height() as int;
        let color = Rgba {
            r: sat_sub(color.r, 20),
            g: sat_sub(color.g, 20),
            b: sat_sub(color.b, 20),
            a: sat_sub(color.a, 20),
        };
        let mut i: u32 = 0;
        while i <= lineno
            invariant
                i <= lineno + 1,
                lineno <= 0x100_0000,
                fmt_wf(*self),
                image.wf(),
                image.spec_width() == old(image).spec_width(),
                image.spec_height() == old(image).spec_height(),
                old(image).spec_width() <= 0x0100_0000,
                old(image).spec_height() <= 0x0100_0000,
                d == old(image)@,
                dw == old(image).spec_width() as int,
                dh == old(image).spec_height() as int,
                image@ == sp_line_numbers(*self, d, dw, dh, color, i as int),
            decreases lineno + 1 - i,
        {
            let num = format_line_number(i as u64 + self.line_offset as u64,
                self.line_number_chars);
            let y = self.get_line_y(i);
            self.font.draw_text_mut(image, color, self.code_pad as u64, y,
                FontStyle::REGULAR, &num);
            i = i + 1;
        }
    }

    /// Render the document: compute the gutter width and the drawables, size
    /// the canvas, and stack every layer in order.  The canvas is returned
    /// when it fits the library's limits; the same inputs always produce the
    /// same pixels.
    #[verifier::rlimit(50)]
    pub fn format(&mut self, v: &Vec<Vec<(Style, Vec<char>)>>, theme: &Theme) -> (r: Result<
        Canvas,
        RenderError,
    >)
        requires
            fmt_wf(*old(self)),
            sp_doc_ok(v@),
        ensures
            *final(self) == sp_prepared(*old(self), v@),
            r is Ok <==> sp_render_ok(sp_prepared(*old(self), v@), v@),
            r is Ok ==> ({
                let out = r->Ok_0;
                &&& out.wf()
                &&& out.spec_width() == sp_render_size(*old(self), v@).0
                &&& out.spec_height() == sp_render_size(*old(self), v@).1
                &&& out@ == sp_render(*old(self), v@, *theme)
            }),
    {
        if self.line_number {
            let total: u64 = v.len() as u64 + self.line_offset as u64;
            let chars: u32 = if total == 0 {
                0
            } else {
                digits10(total - 1)
            };
            self.line_number_chars = chars;
        } else {
            self.line_number_chars = 0;
            self.line_number_pad = 0;
        }
        proof {
            assert(*self == sp_prepared(*old(self), v@));
        }
        let ghost fmt = *self;
        let drawables = self.create_drawables(v);
        let size = self.get_image_size(drawables.max_width, drawables.max_lineno);
        let wid64 = size.0;
        let hei64 = size.1;
        if wid64 > 0x0100_0000 || hei64 > 0x0100_0000 {
            return Err(RenderError::TooLarge);
        }
        proof {
            assert(usize::MAX as u64 == usize::MAX);
            assert(wid64 * hei64 <= 0x0100_0000 * 0x0100_0000) by (nonlinear_arith)
                requires
                    wid64 <= 0x0100_0000,
                    hei64 <= 0x0100_0000,
            ;
        }
        if wid64 * hei64 > usize::MAX as u64 {
            return Err(RenderError::TooLarge);
        }
        let wid: u32 = wid64 as u32;
        let hei: u32 = hei64 as u32;
        if self.window_controls {
            if hei < 38 || self.title_bar_pad + self.window_controls_width > wid
                || self.title_bar_pad + self.window_controls_height > hei {
                return Err(RenderError::TooLarge);
            }
        }
        if self.round_corner && hei < 12 {
            return Err(RenderError::TooLarge);
        }
        if self.highlight_lines.len() > 0 && hei < 21 {
            return Err(RenderError::TooLarge);
        }
        proof {
            lemma_collection_height_bounds(self.font);
            assert((drawables.max_lineno as int + 1) * sp_line_height(*self) >= sp_line_height(
                *self,
            )) by (nonlinear_arith)
                requires
                    drawables.max_lineno >= 0,
                    sp_line_height(*self) >= 0,
            ;
            assert(sp_line_height(*self) <= hei64);
            assert(hei64 >= 1);
        }
        match &self.shadow_adder {
            Some(adder) => {
                let nw64: u64 = wid64 + 2 * adder.pad_horiz as u64;
                let nh64: u64 = hei64 + 2 * adder.pad_vert as u64;
                if nw64 > 0x0100_0000 || nh64 > 0x0100_0000 {
                    return Err(RenderError::TooLarge);
                }
                proof {
                    assert(usize::MAX as u64 == usize::MAX);
                    assert(nw64 * nh64 <= 0x0100_0000 * 0x0100_0000) by (nonlinear_arith)
                        requires
                            nw64 <= 0x0100_0000,
                            nh64 <= 0x0100_0000,
                    ;
                }
                if nw64 * nh64 > usize::MAX as u64 {
                    return Err(RenderError::TooLarge);
                }
                let backdrop_is_image = match &adder.background {
                    Background::Image(_) => true,
                    Background::Solid(_) => false,
                };
                if backdrop_is_image {
                    proof {
                        assert(16 * (nw64 as int * nh64 as int) == 16 * nw64 as int
                            * nh64 as int) by (nonlinear_arith);
                    }
                    if 16 * (nw64 * nh64) > usize::MAX as u64 {
                        return Err(RenderError::TooLarge);
                    }
                    if 0x2_0000 * nh64 > usize::MAX as u64 {
                        return Err(RenderError::TooLarge);
                    }
                }
                proof {
                    assert(sp_render_ok(fmt, v@));
                }
            },
            None => {
                proof {
                    assert(sp_render_ok(fmt, v@));
                }
            },
        }
        proof {
            assert(sp_render_ok(fmt, v@));
        }
        let mut image = Canvas::from_pixel(wid, hei, theme.background);
        let ghost bg = image@;
        if self.highlight_lines.len() > 0 {
            proof {
                lemma_line_y_mono(*self, 0, drawables.max_lineno as int);
            }
            self.highlight_rows(&mut image, drawables.max_lineno);
        }
        if self.line_number {
            self.draw_line_number(&mut image, drawables.max_lineno, theme.foreground);
        }
        let ghost h2 = image@;
        let ghost cmds = sp_doc_cmds(fmt, v@, v@.len() as int) + sp_title_cmds(fmt);
        let ncmds = drawables.drawables.len();
        let mut k: usize = 0;
        proof {
            assert(sp_views(drawables.drawables@) == cmds);
        }
        while k < ncmds
            invariant
                k <= ncmds,
                ncmds == drawables.drawables@.len(),
                fmt_wf(*self),
                fmt == *self,
                image.wf(),
                image.spec_width() == wid,
                image.spec_height() == hei,
                wid <= 0x0100_0000,
                hei <= 0x0100_0000,
                sp_doc_ok(v@),
                cmds == sp_views(drawables.drawables@),
                cmds == sp_doc_cmds(fmt, v@, v@.len() as int) + sp_title_cmds(fmt),
                image@ == sp_draw_cmds(fmt, *theme, h2, wid as int, hei as int, cmds, k as int),
            decreases ncmds - k,
        {
            let cmd = &drawables.drawables[k];
            let color = match &cmd.color {
                Some(c) => *c,
                None => theme.foreground,
            };
            proof {
                assert(cmds[k as int] == drawables.drawables@[k as int]@);
                assert(cmds[k as int].text == cmd.text@);
                lemma_doc_cmds_text_len(fmt, v@, v@.len() as int);
                let a = sp_doc_cmds(fmt, v@, v@.len() as int);
                if k < a.len() {
                    assert(cmds[k as int] == a[k as int]);
                } else {
                    assert(cmds.len() == a.len() + sp_title_cmds(fmt).len());
                    assert(sp_views(drawables.drawables@).len() == drawables.drawables@.len());
                    assert(k < cmds.len());
                    assert(k - a.len() < sp_title_cmds(fmt).len());
                    if fmt.window_title is Some {
                        assert(sp_title_cmds(fmt).len() == 1);
                        assert(k as int == a.len());
                        assert(cmds[k as int] == sp_title_cmds(fmt)[0]);
                        assert(sp_title_cmds(fmt)[0].text == fmt.window_title->0@);
                    } else {
                        assert(sp_title_cmds(fmt).len() == 0);
                        assert(false);
                    }
                }
                assert(cmd.text@.len() <= 0x0100_0000);
            }
            self.font.draw_text_mut(&mut image, color, cmd.x, cmd.y, cmd.style, &cmd.text);
            k = k + 1;
        }
        if self.window_controls {
            let params = WindowControlsParams {
                width: self.window_controls_width,
                height: self.window_controls_height,
                padding: self.title_bar_pad,
                radius: self.window_controls_width / 3 / 4,
            };
            proof {
                assert(params == sp_wc_params(fmt));
            }
            add_window_controls(&mut image, &params);
        }
        if self.round_corner {
            round_corner(&mut image, 12);
        }
        match &self.shadow_adder {
            Some(adder) => {
                let out = adder.apply_to(&image);
                Ok(out)
            },
            None => Ok(image),
        }
    }
}


/// Rendering is deterministic: the pixels of a render are a function of the
/// document, the theme and the configuration alone, so equal inputs give
/// byte-identical buffers.  `format` ensures its result equals `sp_render`
/// of its inputs, so two calls on equal inputs return equal canvases.
pub proof fn lemma_render_deterministic(
    fmt1: ImageFormatter,
    fmt2: ImageFormatter,
    v1: Seq<Vec<(Style, Vec<char>)>>,
    v2: Seq<Vec<(Style, Vec<char>)>>,
    theme1: Theme,
    theme2: Theme,
)
    requires
        fmt1 == fmt2,
        v1 == v2,
        theme1 == theme2,
    ensures
        sp_render(fmt1, v1, theme1) == sp_render(fmt2, v2, theme2),
        sp_render_size(fmt1, v1) == sp_render_size(fmt2, v2),
{
}

/// A highlight index outside [1, line count] does not affect the output:
/// the fold step for such an index is the identity.
pub proof fn lemma_highlight_out_of_range_ignored(
    fmt: ImageFormatter,
    d: Seq<Rgba>,
    wid: int,
    maxlineno: int,
    n: int,
)
    requires
        1 <= n <= fmt.highlight_lines@.len(),
        !(1 <= fmt.highlight_lines@[n - 1] <= maxlineno + 1),
    ensures
        sp_highlights(fmt, d, wid, maxlineno, n) == sp_highlights(fmt, d, wid, maxlineno, n - 1),
{
}

/// Canvas dimensions are monotone: increasing the line pad, the code pad or
/// the number of lines never decreases the computed canvas size, for the
/// same drawable extent.
pub proof fn lemma_canvas_monotonic(
    fmt1: ImageFormatter,
    fmt2: ImageFormatter,
    max_width: int,
    lineno1: int,
    lineno2: int,
)
    requires
        fmt_wf(fmt1),
        fmt_wf(fmt2),
        fmt1.font == fmt2.font,
        fmt1.code_pad_top == fmt2.code_pad_top,
        fmt1.line_pad <= fmt2.line_pad,
        fmt1.code_pad <= fmt2.code_pad,
        0 <= lineno1 <= lineno2,
        0 <= max_width,
    ensures
        sp_image_width(fmt1, max_width) <= sp_image_width(fmt2, max_width),
        sp_image_height(fmt1, lineno1) <= sp_image_height(fmt2, lineno2),
{
    lemma_collection_height_bounds(fmt1.font);
    assert((lineno1 + 1) * sp_line_height(fmt1) <= (lineno2 + 1) * sp_line_height(fmt2))
        by (nonlinear_arith)
        requires
            0 <= lineno1 + 1 <= lineno2 + 1,
            0 <= sp_line_height(fmt1) <= sp_line_height(fmt2),
    ;
}

/// A wider drawable never shrinks the canvas.
pub proof fn lemma_canvas_monotonic_in_width(fmt: ImageFormatter, w1: int, w2: int)
    requires
        0 <= w1 <= w2,
    ensures
        sp_image_width(fmt, w1) <= sp_image_width(fmt, w2),
{
}


/// A cursor started further right stays further right.
proof fn lemma_span_cursor_mono_start(
    fmt1: ImageFormatter,
    fmt2: ImageFormatter,
    line: Seq<(Style, Vec<char>)>,
    s1: int,
    s2: int,
    n: int,
)
    requires
        fmt1.font == fmt2.font,
        fmt1.tab_width == fmt2.tab_width,
        s1 <= s2,
        0 <= n,
    ensures
        sp_span_cursor(fmt1, line, s1, n) <= sp_span_cursor(fmt2, line, s2, n),
    decreases n,
{
    if n > 0 {
        lemma_span_cursor_mono_start(fmt1, fmt2, line, s1, s2, n - 1);
    }
}

/// A larger accumulator and a later start never shrink the running maximum.
proof fn lemma_span_maxw_mono(
    fmt1: ImageFormatter,
    fmt2: ImageFormatter,
    line: Seq<(Style, Vec<char>)>,
    s1: int,
    s2: int,
    n: int,
    acc1: int,
    acc2: int,
)
    requires
        fmt1.font == fmt2.font,
        fmt1.tab_width == fmt2.tab_width,
        s1 <= s2,
        acc1 <= acc2,
        0 <= n,
    ensures
        sp_span_maxw(fmt1, line, s1, n, acc1) <= sp_span_maxw(fmt2, line, s2, n, acc2),
    decreases n,
{
    if n > 0 {
        lemma_span_maxw_mono(fmt1, fmt2, line, s1, s2, n - 1, acc1, acc2);
        lemma_span_cursor_mono_start(fmt1, fmt2, line, s1, s2, n);
    }
}

proof fn lemma_doc_maxw_mono(
    fmt1: ImageFormatter,
    fmt2: ImageFormatter,
    v: Seq<Vec<(Style, Vec<char>)>>,
    n: int,
)
    requires
        fmt1.font == fmt2.font,
        fmt1.tab_width == fmt2.tab_width,
        sp_left_pad(fmt1) <= sp_left_pad(fmt2),
        0 <= n,
    ensures
        sp_doc_maxw(fmt1, v, n) <= sp_doc_maxw(fmt2, v, n),
    decreases n,
{
    if n > 0 {
        lemma_doc_maxw_mono(fmt1, fmt2, v, n - 1);
        lemma_span_maxw_mono(
            fmt1,
            fmt2,
            v[n - 1]@,
            sp_left_pad(fmt1),
            sp_left_pad(fmt2),
            v[n - 1]@.len() as int,
            sp_doc_maxw(fmt1, v, n - 1),
            sp_doc_maxw(fmt2, v, n - 1),
        );
    }
}

/// Widening the code pad widens the canvas: the pad moves every cursor
/// right, so the drawable extent and with it the computed width never
/// decrease.
pub proof fn lemma_canvas_width_monotonic_in_code_pad(
    fmt1: ImageFormatter,
    fmt2: ImageFormatter,
    v: Seq<Vec<(Style, Vec<char>)>>,
)
    requires
        fmt2 == (ImageFormatter { code_pad: fmt2.code_pad, ..fmt1 }),
        fmt1.code_pad <= fmt2.code_pad,
    ensures
        sp_final_maxw(fmt1, v) <= sp_final_maxw(fmt2, v),
        sp_image_width(fmt1, sp_final_maxw(fmt1, v)) <= sp_image_width(
            fmt2,
            sp_final_maxw(fmt2, v),
        ),
{
    lemma_doc_maxw_mono(fmt1, fmt2, v, v.len() as int);
}


/// The highlight fold over an explicit list.
pub open spec fn sp_highlights_list(
    fmt: ImageFormatter,
    d: Seq<Rgba>,
    wid: int,
    maxlineno: int,
    l: Seq<u32>,
    n: int,
) -> Seq<Rgba>
    decreases n,
{
    if n <= 0 {
        d
    } else {
        let prev = sp_highlights_list(fmt, d, wid, maxlineno, l, n - 1);
        let ln = l[n - 1];
        if 1 <= ln <= maxlineno + 1 {
            let color = sp_brighten(d[20 * wid + 20]);
            let strip = Seq::new((wid * sp_line_height(fmt)) as nat, |k: int| color);
            sp_paste_alpha(prev, wid, strip, wid, sp_line_height(fmt), 0, sp_line_y(fmt, ln - 1))
        } else {
            prev
        }
    }
}

/// The fold over the formatter's own list is the fold over that list.
proof fn lemma_highlights_is_list_fold(
    fmt: ImageFormatter,
    d: Seq<Rgba>,
    wid: int,
    maxlineno: int,
    n: int,
)
    requires
        0 <= n,
    ensures
        sp_highlights(fmt, d, wid, maxlineno, n) == sp_highlights_list(
            fmt,
            d,
            wid,
            maxlineno,
            fmt.highlight_lines@,
            n,
        ),
    decreases n,
{
    if n > 0 {
        lemma_highlights_is_list_fold(fmt, d, wid, maxlineno, n - 1);
    }
}

/// The fold reads only the first `n` entries of its list.
proof fn lemma_highlights_list_prefix(
    fmt: ImageFormatter,
    d: Seq<Rgba>,
    wid: int,
    maxlineno: int,
    l1: Seq<u32>,
    l2: Seq<u32>,
    n: int,
)
    requires
        0 <= n,
        forall|k: int| 0 <= k < n ==> l1[k] == l2[k],
    ensures
        sp_highlights_list(fmt, d, wid, maxlineno, l1, n) == sp_highlights_list(
            fmt,
            d,
            wid,
            maxlineno,
            l2,
            n,
        ),
    decreases n,
{
    if n > 0 {
        lemma_highlights_list_prefix(fmt, d, wid, maxlineno, l1, l2, n - 1);
    }
}

/// The entries of a highlight list that land on an existing line.
pub open spec fn sp_in_range_only(l: Seq<u32>, maxlineno: int) -> Seq<u32>
    decreases l.len(),
{
    if l.len() == 0 {
        Seq::empty()
    } else {
        let rest = sp_in_range_only(l.drop_last(), maxlineno);
        if 1 <= l.last() <= maxlineno + 1 {
            rest.push(l.last())
        } else {
            rest
        }
    }
}

proof fn lemma_highlights_list_filtered(
    fmt: ImageFormatter,
    d: Seq<Rgba>,
    wid: int,
    maxlineno: int,
    l: Seq<u32>,
)
    ensures
        sp_highlights_list(fmt, d, wid, maxlineno, l, l.len() as int) == sp_highlights_list(
            fmt,
            d,
            wid,
            maxlineno,
            sp_in_range_only(l, maxlineno),
            sp_in_range_only(l, maxlineno).len() as int,
        ),
    decreases l.len(),
{
    if l.len() > 0 {
        let dl = l.drop_last();
        lemma_highlights_list_filtered(fmt, d, wid, maxlineno, dl);
        lemma_highlights_list_prefix(fmt, d, wid, maxlineno, l, dl, dl.len() as int);
        let fdl = sp_in_range_only(dl, maxlineno);
        if 1 <= l.last() <= maxlineno + 1 {
            let fl = fdl.push(l.last());
            assert(sp_in_range_only(l, maxlineno) == fl);
            vstd::seq::axiom_seq_push_len(fdl, l.last());
            vstd::seq::axiom_seq_push_index_same(fdl, l.last(), fdl.len() as int);
            assert forall|k: int| 0 <= k < fdl.len() implies fl[k] == fdl[k] by {
                vstd::seq::axiom_seq_push_index_different(fdl, l.last(), k);
            }
            lemma_highlights_list_prefix(fmt, d, wid, maxlineno, fl, fdl, fdl.len() as int);
        }
    }
}

/// Highlight indices outside [1, line count] never affect the output: the
/// fold over any list equals the fold over its in-range entries alone.
pub proof fn lemma_highlights_filtered(
    fmt: ImageFormatter,
    d: Seq<Rgba>,
    wid: int,
    maxlineno: int,
)
    ensures
        sp_highlights(fmt, d, wid, maxlineno, fmt.highlight_lines@.len() as int)
            == sp_highlights_list(
            fmt,
            d,
            wid,
            maxlineno,
            sp_in_range_only(fmt.highlight_lines@, maxlineno),
            sp_in_range_only(fmt.highlight_lines@, maxlineno).len() as int,
        ),
{
    lemma_highlights_is_list_fold(fmt, d, wid, maxlineno, fmt.highlight_lines@.len() as int);
    lemma_highlights_list_filtered(fmt, d, wid, maxlineno, fmt.highlight_lines@);
}


/// Two configurations that agree on the font and tab width lay spans out
/// identically.
proof fn lemma_span_cursor_congruent(
    fmt1: ImageFormatter,
    fmt2: ImageFormatter,
    line: Seq<(Style, Vec<char>)>,
    start: int,
    n: int,
)
    requires
        fmt1.font == fmt2.font,
        fmt1.tab_width == fmt2.tab_width,
        0 <= n,
    ensures
        sp_span_cursor(fmt1, line, start, n) == sp_span_cursor(fmt2, line, start, n),
    decreases n,
{
    if n > 0 {
        lemma_span_cursor_congruent(fmt1, fmt2, line, start, n - 1);
    }
}

proof fn lemma_span_cmds_congruent(
    fmt1: ImageFormatter,
    fmt2: ImageFormatter,
    line: Seq<(Style, Vec<char>)>,
    y: int,
    start: int,
    n: int,
)
    requires
        fmt1.font == fmt2.font,
        fmt1.tab_width == fmt2.tab_width,
        0 <= n,
    ensures
        sp_span_cmds(fmt1, line, y, start, n) == sp_span_cmds(fmt2, line, y, start, n),
    decreases n,
{
    if n > 0 {
        lemma_span_cmds_congruent(fmt1, fmt2, line, y, start, n - 1);
        lemma_span_cursor_congruent(fmt1, fmt2, line, start, n - 1);
    }
}

proof fn lemma_span_maxw_congruent(
    fmt1: ImageFormatter,
    fmt2: ImageFormatter,
    line: Seq<(Style, Vec<char>)>,
    start: int,
    n: int,
    acc: int,
)
    requires
        fmt1.font == fmt2.font,
        fmt1.tab_width == fmt2.tab_width,
        0 <= n,
    ensures
        sp_span_maxw(fmt1, line, start, n, acc) == sp_span_maxw(fmt2, line, start, n, acc),
    decreases n,
{
    if n > 0 {
        lemma_span_maxw_congruent(fmt1, fmt2, line, start, n - 1, acc);
        lemma_span_cursor_congruent(fmt1, fmt2, line, start, n);
    }
}

/// Layout-affecting fields: everything the drawable construction reads.
pub open spec fn sp_layout_fields_eq(fmt1: ImageFormatter, fmt2: ImageFormatter) -> bool {
    &&& fmt1.font == fmt2.font
    &&& fmt1.tab_width == fmt2.tab_width
    &&& fmt1.line_pad == fmt2.line_pad
    &&& fmt1.code_pad == fmt2.code_pad
    &&& fmt1.code_pad_top == fmt2.code_pad_top
    &&& fmt1.line_number == fmt2.line_number
    &&& fmt1.line_number_pad == fmt2.line_number_pad
    &&& fmt1.line_number_chars == fmt2.line_number_chars
    &&& fmt1.line_offset == fmt2.line_offset
    &&& fmt1.title_bar_pad == fmt2.title_bar_pad
    &&& fmt1.window_controls == fmt2.window_controls
    &&& fmt1.window_controls_width == fmt2.window_controls_width
    &&& fmt1.window_controls_height == fmt2.window_controls_height
    &&& fmt1.window_title == fmt2.window_title
}

proof fn lemma_doc_cmds_congruent(
    fmt1: ImageFormatter,
    fmt2: ImageFormatter,
    v: Seq<Vec<(Style, Vec<char>)>>,
    n: int,
)
    requires
        sp_layout_fields_eq(fmt1, fmt2),
        0 <= n,
    ensures
        sp_doc_cmds(fmt1, v, n) == sp_doc_cmds(fmt2, v, n),
    decreases n,
{
    if n > 0 {
        lemma_doc_cmds_congruent(fmt1, fmt2, v, n - 1);
        lemma_span_cmds_congruent(
            fmt1,
            fmt2,
            v[n - 1]@,
            sp_line_y(fmt1, n - 1),
            sp_left_pad(fmt1),
            v[n - 1]@.len() as int,
        );
    }
}

proof fn lemma_doc_maxw_congruent(
    fmt1: ImageFormatter,
    fmt2: ImageFormatter,
    v: Seq<Vec<(Style, Vec<char>)>>,
    n: int,
)
    requires
        sp_layout_fields_eq(fmt1, fmt2),
        0 <= n,
    ensures
        sp_doc_maxw(fmt1, v, n) == sp_doc_maxw(fmt2, v, n),
    decreases n,
{
    if n > 0 {
        lemma_doc_maxw_congruent(fmt1, fmt2, v, n - 1);
        lemma_span_maxw_congruent(
            fmt1,
            fmt2,
            v[n - 1]@,
            sp_left_pad(fmt1),
            v[n - 1]@.len() as int,
            sp_doc_maxw(fmt1, v, n - 1),
        );
    }
}

proof fn lemma_highlights_list_congruent(
    fmt1: ImageFormatter,
    fmt2: ImageFormatter,
    d: Seq<Rgba>,
    wid: int,
    maxlineno: int,
    l: Seq<u32>,
    n: int,
)
    requires
        fmt1.font == fmt2.font,
        fmt1.line_pad == fmt2.line_pad,
        fmt1.code_pad == fmt2.code_pad,
        fmt1.code_pad_top == fmt2.code_pad_top,
        0 <= n,
    ensures
        sp_highlights_list(fmt1, d, wid, maxlineno, l, n) == sp_highlights_list(
            fmt2,
            d,
            wid,
            maxlineno,
            l,
            n,
        ),
    decreases n,
{
    if n > 0 {
        lemma_highlights_list_congruent(fmt1, fmt2, d, wid, maxlineno, l, n - 1);
    }
}

proof fn lemma_line_numbers_congruent(
    fmt1: ImageFormatter,
    fmt2: ImageFormatter,
    d: Seq<Rgba>,
    dw: int,
    dh: int,
    fg: Rgba,
    n: int,
)
    requires
        fmt1.font == fmt2.font,
        fmt1.line_pad == fmt2.line_pad,
        fmt1.code_pad == fmt2.code_pad,
        fmt1.code_pad_top == fmt2.code_pad_top,
        fmt1.line_number_chars == fmt2.line_number_chars,
        fmt1.line_offset == fmt2.line_offset,
        0 <= n,
    ensures
        sp_line_numbers(fmt1, d, dw, dh, fg, n) == sp_line_numbers(fmt2, d, dw, dh, fg, n),
    decreases n,
{
    if n > 0 {
        lemma_line_numbers_congruent(fmt1, fmt2, d, dw, dh, fg, n - 1);
    }
}

proof fn lemma_draw_cmds_congruent(
    fmt1: ImageFormatter,
    fmt2: ImageFormatter,
    theme: Theme,
    d: Seq<Rgba>,
    dw: int,
    dh: int,
    cmds: Seq<SpecCommand>,
    n: int,
)
    requires
        fmt1.font == fmt2.font,
        0 <= n,
    ensures
        sp_draw_cmds(fmt1, theme, d, dw, dh, cmds, n) == sp_draw_cmds(
            fmt2,
            theme,
            d,
            dw,
            dh,
            cmds,
            n,
        ),
    decreases n,
{
    if n > 0 {
        lemma_draw_cmds_congruent(fmt1, fmt2, theme, d, dw, dh, cmds, n - 1);
    }
}

/// The highlight layer of a render equals the fold over the in-range
/// entries alone, whether or not the configured list is empty.
proof fn lemma_highlight_layer_is_filtered_fold(
    fmt: ImageFormatter,
    d: Seq<Rgba>,
    wid: int,
    maxlineno: int,
)
    ensures
        (if fmt.highlight_lines@.len() > 0 {
            sp_highlights(fmt, d, wid, maxlineno, fmt.highlight_lines@.len() as int)
        } else {
            d
        }) == sp_highlights_list(
            fmt,
            d,
            wid,
            maxlineno,
            sp_in_range_only(fmt.highlight_lines@, maxlineno),
            sp_in_range_only(fmt.highlight_lines@, maxlineno).len() as int,
        ),
{
    if fmt.highlight_lines@.len() > 0 {
        lemma_highlights_filtered(fmt, d, wid, maxlineno);
    } else {
        assert(fmt.highlight_lines@ =~= Seq::<u32>::empty());
        assert(sp_in_range_only(fmt.highlight_lines@, maxlineno).len() == 0);
    }
}

/// Out-of-range highlight indices never affect a render: two
/// configurations identical except for their highlight lists produce
/// byte-identical images whenever the lists agree on the entries that land
/// on an existing line.
pub proof fn lemma_render_highlights_filtered(
    fmt1: ImageFormatter,
    fmt2: ImageFormatter,
    v: Seq<Vec<(Style, Vec<char>)>>,
    theme: Theme,
)
    requires
        fmt2 == (ImageFormatter { highlight_lines: fmt2.highlight_lines, ..fmt1 }),
        sp_in_range_only(fmt1.highlight_lines@, sp_max_lineno(v)) == sp_in_range_only(
            fmt2.highlight_lines@,
            sp_max_lineno(v),
        ),
    ensures
        sp_render(fmt1, v, theme) == sp_render(fmt2, v, theme),
        sp_render_size(fmt1, v) == sp_render_size(fmt2, v),
{
    let p1 = sp_prepared(fmt1, v);
    let p2 = sp_prepared(fmt2, v);
    assert(p2 == (ImageFormatter { highlight_lines: p2.highlight_lines, ..p1 }));
    assert(sp_layout_fields_eq(p1, p2));
    let ml = sp_max_lineno(v);
    lemma_doc_maxw_congruent(p1, p2, v, v.len() as int);
    assert(sp_final_maxw(p1, v) == sp_final_maxw(p2, v));
    let wid = sp_image_width(p1, sp_final_maxw(p1, v));
    let hei = sp_image_height(p1, ml);
    let bg = Seq::new((wid * hei) as nat, |k: int| theme.background);
    let e = sp_in_range_only(p1.highlight_lines@, ml);
    lemma_highlight_layer_is_filtered_fold(p1, bg, wid, ml);
    lemma_highlight_layer_is_filtered_fold(p2, bg, wid, ml);
    lemma_highlights_list_congruent(p1, p2, bg, wid, ml, e, e.len() as int);
    let h1 = sp_highlights_list(p1, bg, wid, ml, e, e.len() as int);
    let h2a = if p1.line_number {
        sp_line_numbers(p1, h1, wid, hei, sp_darken(theme.foreground), ml + 1)
    } else {
        h1
    };
    lemma_line_numbers_congruent(p1, p2, h1, wid, hei, sp_darken(theme.foreground), ml + 1);
    lemma_doc_cmds_congruent(p1, p2, v, v.len() as int);
    let cmds = sp_doc_cmds(p1, v, v.len() as int) + sp_title_cmds(p1);
    assert(sp_title_cmds(p1) == sp_title_cmds(p2));
    lemma_draw_cmds_congruent(p1, p2, theme, h2a, wid, hei, cmds, cmds.len() as int);
    assert(sp_wc_params(p1) == sp_wc_params(p2));
}


/// More digits never come from a smaller number.
proof fn lemma_digits10_ge_one(n: int)
    requires
        0 <= n,
    ensures
        sp_digits10(n) >= 1,
    decreases n,
{
    if n >= 10 {
        vstd::arithmetic::div_mod::lemma_div_pos_is_pos(n, 10);
        lemma_digits10_ge_one(n / 10);
    }
}

proof fn lemma_digits10_mono(n1: int, n2: int)
    requires
        0 <= n1 <= n2,
    ensures
        sp_digits10(n1) <= sp_digits10(n2),
    decreases n2,
{
    if n2 >= 10 {
        vstd::arithmetic::div_mod::lemma_div_pos_is_pos(n2, 10);
        if n1 < 10 {
            lemma_digits10_ge_one(n2 / 10);
        } else {
            vstd::arithmetic::div_mod::lemma_div_is_ordered(n1, n2, 10);
            vstd::arithmetic::div_mod::lemma_div_pos_is_pos(n1, 10);
            lemma_digits10_mono(n1 / 10, n2 / 10);
        }
    }
}

/// The gutter never narrows when lines are added.
proof fn lemma_gutter_chars_mono(count1: int, count2: int, offset: int)
    requires
        0 <= count1 <= count2,
        0 <= offset,
    ensures
        0 <= sp_gutter_chars(count1, offset) <= sp_gutter_chars(count2, offset),
{
    if count2 + offset > 0 {
        lemma_digits10_ge_one(count2 + offset - 1);
        if count1 + offset > 0 {
            lemma_digits10_ge_one(count1 + offset - 1);
            lemma_digits10_mono(count1 + offset - 1, count2 + offset - 1);
        }
    }
}

/// Text width distributes over concatenation.
proof fn lemma_text_width_concat(fc: FontCollection, a: Seq<char>, b: Seq<char>)
    ensures
        sp_text_width(fc, a + b) == sp_text_width(fc, a) + sp_text_width(fc, b),
    decreases b.len(),
{
    if b.len() == 0 {
        assert(a + b =~= a);
    } else {
        lemma_text_width_concat(fc, a, b.drop_last());
        assert((a + b).drop_last() =~= a + b.drop_last());
        assert((a + b).last() == b.last());
    }
}

/// The width of a run of `k` spaces.
proof fn lemma_spaces_width(fc: FontCollection, k: int)
    requires
        0 <= k,
    ensures
        sp_text_width(fc, Seq::new(k as nat, |i: int| ' ')) == k * sp_char_advance(fc, ' '),
    decreases k,
{
    let s = Seq::new(k as nat, |i: int| ' ');
    if k == 0 {
        assert(0 * sp_char_advance(fc, ' ') == 0) by (nonlinear_arith);
    } else {
        lemma_spaces_width(fc, k - 1);
        assert(s.drop_last() =~= Seq::new((k - 1) as nat, |i: int| ' '));
        assert(s.last() == ' ');
        assert(k * sp_char_advance(fc, ' ') == (k - 1) * sp_char_advance(fc, ' ')
            + sp_char_advance(fc, ' ')) by (nonlinear_arith);
    }
}

/// A wider gutter never narrows the gutter text.
proof fn lemma_gutter_text_mono(fc: FontCollection, c1: int, c2: int)
    requires
        collection_wf(fc),
        0 <= c1 <= c2,
    ensures
        sp_text_width(fc, sp_padded_number(0, c1)) <= sp_text_width(fc, sp_padded_number(0, c2)),
{
    let digits = sp_number_chars(0);
    assert(digits.len() == 1);
    crate::font::lemma_char_advance_bounds(fc, ' ');
    if c1 <= 1 && c2 <= 1 {
    } else if c1 <= 1 {
        // one digit against spaces plus the digit
        lemma_text_width_concat(fc, Seq::new((c2 - 1) as nat, |i: int| ' '), digits);
        lemma_spaces_width(fc, c2 - 1);
        assert((c2 - 1) * sp_char_advance(fc, ' ') >= 0) by (nonlinear_arith)
            requires
                c2 - 1 >= 0,
                sp_char_advance(fc, ' ') >= 0,
        ;
    } else {
        lemma_text_width_concat(fc, Seq::new((c1 - 1) as nat, |i: int| ' '), digits);
        lemma_text_width_concat(fc, Seq::new((c2 - 1) as nat, |i: int| ' '), digits);
        lemma_spaces_width(fc, c1 - 1);
        lemma_spaces_width(fc, c2 - 1);
        assert((c1 - 1) * sp_char_advance(fc, ' ') <= (c2 - 1) * sp_char_advance(fc, ' '))
            by (nonlinear_arith)
            requires
                c1 - 1 <= c2 - 1,
                sp_char_advance(fc, ' ') >= 0,
        ;
    }
}

/// Preparing a well-formed configuration keeps it well-formed: the computed
/// gutter never needs more than eleven digits.
pub proof fn lemma_prepared_wf(fmt: ImageFormatter, v: Seq<Vec<(Style, Vec<char>)>>)
    requires
        fmt_wf(fmt),
        v.len() <= 0x100_0000,
    ensures
        fmt_wf(sp_prepared(fmt, v)),
{
    if fmt.line_number {
        if v.len() + fmt.line_offset > 0 {
            lemma_digits10_le_11(v.len() + fmt.line_offset as int - 1);
        }
    }
}

/// The running maximum never shrinks as more lines are folded in.
proof fn lemma_doc_maxw_nondecreasing(
    fmt: ImageFormatter,
    v: Seq<Vec<(Style, Vec<char>)>>,
    n1: int,
    n2: int,
)
    requires
        fmt_wf(fmt),
        sp_doc_ok(v),
        0 <= n1 <= n2 <= v.len(),
    ensures
        sp_doc_maxw(fmt, v, n1) <= sp_doc_maxw(fmt, v, n2),
    decreases n2,
{
    if n1 < n2 {
        lemma_doc_maxw_nondecreasing(fmt, v, n1, n2 - 1);
        lemma_left_pad_bounds(fmt);
        lemma_doc_maxw_bounds(fmt, v, n2 - 1);
        assert((v[n2 - 1])@.len() <= 0x1000);
        assert(forall|j: int|
            0 <= j < v[n2 - 1]@.len() ==> (#[trigger] (v[n2 - 1]@[j])).1@.len() <= 0x1_0000);
        lemma_span_maxw_bounds(
            fmt,
            v[n2 - 1]@,
            sp_left_pad(fmt),
            v[n2 - 1]@.len() as int,
            sp_doc_maxw(fmt, v, n2 - 1),
        );
    }
}

/// The maximum width reads only the lines that exist.
proof fn lemma_doc_maxw_prefix(
    fmt: ImageFormatter,
    v1: Seq<Vec<(Style, Vec<char>)>>,
    v2: Seq<Vec<(Style, Vec<char>)>>,
    n: int,
)
    requires
        0 <= n,
        forall|i: int| 0 <= i < n ==> v1[i] == v2[i],
    ensures
        sp_doc_maxw(fmt, v1, n) == sp_doc_maxw(fmt, v2, n),
    decreases n,
{
    if n > 0 {
        lemma_doc_maxw_prefix(fmt, v1, v2, n - 1);
    }
}

/// Canvas dimensions of a whole render are monotone: for the same document
/// prefix, enlarging the line pad or the code pad, or appending lines,
/// never shrinks the finished image.
pub proof fn lemma_render_size_monotonic(
    fmt1: ImageFormatter,
    fmt2: ImageFormatter,
    v1: Seq<Vec<(Style, Vec<char>)>>,
    v2: Seq<Vec<(Style, Vec<char>)>>,
)
    requires
        fmt_wf(fmt1),
        fmt_wf(fmt2),
        fmt2 == (ImageFormatter { line_pad: fmt2.line_pad, code_pad: fmt2.code_pad, ..fmt1 }),
        fmt1.line_pad <= fmt2.line_pad,
        fmt1.code_pad <= fmt2.code_pad,
        sp_doc_ok(v1),
        sp_doc_ok(v2),
        v1.len() <= v2.len(),
        forall|i: int| 0 <= i < v1.len() ==> v1[i] == v2[i],
    ensures
        sp_render_size(fmt1, v1).0 <= sp_render_size(fmt2, v2).0,
        sp_render_size(fmt1, v1).1 <= sp_render_size(fmt2, v2).1,
{
    let p1 = sp_prepared(fmt1, v1);
    let p2 = sp_prepared(fmt2, v2);
    lemma_prepared_wf(fmt1, v1);
    lemma_prepared_wf(fmt2, v2);
    let ml1 = sp_max_lineno(v1);
    let ml2 = sp_max_lineno(v2);
    // the gutter of the longer document is at least as wide
    lemma_gutter_chars_mono(v1.len() as int, v2.len() as int, fmt1.line_offset as int);
    if fmt1.line_number {
        if v1.len() + fmt1.line_offset > 0 {
            lemma_digits10_le_11(v1.len() + fmt1.line_offset as int - 1);
        }
        if v2.len() + fmt1.line_offset > 0 {
            lemma_digits10_le_11(v2.len() + fmt1.line_offset as int - 1);
        }
        assert(p1.line_number_chars as int == sp_gutter_chars(
            v1.len() as int,
            fmt1.line_offset as int,
        ));
        assert(p2.line_number_chars as int == sp_gutter_chars(
            v2.len() as int,
            fmt1.line_offset as int,
        ));
        lemma_gutter_text_mono(
            fmt1.font,
            p1.line_number_chars as int,
            p2.line_number_chars as int,
        );
    }
    assert(sp_left_pad(p1) <= sp_left_pad(p2));
    // the drawable extent only grows with the pad and the extra lines
    let n1 = v1.len() as int;
    let n2 = v2.len() as int;
    lemma_doc_maxw_mono(p1, p2, v1, n1);
    lemma_doc_maxw_prefix(p2, v1, v2, n1);
    lemma_doc_maxw_nondecreasing(p2, v2, n1, n2);
    lemma_doc_maxw_bounds(p1, v1, n1);
    assert(sp_final_maxw(p1, v1) <= sp_final_maxw(p2, v2));
    assert(0 <= sp_final_maxw(p1, v1));
    // and so do both canvas dimensions
    lemma_canvas_monotonic(p1, p2, sp_final_maxw(p1, v1), ml1, ml2);
    assert(sp_image_width(p1, sp_final_maxw(p1, v1)) <= sp_image_width(
        p2,
        sp_final_maxw(p2, v2),
    ));
}


/// Trimming leaves a text without trailing newlines unchanged.
proof fn lemma_trim_newlines_id(t: Seq<char>)
    requires
        t.len() == 0 || t.last() != '\n',
    ensures
        sp_trim_newlines(t) == t,
{
}

/// Expanding tabs leaves a tab-free text unchanged.
proof fn lemma_expand_tabs_id(t: Seq<char>, tw: int)
    requires
        forall|i: int| 0 <= i < t.len() ==> #[trigger] t[i] != '\t',
    ensures
        sp_expand_tabs(t, tw) == t,
    decreases t.len(),
{
    if t.len() == 0 {
        assert(sp_expand_tabs(t, tw) =~= t);
    } else {
        lemma_expand_tabs_id(t.drop_last(), tw);
        assert(sp_expand_tabs(t, tw) =~= t);
    }
}

/// A text whose characters all take the same advance is that advance times
/// its length wide.
proof fn lemma_text_width_uniform(fc: FontCollection, t: Seq<char>, a: int)
    requires
        forall|i: int| 0 <= i < t.len() ==> sp_char_advance(fc, #[trigger] t[i]) == a,
    ensures
        sp_text_width(fc, t) == t.len() * a,
    decreases t.len(),
{
    if t.len() == 0 {
        assert(0 * a == 0) by (nonlinear_arith);
    } else {
        lemma_text_width_uniform(fc, t.drop_last(), a);
        assert(t.len() * a == (t.len() - 1) * a + a) by (nonlinear_arith);
    }
}

/// The built-in monospace metrics, for concrete size calculations.
pub open spec fn sp_builtin_font() -> FontCollection {
    FontCollection {
        primary: crate::font::ImageFont {
            size: 26,
            ascent: 1901,
            descent: 483,
            units_per_em: 2048,
            advance: 1233,
            wide_advance: 2466,
        },
        secondary: None,
    }
}

/// The concrete size equations of a three-line sample document under the
/// builder's defaults with chrome off: with the built-in font every ASCII
/// cell is 16 pixels wide and a line band 33 pixels tall, so the canvas is
/// exactly 318 x 149 pixels.
pub proof fn lemma_sample_render_size(fmt: ImageFormatter, v: Seq<Vec<(Style, Vec<char>)>>)
    requires
        fmt.font == sp_builtin_font(),
        fmt.line_pad == 2,
        fmt.code_pad == 25,
        fmt.code_pad_top == 0,
        fmt.line_number == true,
        fmt.line_number_pad == 6,
        fmt.line_number_chars == 1,
        fmt.tab_width == 4,
        fmt.window_title is None,
        v.len() == 3,
        v[0]@.len() == 1 && (v[0]@[0]).1@ == "fn main() {"@,
        v[1]@.len() == 1 && (v[1]@[0]).1@ == "    println!();"@,
        v[2]@.len() == 1 && (v[2]@[0]).1@ == "}"@,
    ensures
        sp_image_width(fmt, sp_final_maxw(fmt, v)) == 318,
        sp_image_height(fmt, sp_max_lineno(v)) == 149,
{
    let fc = fmt.font;
    reveal_strlit("fn main() {");
    reveal_strlit("    println!();");
    reveal_strlit("}");
    reveal_strlit("0");
    // every ASCII glyph of the built-in font is 16 pixels wide
    assert(sp_glyph_advance(fc.primary, false) == 16) by {
        vstd::arithmetic::div_mod::lemma_fundamental_div_mod_converse(
            1233 * 26 + 2048 - 1,
            2048,
            16,
            1337,
        );
    }
    // and a line sits in a 31-pixel band
    assert(crate::font::sp_font_height(fc.primary) == 31) by {
        vstd::arithmetic::div_mod::lemma_fundamental_div_mod_converse(
            (1901 + 483) * 26 + 2048 - 1,
            2048,
            31,
            543,
        );
    }
    assert(sp_collection_height(fc) == 31);
    assert(sp_line_height(fmt) == 33);
    // height: one band past the last line plus the two pads
    assert(sp_line_y(fmt, 3) == 124);
    assert(sp_image_height(fmt, sp_max_lineno(v)) == 149);
    // the one-digit gutter holds a zero, one cell wide
    assert(sp_number_chars(0) =~= seq!['0']);
    assert(sp_padded_number(0, 1) =~= seq!['0']);
    assert(!sp_is_wide('0'));
    assert(sp_char_advance(fc, '0') == 16);
    assert(sp_text_width(fc, seq!['0']) == 16) by {
        lemma_text_width_uniform(fc, seq!['0'], 16);
    }
    assert(sp_gutter_text_len(fmt) == 16);
    assert(sp_left_pad(fmt) == 53);
    // the three line widths: 11, 15 and 1 ASCII cells
    let t0 = "fn main() {"@;
    let t1 = "    println!();"@;
    let t2 = "}"@;
    assert forall|i: int| 0 <= i < t0.len() implies sp_char_advance(fc, #[trigger] t0[i])
        == 16 by {
        assert(!sp_is_wide(t0[i]));
    }
    assert forall|i: int| 0 <= i < t1.len() implies sp_char_advance(fc, #[trigger] t1[i])
        == 16 by {
        assert(!sp_is_wide(t1[i]));
    }
    assert forall|i: int| 0 <= i < t2.len() implies sp_char_advance(fc, #[trigger] t2[i])
        == 16 by {
        assert(!sp_is_wide(t2[i]));
    }
    lemma_text_width_uniform(fc, t0, 16);
    lemma_text_width_uniform(fc, t1, 16);
    lemma_text_width_uniform(fc, t2, 16);
    // none of the texts ends in a newline or holds a tab
    assert forall|i: int| 0 <= i < t0.len() implies #[trigger] t0[i] != '\t' by {}
    assert forall|i: int| 0 <= i < t1.len() implies #[trigger] t1[i] != '\t' by {}
    assert forall|i: int| 0 <= i < t2.len() implies #[trigger] t2[i] != '\t' by {}
    lemma_trim_newlines_id(t0);
    lemma_trim_newlines_id(t1);
    lemma_trim_newlines_id(t2);
    lemma_expand_tabs_id(t0, 4);
    lemma_expand_tabs_id(t1, 4);
    lemma_expand_tabs_id(t2, 4);
    assert(sp_span_text(t0, 4) == t0);
    assert(sp_span_text(t1, 4) == t1);
    assert(sp_span_text(t2, 4) == t2);
    // fold the cursors: 53 + 176, 53 + 240, 53 + 16
    assert(sp_doc_maxw(fmt, v, 0) == 0);
    assert(sp_span_cursor(fmt, v[0]@, 53, 0) == 53);
    assert(sp_span_cursor(fmt, v[0]@, 53, 1) == 229);
    assert(sp_span_maxw(fmt, v[0]@, 53, 0, 0) == 0);
    assert(sp_span_maxw(fmt, v[0]@, 53, 1, 0) == 229);
    assert(sp_doc_maxw(fmt, v, 1) == 229);
    assert(sp_span_cursor(fmt, v[1]@, 53, 0) == 53);
    assert(sp_span_cursor(fmt, v[1]@, 53, 1) == 293);
    assert(sp_span_maxw(fmt, v[1]@, 53, 0, 229) == 229);
    assert(sp_span_maxw(fmt, v[1]@, 53, 1, 229) == 293);
    assert(sp_doc_maxw(fmt, v, 2) == 293);
    assert(sp_span_cursor(fmt, v[2]@, 53, 0) == 53);
    assert(sp_span_cursor(fmt, v[2]@, 53, 1) == 69);
    assert(sp_span_maxw(fmt, v[2]@, 53, 0, 293) == 293);
    assert(sp_span_maxw(fmt, v[2]@, 53, 1, 293) == 293);
    assert(sp_doc_maxw(fmt, v, 3) == 293);
    assert(sp_final_maxw(fmt, v) == 293);
    assert(sp_image_width(fmt, 293) == 318);
}

} // verus!
