use silicon::canvas::Canvas;
use silicon::canvas::Rgba;
use silicon::font::FontCollection;
use silicon::font::FontStyle;
use silicon::font::ImageFont;

fn chars(s: &str) -> Vec<char> {
    s.chars().collect()
}

#[test]
fn default_font_metrics() {
    let f = ImageFont::default();
    // ceil((1901 + 483) / 2048 * 26) = 31
    assert_eq!(f.get_font_height(), 31);
    // ceil(1233 / 2048 * 26) = 16, and twice the units for wide glyphs
    assert_eq!(f.glyph_advance(false), 16);
    assert_eq!(f.glyph_advance(true), 32);
}

#[test]
fn font_new_validates_metrics() {
    assert!(ImageFont::new(26, 1901, 483, 2048, 1233, 2466).is_some());
    assert!(ImageFont::new(0, 1901, 483, 2048, 1233, 2466).is_none());
    assert!(ImageFont::new(26, 1901, 483, 0, 1233, 2466).is_none());
    assert!(ImageFont::new(26, 1901, 483, 2048, 0, 2466).is_none());
}

#[test]
fn text_len_sums_advances() {
    let fc = FontCollection::default();
    assert_eq!(fc.get_text_len(&chars("")), 0);
    assert_eq!(fc.get_text_len(&chars("ab")), 32);
    // a wide character takes a double cell
    assert_eq!(fc.get_text_len(&chars("a\u{4f60}")), 48);
}

#[test]
fn layout_positions_are_cumulative() {
    let fc = FontCollection::default();
    let (glyphs, width) = fc.layout(&chars("ab\u{4f60}c"));
    assert_eq!(width, 16 + 16 + 32 + 16);
    assert_eq!(glyphs.len(), 4);
    assert_eq!(glyphs[0].x, 0);
    assert_eq!(glyphs[0].ch, 'a');
    assert_eq!(glyphs[1].x, 16);
    assert_eq!(glyphs[2].x, 32);
    assert_eq!(glyphs[3].x, 64);
    assert_eq!(glyphs[3].ch, 'c');
}

#[test]
fn style_mapping_is_total() {
    assert_eq!(FontStyle::from_flags(false, false), FontStyle::REGULAR);
    assert_eq!(FontStyle::from_flags(false, true), FontStyle::ITALIC);
    assert_eq!(FontStyle::from_flags(true, false), FontStyle::BOLD);
    assert_eq!(FontStyle::from_flags(true, true), FontStyle::BOLDITALIC);
}

#[test]
fn draw_text_fills_cells_and_skips_spaces() {
    let fc = FontCollection::default();
    let bg = Rgba { r: 0, g: 0, b: 0, a: 255 };
    let fg = Rgba { r: 255, g: 0, b: 0, a: 255 };
    let mut image = Canvas::from_pixel(64, 40, bg);
    let w = fc.draw_text_mut(&mut image, fg, 0, 0, FontStyle::REGULAR, &chars("a b"));
    assert_eq!(w, 48);
    // the cell of 'a' is inked, the cell of the space is not
    assert_eq!(image.get_pixel(0, 0), fg);
    assert_eq!(image.get_pixel(15, 30), fg);
    assert_eq!(image.get_pixel(16, 0), bg);
    assert_eq!(image.get_pixel(31, 0), bg);
    assert_eq!(image.get_pixel(32, 0), fg);
    // below the font height nothing is drawn
    assert_eq!(image.get_pixel(0, 31), bg);
}
