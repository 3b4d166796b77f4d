use silicon::canvas::Rgba;
use silicon::formatter::ImageFormatterBuilder;
use silicon::formatter::Style;
use silicon::formatter::Theme;
use silicon::font::FontStyle;
use silicon::utils::Background;
use silicon::utils::ShadowAdder;

fn chars(s: &str) -> Vec<char> {
    s.chars().collect()
}

fn doc(lines: &[&str]) -> Vec<Vec<(Style, Vec<char>)>> {
    let style = Style {
        foreground: Rgba { r: 0xf8, g: 0xf8, b: 0xf2, a: 0xff },
        font_style: FontStyle::REGULAR,
    };
    lines.iter().map(|l| vec![(style, chars(l))]).collect()
}

fn dracula() -> Theme {
    Theme {
        foreground: Rgba { r: 0xf8, g: 0xf8, b: 0xf2, a: 0xff },
        background: Rgba { r: 0x28, g: 0x2a, b: 0x36, a: 0xff },
    }
}

const SAMPLE: [&str; 3] = ["fn main() {", "    println!();", "}"];

#[test]
fn end_to_end_canvas_size() {
    // font height 31, line pad 2, code pad 25, 1-digit gutter of width 16
    // with 6-pixel pads, longest line 15 cells of 16 pixels:
    //   height = 3 * 33 + 2 * 25 = 149
    //   width  = 25 + 12 + 16 + 15 * 16 + 25 = 318
    let mut fmt = ImageFormatterBuilder::new()
        .window_controls(false)
        .round_corner(false)
        .line_offset(1)
        .build();
    let image = fmt.format(&doc(&SAMPLE), &dracula()).unwrap();
    assert_eq!(image.height(), 149);
    assert_eq!(image.width(), 318);
    // the bottom pad is plain theme background
    assert_eq!(
        image.get_pixel(160, 145),
        Rgba { r: 0x28, g: 0x2a, b: 0x36, a: 0xff }
    );
    // a glyph cell of the second line is inked in the foreground
    assert_eq!(
        image.get_pixel(120, 70),
        Rgba { r: 0xf8, g: 0xf8, b: 0xf2, a: 0xff }
    );
}

#[test]
fn end_to_end_shadow_padding() {
    let adder = ShadowAdder::new()
        .background(Background::Solid(Rgba { r: 0xab, g: 0xb8, b: 0xc3, a: 0xff }))
        .blur_radius(0)
        .pad_horiz(80)
        .pad_vert(100);
    let mut fmt = ImageFormatterBuilder::new()
        .window_controls(false)
        .round_corner(false)
        .line_offset(1)
        .shadow_adder(adder)
        .build();
    let image = fmt.format(&doc(&SAMPLE), &dracula()).unwrap();
    // the output is the inner canvas plus (160, 200)
    assert_eq!(image.width(), 318 + 160);
    assert_eq!(image.height(), 149 + 200);
    // with a zero blur radius the boundary at the padding offset is crisp
    let backdrop = Rgba { r: 0xab, g: 0xb8, b: 0xc3, a: 0xff };
    let inner_bg = Rgba { r: 0x28, g: 0x2a, b: 0x36, a: 0xff };
    assert_eq!(image.get_pixel(79, 100), backdrop);
    assert_eq!(image.get_pixel(80, 100), inner_bg);
    assert_eq!(image.get_pixel(80, 99), backdrop);
}

#[test]
fn rendering_is_deterministic() {
    let mut fmt1 = ImageFormatterBuilder::new().line_offset(1).build();
    let mut fmt2 = ImageFormatterBuilder::new().line_offset(1).build();
    let a = fmt1.format(&doc(&SAMPLE), &dracula()).unwrap();
    let b = fmt2.format(&doc(&SAMPLE), &dracula()).unwrap();
    assert_eq!(a.width(), b.width());
    assert_eq!(a.height(), b.height());
    assert_eq!(a.data, b.data);
}

#[test]
fn out_of_range_highlights_do_not_affect_output() {
    let mut with_noise = ImageFormatterBuilder::new()
        .window_controls(false)
        .round_corner(false)
        .line_offset(1)
        .highlight_lines(vec![0, 99, 2])
        .build();
    let mut clean = ImageFormatterBuilder::new()
        .window_controls(false)
        .round_corner(false)
        .line_offset(1)
        .highlight_lines(vec![2])
        .build();
    let a = with_noise.format(&doc(&SAMPLE), &dracula()).unwrap();
    let b = clean.format(&doc(&SAMPLE), &dracula()).unwrap();
    assert_eq!(a.data, b.data);
}

#[test]
fn highlight_changes_its_band_only() {
    let mut plain = ImageFormatterBuilder::new()
        .window_controls(false)
        .round_corner(false)
        .line_offset(1)
        .build();
    let mut lit = ImageFormatterBuilder::new()
        .window_controls(false)
        .round_corner(false)
        .line_offset(1)
        .highlight_lines(vec![2])
        .build();
    let a = plain.format(&doc(&SAMPLE), &dracula()).unwrap();
    let b = lit.format(&doc(&SAMPLE), &dracula()).unwrap();
    // line 2's band starts at y = 33 + 25 = 58; the brightened strip differs
    assert_ne!(a.get_pixel(300, 60), b.get_pixel(300, 60));
    // outside that band the buffers agree
    assert_eq!(a.get_pixel(300, 30), b.get_pixel(300, 30));
}

#[test]
fn gutter_width_follows_line_count() {
    // nine lines starting at 1: the largest label is 9, one digit
    let lines9: Vec<&str> = std::iter::repeat("x").take(9).collect();
    let mut fmt = ImageFormatterBuilder::new()
        .window_controls(false)
        .round_corner(false)
        .line_offset(1)
        .build();
    fmt.format(&doc(&lines9), &dracula()).unwrap();
    assert_eq!(fmt.line_number_chars, 1);
    // ten lines starting at 1: the largest label is 10, two digits
    let lines10: Vec<&str> = std::iter::repeat("x").take(10).collect();
    let mut fmt = ImageFormatterBuilder::new()
        .window_controls(false)
        .round_corner(false)
        .line_offset(1)
        .build();
    fmt.format(&doc(&lines10), &dracula()).unwrap();
    assert_eq!(fmt.line_number_chars, 2);
}

#[test]
fn window_controls_render() {
    let mut fmt = ImageFormatterBuilder::new().line_offset(1).build();
    let image = fmt.format(&doc(&SAMPLE), &dracula()).unwrap();
    // the title bar reserves 50 extra pixels at the top
    assert_eq!(image.height(), 149 + 50);
    // the first dot is filled red-ish at its center (padding 15, strip
    // height 40, radius 10, first center at x = 15 + 20)
    let p = image.get_pixel(35, 35);
    assert!(p.r > 150 && p.g < 150);
}

#[test]
fn empty_document_renders_minimum_canvas() {
    let mut fmt = ImageFormatterBuilder::new()
        .window_controls(false)
        .round_corner(false)
        .line_number(false)
        .build();
    let image = fmt.format(&doc(&[]), &dracula()).unwrap();
    assert_eq!(image.width(), 150);
    // one empty band plus the two pads
    assert_eq!(image.height(), 33 + 50);
}
