use silicon::canvas::Canvas;
use silicon::canvas::Rgba;
use silicon::scale::resize_canvas;
use silicon::svg::SVGFormatter;
use silicon::font::FontCollection;
use silicon::utils::Background;
use silicon::utils::ShadowAdder;
use silicon::utils::round_corner;

const RED: Rgba = Rgba { r: 200, g: 10, b: 10, a: 255 };

#[test]
fn resize_solid_stays_solid() {
    let img = Canvas::from_pixel(4, 4, RED);
    let out = resize_canvas(&img, 2, 2);
    assert_eq!(out.width(), 2);
    assert_eq!(out.height(), 2);
    for y in 0..2u32 {
        for x in 0..2u32 {
            assert_eq!(out.get_pixel(x, y), RED);
        }
    }
}

#[test]
fn resize_changes_dimensions() {
    let mut img = Canvas::from_pixel(2, 2, RED);
    img.put_pixel(0, 0, Rgba { r: 0, g: 0, b: 200, a: 255 });
    let out = resize_canvas(&img, 6, 3);
    assert_eq!(out.width(), 6);
    assert_eq!(out.height(), 3);
}

#[test]
fn image_background_is_resized_to_fit() {
    let backdrop = Canvas::from_pixel(2, 2, RED);
    let bg = Background::Image(backdrop);
    let out = bg.to_image(5, 7);
    assert_eq!(out.width(), 5);
    assert_eq!(out.height(), 7);
    assert_eq!(out.get_pixel(2, 3), RED);
}

#[test]
fn shadow_pads_and_composites() {
    let img = Canvas::from_pixel(10, 8, RED);
    let adder = ShadowAdder::new()
        .background(Background::Solid(Rgba { r: 1, g: 2, b: 3, a: 255 }))
        .blur_radius(0)
        .pad_horiz(5)
        .pad_vert(6);
    let out = adder.apply_to(&img);
    assert_eq!(out.width(), 20);
    assert_eq!(out.height(), 20);
    assert_eq!(out.get_pixel(0, 0), Rgba { r: 1, g: 2, b: 3, a: 255 });
    assert_eq!(out.get_pixel(5, 6), RED);
    assert_eq!(out.get_pixel(14, 13), RED);
    assert_eq!(out.get_pixel(15, 14), Rgba { r: 1, g: 2, b: 3, a: 255 });
}

#[test]
fn shadow_with_blur_softens_the_edge() {
    let img = Canvas::from_pixel(10, 8, RED);
    let adder = ShadowAdder::new()
        .background(Background::Solid(Rgba { r: 250, g: 250, b: 250, a: 255 }))
        .shadow_color(Rgba { r: 0, g: 0, b: 0, a: 255 })
        .blur_radius(4)
        .pad_horiz(12)
        .pad_vert(12);
    let out = adder.apply_to(&img);
    // just outside the image the blurred shadow darkens the backdrop
    let near = out.get_pixel(11, 16);
    assert!(near.r < 250);
    // far away the backdrop keeps its color
    let far = out.get_pixel(0, 0);
    assert_eq!(far, Rgba { r: 250, g: 250, b: 250, a: 255 });
}

#[test]
fn round_corner_paints_corners_with_sample_color() {
    let mut img = Canvas::from_pixel(40, 40, RED);
    round_corner(&mut img, 12);
    // the extreme corner pixel lies outside the quarter disk and now holds
    // the (transparent-backed) corner artwork rather than the old color
    let corner = img.get_pixel(0, 0);
    assert!(corner.a < 255);
    // the center is untouched
    assert_eq!(img.get_pixel(20, 20), RED);
}

#[test]
fn svg_size_from_metrics() {
    let lines: Vec<Vec<char>> = vec![
        "ab".chars().collect(),
        "abcd".chars().collect(),
    ];
    let (w, h) = SVGFormatter::get_svg_size(&lines, &FontCollection::default());
    assert_eq!(w, 64);
    assert_eq!(h, 31 * 3);
}
