use silicon::blur::box_blur;
use silicon::blur::create_box_gauss;
use silicon::blur::gaussian_blur;
use silicon::canvas::Canvas;
use silicon::canvas::Rgba;

fn solid(w: u32, h: u32, p: Rgba) -> Canvas {
    Canvas::from_pixel(w, h, p)
}

#[test]
fn blur_zero_is_identity() {
    let mut img = solid(8, 5, Rgba { r: 10, g: 20, b: 30, a: 255 });
    img.put_pixel(3, 2, Rgba { r: 200, g: 100, b: 50, a: 128 });
    img.put_pixel(0, 0, Rgba { r: 1, g: 2, b: 3, a: 4 });
    let before = img.data.clone();
    let out = gaussian_blur(img, 0);
    assert_eq!(out.width(), 8);
    assert_eq!(out.height(), 5);
    assert_eq!(out.data, before);
}

#[test]
fn blur_preserves_solid_color() {
    let img = solid(12, 9, Rgba { r: 77, g: 128, b: 200, a: 255 });
    let out = gaussian_blur(img, 3);
    assert_eq!(out.width(), 12);
    assert_eq!(out.height(), 9);
    for y in 0..9u32 {
        for x in 0..12u32 {
            assert_eq!(out.get_pixel(x, y), Rgba { r: 77, g: 128, b: 200, a: 255 });
        }
    }
}

#[test]
fn box_blur_exact_row() {
    // a 3 x 1 gradient averaged with radius 1 and edge replication
    let mut img = solid(3, 1, Rgba { r: 0, g: 0, b: 0, a: 255 });
    img.put_pixel(1, 0, Rgba { r: 30, g: 30, b: 30, a: 255 });
    img.put_pixel(2, 0, Rgba { r: 60, g: 60, b: 60, a: 255 });
    let out = box_blur(&img, 1);
    assert_eq!(out.get_pixel(0, 0), Rgba { r: 10, g: 10, b: 10, a: 255 });
    assert_eq!(out.get_pixel(1, 0), Rgba { r: 30, g: 30, b: 30, a: 255 });
    assert_eq!(out.get_pixel(2, 0), Rgba { r: 50, g: 50, b: 50, a: 255 });
}

#[test]
fn box_sizes_follow_the_width_derivation() {
    // w_ideal = sqrt(12 sigma^2 / 3 + 1); floor(sqrt(5)) = 2 lowers to the
    // odd 1 at sigma = 1, and the variance rounding gives two narrow passes
    let sizes = create_box_gauss(0);
    assert_eq!(sizes, vec![1, 1, 1]);
    let sizes = create_box_gauss(1);
    assert_eq!(sizes, vec![1, 1, 3]);
    let sizes = create_box_gauss(50);
    assert_eq!(sizes, vec![99, 99, 101]);
}

#[test]
fn blur_single_pixel_unchanged() {
    let img = solid(1, 1, Rgba { r: 9, g: 8, b: 7, a: 6 });
    let out = gaussian_blur(img, 5);
    assert_eq!(out.get_pixel(0, 0), Rgba { r: 9, g: 8, b: 7, a: 6 });
}
