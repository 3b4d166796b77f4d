use silicon::canvas::Canvas;
use silicon::canvas::Rgba;
use silicon::canvas::blend;
use silicon::utils::copy_alpha;

#[test]
fn opaque_source_replaces_destination() {
    let d = Rgba { r: 1, g: 2, b: 3, a: 4 };
    let s = Rgba { r: 200, g: 150, b: 100, a: 255 };
    assert_eq!(blend(d, s), s);
}

#[test]
fn transparent_source_keeps_destination() {
    let d = Rgba { r: 1, g: 2, b: 3, a: 4 };
    let s = Rgba { r: 200, g: 150, b: 100, a: 0 };
    assert_eq!(blend(d, s), d);
}

#[test]
fn half_transparent_source_blends() {
    let d = Rgba { r: 0, g: 0, b: 0, a: 255 };
    let s = Rgba { r: 255, g: 255, b: 255, a: 128 };
    // (255 * 128 + 0 * 127 + 127) / 255 = 128 on each color channel, and the
    // alpha moves toward opacity: (255 * 128 + 255 * 127 + 127) / 255 = 255
    assert_eq!(blend(d, s), Rgba { r: 128, g: 128, b: 128, a: 255 });
}

#[test]
fn copy_alpha_composites_region() {
    let mut dst = Canvas::from_pixel(4, 4, Rgba { r: 10, g: 10, b: 10, a: 255 });
    let mut src = Canvas::from_pixel(2, 2, Rgba { r: 200, g: 0, b: 0, a: 255 });
    src.put_pixel(1, 1, Rgba { r: 99, g: 99, b: 99, a: 0 });
    copy_alpha(&src, &mut dst, 1, 1);
    // opaque pixels replace the destination
    assert_eq!(dst.get_pixel(1, 1), Rgba { r: 200, g: 0, b: 0, a: 255 });
    assert_eq!(dst.get_pixel(2, 1), Rgba { r: 200, g: 0, b: 0, a: 255 });
    assert_eq!(dst.get_pixel(1, 2), Rgba { r: 200, g: 0, b: 0, a: 255 });
    // the transparent pixel leaves the destination unchanged
    assert_eq!(dst.get_pixel(2, 2), Rgba { r: 10, g: 10, b: 10, a: 255 });
    // pixels outside the pasted region are untouched
    assert_eq!(dst.get_pixel(0, 0), Rgba { r: 10, g: 10, b: 10, a: 255 });
    assert_eq!(dst.get_pixel(3, 3), Rgba { r: 10, g: 10, b: 10, a: 255 });
}
