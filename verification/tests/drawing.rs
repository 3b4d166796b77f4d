use silicon::canvas::Canvas;
use silicon::canvas::Rgba;
use silicon::imageproc::BresenhamLineIter;
use silicon::imageproc::Rect;
use silicon::imageproc::draw_filled_circle_mut;
use silicon::imageproc::draw_filled_rect_mut;
use silicon::imageproc::draw_line_segment_mut;
use silicon::imageproc::isqrt64;

const BG: Rgba = Rgba { r: 0, g: 0, b: 0, a: 0 };
const FG: Rgba = Rgba { r: 255, g: 255, b: 255, a: 255 };

#[test]
fn rect_corners() {
    let r = Rect::at(4, 5).of_size(6, 7);
    assert_eq!(r.left, 4);
    assert_eq!(r.top, 5);
    assert_eq!(r.right(), 9);
    assert_eq!(r.bottom(), 11);
}

#[test]
fn rect_intersect() {
    let a = Rect::at(0, 0).of_size(4, 4);
    let b = Rect::at(2, 2).of_size(4, 4);
    assert_eq!(a.intersect(b), Some(Rect { left: 2, top: 2, width: 2, height: 2 }));
    let c = Rect::at(10, 10).of_size(2, 2);
    assert_eq!(a.intersect(c), None);
}

#[test]
fn filled_rect_clips_to_canvas() {
    let mut c = Canvas::from_pixel(4, 4, BG);
    draw_filled_rect_mut(&mut c, Rect::at(-2, -2).of_size(4, 4), FG);
    assert_eq!(c.get_pixel(0, 0), FG);
    assert_eq!(c.get_pixel(1, 1), FG);
    assert_eq!(c.get_pixel(2, 2), BG);
    assert_eq!(c.get_pixel(3, 3), BG);
}

#[test]
fn filled_circle_radius_zero_is_one_pixel() {
    let mut c = Canvas::from_pixel(3, 3, BG);
    draw_filled_circle_mut(&mut c, (1, 1), 0, FG);
    for y in 0..3i32 {
        for x in 0..3i32 {
            let expected = if x == 1 && y == 1 { FG } else { BG };
            assert_eq!(c.get_pixel(x as u32, y as u32), expected);
        }
    }
}

#[test]
fn filled_circle_radius_one_is_a_cross() {
    let mut c = Canvas::from_pixel(3, 3, BG);
    draw_filled_circle_mut(&mut c, (1, 1), 1, FG);
    for y in 0..3i32 {
        for x in 0..3i32 {
            let dx = x - 1;
            let dy = y - 1;
            let expected = if dx * dx + dy * dy <= 1 { FG } else { BG };
            assert_eq!(c.get_pixel(x as u32, y as u32), expected);
        }
    }
}

#[test]
fn bresenham_walks_the_segment() {
    let mut it = BresenhamLineIter::new((0, 0), (3, 1));
    assert_eq!(it.next(), Some((0, 0)));
    assert_eq!(it.next(), Some((1, 0)));
    assert_eq!(it.next(), Some((2, 1)));
    assert_eq!(it.next(), Some((3, 1)));
    assert_eq!(it.next(), None);
}

#[test]
fn line_segment_draws_horizontal_run() {
    let mut c = Canvas::from_pixel(4, 2, BG);
    draw_line_segment_mut(&mut c, (0, 0), (3, 0), FG);
    for x in 0..4u32 {
        assert_eq!(c.get_pixel(x, 0), FG);
        assert_eq!(c.get_pixel(x, 1), BG);
    }
}

#[test]
fn integer_square_roots() {
    assert_eq!(isqrt64(0), 0);
    assert_eq!(isqrt64(1), 1);
    assert_eq!(isqrt64(3), 1);
    assert_eq!(isqrt64(4), 2);
    assert_eq!(isqrt64(99), 9);
    assert_eq!(isqrt64(100), 10);
}
