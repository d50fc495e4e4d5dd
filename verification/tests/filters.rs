use artflow::color::Rgba8;
use artflow::filters::adjustments::{Grayscale, Invert, Posterize};
use artflow::filters::blur::{BoxBlur, GaussianBlur};
use artflow::filters::distort::{shift_rows, FlipHorizontal, FlipVertical, Rotate90};
use artflow::filters::{apply_in_place, Filter};
use artflow::pixel_buffer::PixelBuffer;

fn px(r: u8, g: u8, b: u8, a: u8) -> Rgba8 {
    Rgba8::new(r, g, b, a)
}

fn row(values: &[Rgba8]) -> PixelBuffer {
    let mut buf = PixelBuffer::new(values.len() as u32, 1);
    for (i, c) in values.iter().enumerate() {
        buf.set_pixel(i as u32, 0, *c);
    }
    buf
}

#[test]
fn invert_flips_colour_keeps_alpha() {
    let mut buf = row(&[px(10, 20, 30, 40)]);
    apply_in_place(&Invert, &mut buf);
    assert_eq!(buf.get_pixel(0, 0), px(245, 235, 225, 40));
}

#[test]
fn invert_twice_is_identity() {
    let before = row(&[px(1, 2, 3, 4), px(200, 100, 50, 255)]);
    let mut buf = before.clone();
    apply_in_place(&Invert, &mut buf);
    apply_in_place(&Invert, &mut buf);
    assert_eq!(buf.as_slice(), before.as_slice());
}

#[test]
fn grayscale_uses_rec709_luma() {
    let mut buf = row(&[px(100, 150, 200, 9)]);
    apply_in_place(&Grayscale, &mut buf);
    assert_eq!(buf.get_pixel(0, 0), px(143, 143, 143, 9));
}

#[test]
fn posterize_four_levels() {
    let mut buf = row(&[px(100, 0, 255, 1)]);
    apply_in_place(&Posterize { levels: 4 }, &mut buf);
    assert_eq!(buf.get_pixel(0, 0), px(85, 0, 255, 1));
}

#[test]
fn posterize_below_two_levels_uses_two() {
    let mut a = row(&[px(100, 130, 255, 1)]);
    let mut b = a.clone();
    apply_in_place(&Posterize { levels: 0 }, &mut a);
    apply_in_place(&Posterize { levels: 2 }, &mut b);
    assert_eq!(a.as_slice(), b.as_slice());
    assert_eq!(a.get_pixel(0, 0), px(0, 255, 255, 1));
}

#[test]
fn box_blur_window_mean() {
    let input = row(&[px(0, 0, 0, 255), px(100, 0, 0, 255), px(200, 0, 0, 255)]);
    let mut out = PixelBuffer::new(3, 1);
    BoxBlur { radius: 1 }.apply(&input, &mut out);
    assert_eq!(out.get_pixel(0, 0), px(33, 0, 0, 255));
    assert_eq!(out.get_pixel(1, 0), px(100, 0, 0, 255));
    assert_eq!(out.get_pixel(2, 0), px(167, 0, 0, 255));
}

#[test]
fn box_blur_first_pixel_is_its_window_mean() {
    let input = PixelBuffer::from_rgba(3, 1, vec![255, 0, 0, 255, 0, 0, 0, 255, 0, 0, 0, 255]);
    let mut out = input.clone();
    BoxBlur { radius: 1 }.apply(&input, &mut out);
    assert_eq!(out.as_slice(), &[170, 0, 0, 255, 85, 0, 0, 255, 0, 0, 0, 255][..]);
}

#[test]
fn box_blur_radius_zero_keeps_image() {
    let input = row(&[px(1, 2, 3, 4), px(50, 60, 70, 80)]);
    let mut out = PixelBuffer::new(2, 1);
    BoxBlur { radius: 0 }.apply(&input, &mut out);
    assert_eq!(out.as_slice(), input.as_slice());
}

#[test]
fn gaussian_blur_weighted_taps() {
    let input = row(&[px(0, 0, 0, 255), px(100, 0, 0, 255), px(200, 0, 0, 255)]);
    let mut out = PixelBuffer::new(3, 1);
    GaussianBlur { radius: 1, weights: vec![1, 2, 1] }.apply(&input, &mut out);
    assert_eq!(out.get_pixel(0, 0), px(25, 0, 0, 255));
    assert_eq!(out.get_pixel(1, 0), px(100, 0, 0, 255));
    assert_eq!(out.get_pixel(2, 0), px(175, 0, 0, 255));
}

#[test]
fn gaussian_blur_vertical_pass() {
    let mut input = PixelBuffer::new(1, 3);
    input.set_pixel(0, 0, px(0, 0, 0, 0));
    input.set_pixel(0, 1, px(0, 100, 0, 0));
    input.set_pixel(0, 2, px(0, 200, 0, 0));
    let mut out = PixelBuffer::new(1, 3);
    GaussianBlur { radius: 1, weights: vec![1, 2, 1] }.apply(&input, &mut out);
    assert_eq!(out.get_pixel(0, 0), px(0, 25, 0, 0));
    assert_eq!(out.get_pixel(0, 1), px(0, 100, 0, 0));
    assert_eq!(out.get_pixel(0, 2), px(0, 175, 0, 0));
}

#[test]
fn flips_mirror_the_image() {
    let a = px(1, 0, 0, 255);
    let b = px(2, 0, 0, 255);
    let mut h = row(&[a, b]);
    apply_in_place(&FlipHorizontal, &mut h);
    assert_eq!(h.get_pixel(0, 0), b);
    assert_eq!(h.get_pixel(1, 0), a);

    let mut v = PixelBuffer::new(1, 2);
    v.set_pixel(0, 0, a);
    v.set_pixel(0, 1, b);
    apply_in_place(&FlipVertical, &mut v);
    assert_eq!(v.get_pixel(0, 0), b);
    assert_eq!(v.get_pixel(0, 1), a);
}

#[test]
fn rotate90_writes_transposed_target() {
    let a = px(1, 0, 0, 255);
    let b = px(2, 0, 0, 255);
    let input = row(&[a, b]);
    let mut out = PixelBuffer::new(1, 2);
    Rotate90.apply(&input, &mut out);
    assert_eq!(out.get_pixel(0, 1), a);
    assert_eq!(out.get_pixel(0, 0), b);
}

#[test]
fn shift_rows_clamps_at_edges() {
    let (a, b, c) = (px(1, 0, 0, 0), px(2, 0, 0, 0), px(3, 0, 0, 0));
    let (d, e, f) = (px(4, 0, 0, 0), px(5, 0, 0, 0), px(6, 0, 0, 0));
    let mut input = PixelBuffer::new(3, 2);
    for (x, p) in [a, b, c].iter().enumerate() {
        input.set_pixel(x as u32, 0, *p);
    }
    for (x, p) in [d, e, f].iter().enumerate() {
        input.set_pixel(x as u32, 1, *p);
    }
    let mut out = PixelBuffer::new(3, 2);
    shift_rows(&input, &mut out, &vec![1, -5]);
    assert_eq!(out.get_pixel(0, 0), b);
    assert_eq!(out.get_pixel(1, 0), c);
    assert_eq!(out.get_pixel(2, 0), c);
    assert_eq!(out.get_pixel(0, 1), d);
    assert_eq!(out.get_pixel(2, 1), d);
}

#[test]
fn flipping_twice_gives_back_the_image() {
    let mut buf = PixelBuffer::new(3, 2);
    for i in 0..6u32 {
        buf.set_pixel(i % 3, i / 3, px(i as u8, 0, 0, 255));
    }
    let before = buf.clone();
    apply_in_place(&FlipHorizontal, &mut buf);
    assert_ne!(buf.as_slice(), before.as_slice());
    apply_in_place(&FlipHorizontal, &mut buf);
    assert_eq!(buf.as_slice(), before.as_slice());
    apply_in_place(&FlipVertical, &mut buf);
    apply_in_place(&FlipVertical, &mut buf);
    assert_eq!(buf.as_slice(), before.as_slice());
}

#[test]
fn gaussian_blur_keeps_a_one_colour_image() {
    let c = px(10, 200, 30, 128);
    let input = row(&[c, c, c, c]);
    let mut out = PixelBuffer::new(4, 1);
    GaussianBlur { radius: 2, weights: vec![1, 4, 6, 4, 1] }.apply(&input, &mut out);
    assert_eq!(out.as_slice(), input.as_slice());
}

#[test]
fn gaussian_blur_radius_zero_keeps_image() {
    let input = row(&[px(1, 2, 3, 4), px(250, 60, 0, 80)]);
    let mut out = PixelBuffer::new(2, 1);
    GaussianBlur { radius: 0, weights: vec![7] }.apply(&input, &mut out);
    assert_eq!(out.as_slice(), input.as_slice());
}
