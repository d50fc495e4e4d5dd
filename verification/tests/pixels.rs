use artflow::color::Rgba8;
use artflow::pixel_buffer::PixelBuffer;

fn px(r: u8, g: u8, b: u8, a: u8) -> Rgba8 {
    Rgba8::new(r, g, b, a)
}

#[test]
fn new_buffer_is_transparent_black() {
    let buf = PixelBuffer::new(3, 2);
    assert_eq!(buf.width(), 3);
    assert_eq!(buf.height(), 2);
    assert_eq!(buf.as_slice().len(), 24);
    assert!(buf.as_slice().iter().all(|&b| b == 0));
}

#[test]
fn set_then_get_pixel() {
    let mut buf = PixelBuffer::new(4, 4);
    buf.set_pixel(2, 1, px(10, 20, 30, 40));
    assert_eq!(buf.get_pixel(2, 1), px(10, 20, 30, 40));
    assert_eq!(buf.get_pixel(1, 2), Rgba8::transparent());
    let idx = (1 * 4 + 2) * 4;
    assert_eq!(&buf.as_slice()[idx..idx + 4], &[10, 20, 30, 40]);
}

#[test]
fn out_of_bounds_reads_transparent_and_writes_nothing() {
    let mut buf = PixelBuffer::new(2, 2);
    buf.clear(Rgba8::white());
    buf.set_pixel(5, 0, Rgba8::black());
    assert_eq!(buf.get_pixel(5, 0), Rgba8::transparent());
    assert!(buf.as_slice().iter().all(|&b| b == 255));
}

#[test]
fn from_rgba_keeps_bytes() {
    let data: Vec<u8> = (0..16).collect();
    let buf = PixelBuffer::from_rgba(2, 2, data.clone());
    assert_eq!(buf.as_slice(), &data[..]);
    assert_eq!(buf.get_pixel(1, 1), px(12, 13, 14, 15));
}

#[test]
fn resize_canvas_pads_with_background() {
    let mut buf = PixelBuffer::new(2, 2);
    buf.clear(px(1, 2, 3, 4));
    buf.resize_canvas(3, 1, px(9, 9, 9, 9));
    assert_eq!(buf.width(), 3);
    assert_eq!(buf.height(), 1);
    assert_eq!(buf.get_pixel(0, 0), px(1, 2, 3, 4));
    assert_eq!(buf.get_pixel(1, 0), px(1, 2, 3, 4));
    assert_eq!(buf.get_pixel(2, 0), px(9, 9, 9, 9));
}

#[test]
fn resize_scaled_samples_nearest_lower() {
    let mut buf = PixelBuffer::new(2, 1);
    buf.set_pixel(0, 0, px(100, 0, 0, 255));
    buf.set_pixel(1, 0, px(0, 200, 0, 255));
    buf.resize_scaled(4, 2, &[0, 0, 1, 1], &[0, 0]);
    assert_eq!(buf.width(), 4);
    assert_eq!(buf.height(), 2);
    // The sampling picks source columns 0, 0, 1, 1.
    assert_eq!(buf.get_pixel(0, 0), px(100, 0, 0, 255));
    assert_eq!(buf.get_pixel(1, 1), px(100, 0, 0, 255));
    assert_eq!(buf.get_pixel(2, 0), px(0, 200, 0, 255));
    assert_eq!(buf.get_pixel(3, 1), px(0, 200, 0, 255));
}

#[test]
fn for_each_pixel_sees_coordinates_and_colour() {
    let mut buf = PixelBuffer::new(3, 2);
    buf.clear(px(5, 5, 5, 5));
    buf.for_each_pixel(|x, y, c| Rgba8::new(x as u8, y as u8, c.b + 1, 255));
    assert_eq!(buf.get_pixel(2, 1), px(2, 1, 6, 255));
    assert_eq!(buf.get_pixel(0, 0), px(0, 0, 6, 255));
}

#[test]
fn clone_is_independent() {
    let mut a = PixelBuffer::new(1, 1);
    let b = a.clone();
    a.set_pixel(0, 0, Rgba8::white());
    assert_eq!(b.get_pixel(0, 0), Rgba8::transparent());
}

#[test]
fn as_mut_slice_writes_through() {
    let mut buf = PixelBuffer::new(1, 1);
    buf.as_mut_slice()[3] = 77;
    assert_eq!(buf.get_pixel(0, 0).a, 77);
}

#[test]
fn resize_scaled_takes_the_given_source_pixels() {
    let mut buf = PixelBuffer::new(2, 1);
    buf.set_pixel(0, 0, px(100, 0, 0, 255));
    buf.set_pixel(1, 0, px(0, 200, 0, 255));
    buf.resize_scaled(3, 1, &[1, 0, 1], &[0]);
    assert_eq!(buf.get_pixel(0, 0), px(0, 200, 0, 255));
    assert_eq!(buf.get_pixel(1, 0), px(100, 0, 0, 255));
    assert_eq!(buf.get_pixel(2, 0), px(0, 200, 0, 255));
}

#[test]
fn resize_scaled_to_the_same_size_changes_nothing() {
    let mut buf = PixelBuffer::new(2, 1);
    buf.set_pixel(1, 0, px(9, 9, 9, 9));
    let before = buf.as_slice().to_vec();
    buf.resize_scaled(2, 1, &[], &[]);
    assert_eq!(buf.as_slice(), &before[..]);
}
