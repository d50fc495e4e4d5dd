use artflow::color::Rgba8;
use artflow::document::selection::{Rect, Selection};
use artflow::pixel_buffer::PixelBuffer;

fn alpha(sel: &Selection, i: usize) -> u8 {
    sel.mask.as_slice()[i * 4 + 3]
}

fn selected(sel: &Selection) -> Vec<usize> {
    (0..(sel.width * sel.height) as usize).filter(|&i| alpha(sel, i) == 255).collect()
}

#[test]
fn rect_from_points_any_corner_order() {
    let r = Rect::from_points(3, 4, 1, 1);
    assert_eq!(r, Rect { x: 1, y: 1, w: 2, h: 3 });
    assert_eq!(Rect::from_points(1, 1, 3, 4), r);
}

#[test]
fn rect_contains_is_half_open() {
    let r = Rect { x: 1, y: 1, w: 2, h: 2 };
    assert!(r.contains(1, 1));
    assert!(r.contains(2, 2));
    assert!(!r.contains(3, 1));
    assert!(!r.contains(0, 1));
}

#[test]
fn rect_normalized_clamps_origin_only() {
    let r = Rect { x: -3, y: 2, w: 5, h: 1 };
    assert_eq!(r.normalized(), Rect { x: 0, y: 2, w: 5, h: 1 });
}

#[test]
fn new_selection_is_empty() {
    let s = Selection::new(3, 2);
    assert!(selected(&s).is_empty());
    assert!(s.bounds.is_none());
    assert!(!s.is_selected_alpha(0));
    assert!(s.is_selected_alpha(100));
}

#[test]
fn set_rect_selects_the_rectangle() {
    let mut s = Selection::new(4, 3);
    s.set_rect(Rect { x: 1, y: 1, w: 2, h: 1 });
    assert_eq!(selected(&s), vec![5, 6]);
    assert_eq!(s.bounds, Some(Rect { x: 1, y: 1, w: 2, h: 1 }));
    assert!(s.is_selected_alpha(5));
}

#[test]
fn set_rect_is_clipped_at_the_right_edge() {
    let mut s = Selection::new(2, 2);
    s.set_rect(Rect { x: 1, y: 0, w: 2, h: 1 });
    assert_eq!(selected(&s), vec![1]);
}

#[test]
fn set_ellipse_is_clipped_at_the_right_edge() {
    let mut s = Selection::new(2, 3);
    s.set_ellipse(Rect { x: 1, y: 0, w: 3, h: 3 });
    assert!(selected(&s).iter().all(|&i| i % 2 == 1));
}

#[test]
fn set_ellipse_selects_inscribed_ellipse() {
    let mut s = Selection::new(3, 3);
    s.set_ellipse(Rect { x: 0, y: 0, w: 3, h: 3 });
    assert_eq!(selected(&s), vec![4, 5, 7, 8]);
    assert_eq!(s.bounds, Some(Rect { x: 0, y: 0, w: 3, h: 3 }));
}

#[test]
fn set_ellipse_large_circle() {
    let mut s = Selection::new(5, 5);
    s.set_ellipse(Rect { x: 0, y: 0, w: 5, h: 5 });
    // Centre (2.5, 2.5), radius 2.5: the four corners are outside, the middle is inside.
    assert_eq!(alpha(&s, 0), 0);
    assert_eq!(alpha(&s, 4), 0);
    assert_eq!(alpha(&s, 12), 255);
    assert_eq!(alpha(&s, 7), 255);
    assert_eq!(alpha(&s, 2), 0);
}

#[test]
fn invert_twice_restores_mask() {
    let mut s = Selection::new(3, 1);
    s.set_rect(Rect { x: 1, y: 0, w: 1, h: 1 });
    let before = s.mask.as_slice().to_vec();
    s.invert();
    assert_eq!(selected(&s), vec![0, 2]);
    s.invert();
    assert_eq!(s.mask.as_slice(), &before[..]);
}

#[test]
fn clear_and_resize_drop_bounds() {
    let mut s = Selection::new(2, 2);
    s.set_rect(Rect { x: 0, y: 0, w: 1, h: 1 });
    s.resize(3, 3);
    assert!(s.bounds.is_none());
    assert_eq!(selected(&s), vec![0]);
    s.clear();
    assert!(selected(&s).is_empty());
}

fn two_tone() -> PixelBuffer {
    // W W B
    // B W W
    let w = Rgba8::white();
    let b = Rgba8::black();
    let mut buf = PixelBuffer::new(3, 2);
    for (i, c) in [w, w, b, b, w, w].iter().enumerate() {
        buf.set_pixel((i % 3) as u32, (i / 3) as u32, *c);
    }
    buf
}

#[test]
fn magic_wand_selects_connected_similar_pixels() {
    let buf = two_tone();
    let mut s = Selection::new(3, 2);
    s.magic_wand(&buf, 0, 0, 32);
    assert_eq!(selected(&s), vec![0, 1, 4, 5]);
    assert_eq!(s.bounds, Some(Rect { x: 0, y: 0, w: 3, h: 2 }));
}

#[test]
fn magic_wand_tolerance_widens_the_region() {
    let mut buf = PixelBuffer::new(3, 1);
    buf.set_pixel(0, 0, Rgba8::new(100, 100, 100, 255));
    buf.set_pixel(1, 0, Rgba8::new(120, 100, 100, 255));
    buf.set_pixel(2, 0, Rgba8::new(140, 100, 100, 255));
    let mut s = Selection::new(3, 1);
    s.magic_wand(&buf, 0, 0, 20);
    assert_eq!(selected(&s), vec![0, 1]);
    assert_eq!(s.bounds, Some(Rect { x: 0, y: 0, w: 2, h: 1 }));
    s.magic_wand(&buf, 0, 0, 19);
    assert_eq!(selected(&s), vec![0]);
}

#[test]
fn magic_wand_outside_clears_mask_and_bounds() {
    let buf = two_tone();
    let mut s = Selection::new(3, 2);
    s.set_rect(Rect { x: 0, y: 0, w: 1, h: 1 });
    s.magic_wand(&buf, -1, 0, 32);
    assert!(selected(&s).is_empty());
    assert_eq!(s.bounds, None);
}
