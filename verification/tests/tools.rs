use artflow::color::Rgba8;
use artflow::document::selection::Rect;
use artflow::document::Document;
use artflow::pixel_buffer::PixelBuffer;
use artflow::tools::flood::{flood_region, region_bounds};
use artflow::tools::shape::{draw_line, draw_rect_outline, plot};
use artflow::tools::{eyedropper, selection, shape, transform};
use artflow::tools::shape::line_fits_exec;
use artflow::tools::{drag_accepted, PointerEvent, ToolId, ToolRegistry, ToolState};

fn ev(clicked: bool, drag_started: bool, dragged: bool, drag_stopped: bool) -> PointerEvent {
    PointerEvent { clicked, drag_started, dragged, drag_stopped }
}

fn red() -> Rgba8 {
    Rgba8::new(255, 0, 0, 255)
}

fn drag(state: &mut ToolState, a: (i32, i32), b: (i32, i32)) {
    assert!(state.track_drag(a, ev(false, true, false, false)).is_none());
    assert!(state.track_drag(b, ev(false, false, true, false)).is_none());
}

#[test]
fn track_drag_reports_start_and_end() {
    let mut s = ToolState::default();
    drag(&mut s, (1, 2), (5, 6));
    assert_eq!(s.drag_start, Some((1, 2)));
    assert_eq!(s.drag_cur, Some((5, 6)));
    let done = s.track_drag((7, 7), ev(false, false, false, true));
    assert_eq!(done, Some(((1, 2), (5, 6))));
    assert!(s.drag_start.is_none() && s.drag_cur.is_none());
}

#[test]
fn release_without_drag_reports_nothing() {
    let mut s = ToolState::default();
    assert_eq!(s.track_drag((1, 1), ev(false, false, false, true)), None);
}

#[test]
fn plot_outside_does_nothing() {
    let mut buf = PixelBuffer::new(2, 2);
    plot(&mut buf, -1, 0, red());
    plot(&mut buf, 0, 5, red());
    assert!(buf.as_slice().iter().all(|&b| b == 0));
    plot(&mut buf, 1, 1, red());
    assert_eq!(buf.get_pixel(1, 1), red());
}

#[test]
fn bresenham_line_points() {
    let mut buf = PixelBuffer::new(4, 2);
    draw_line(&mut buf, 0, 0, 3, 1, red());
    for (x, y) in [(0, 0), (1, 0), (2, 1), (3, 1)] {
        assert_eq!(buf.get_pixel(x, y), red());
    }
    assert_eq!(buf.get_pixel(2, 0), Rgba8::transparent());
    assert_eq!(buf.get_pixel(1, 1), Rgba8::transparent());
}

#[test]
fn line_reaches_both_ends_in_any_direction() {
    let mut buf = PixelBuffer::new(5, 5);
    draw_line(&mut buf, 4, 0, 0, 3, red());
    assert_eq!(buf.get_pixel(4, 0), red());
    assert_eq!(buf.get_pixel(0, 3), red());
}

#[test]
fn rect_outline_leaves_inside() {
    let mut buf = PixelBuffer::new(4, 4);
    draw_rect_outline(&mut buf, 0, 0, 3, 3, red());
    let painted = (0..16).filter(|i| buf.get_pixel(i % 4, i / 4) == red()).count();
    assert_eq!(painted, 12);
    assert_eq!(buf.get_pixel(1, 1), Rgba8::transparent());
}

#[test]
fn shape_rect_tool_draws_on_release() {
    let mut buf = PixelBuffer::new(4, 4);
    let mut s = ToolState::default();
    shape::pointer_rect(&mut buf, &mut s, (3, 3), ev(false, true, false, false), red());
    shape::pointer_rect(&mut buf, &mut s, (1, 1), ev(false, false, true, false), red());
    assert!(buf.as_slice().iter().all(|&b| b == 0));
    shape::pointer_rect(&mut buf, &mut s, (1, 1), ev(false, false, false, true), red());
    assert_eq!(buf.get_pixel(1, 1), red());
    assert_eq!(buf.get_pixel(3, 2), red());
    assert_eq!(buf.get_pixel(2, 2), Rgba8::transparent());
}

#[test]
fn shape_line_tool_draws_on_release() {
    let mut buf = PixelBuffer::new(3, 3);
    let mut s = ToolState::default();
    drag(&mut s, (0, 0), (2, 2));
    shape::pointer_line(&mut buf, &mut s, (2, 2), ev(false, false, false, true), red());
    assert_eq!(buf.get_pixel(1, 1), red());
    assert_eq!(buf.get_pixel(1, 0), Rgba8::transparent());
}

#[test]
fn flood_region_marks_connected_colours() {
    let mut buf = PixelBuffer::new(3, 3);
    buf.clear(Rgba8::white());
    // A black wall down the middle column.
    for y in 0..3 {
        buf.set_pixel(1, y, Rgba8::black());
    }
    let region = flood_region(&buf, 0, 0, 12, false);
    let marked: Vec<usize> = (0..9).filter(|&i| region[i]).collect();
    assert_eq!(marked, vec![0, 3, 6]);
    assert_eq!(region_bounds(&region, 3, 3), Some(Rect { x: 0, y: 0, w: 1, h: 3 }));
}

#[test]
fn flood_region_outside_is_empty() {
    let buf = PixelBuffer::new(2, 2);
    let region = flood_region(&buf, 2, 0, 255, false);
    assert_eq!(region.len(), 4);
    assert!(region.iter().all(|&b| !b));
    assert_eq!(region_bounds(&region, 2, 2), None);
}

#[test]
fn flood_region_stops_at_clear_pixels() {
    let mut buf = PixelBuffer::new(3, 1);
    buf.set_pixel(0, 0, Rgba8::new(0, 0, 0, 9));
    buf.set_pixel(2, 0, Rgba8::new(0, 0, 0, 9));
    // Everything is within tolerance, but the transparent middle pixel does not spread.
    let region = flood_region(&buf, 0, 0, 255, true);
    assert_eq!(region, vec![true, true, false]);
    let spreading = flood_region(&buf, 0, 0, 255, false);
    assert_eq!(spreading, vec![true, true, true]);
}

#[test]
fn eyedropper_samples_on_click() {
    let mut buf = PixelBuffer::new(2, 2);
    buf.set_pixel(1, 0, red());
    assert_eq!(eyedropper::pointer_copy(&buf, (1, 0), ev(true, false, false, false)), Some(red()));
    assert_eq!(eyedropper::pointer(&mut buf, (1, 0), ev(false, true, false, false)), Some(red()));
    assert_eq!(eyedropper::pointer_copy(&buf, (1, 0), ev(false, false, true, false)), None);
    assert_eq!(eyedropper::pointer_copy(&buf, (2, 0), ev(true, false, false, false)), None);
}

#[test]
fn marquee_selects_dragged_rectangle() {
    let mut doc = Document::new("d".to_string(), 4, 4, Rgba8::white());
    let mut s = ToolState::default();
    drag(&mut s, (2, 2), (0, 1));
    selection::pointer_rect(&mut doc, &mut s, (0, 1), ev(false, false, false, true));
    assert_eq!(doc.selection.bounds, Some(Rect { x: 0, y: 1, w: 2, h: 1 }));
    assert!(doc.selection.is_selected_alpha(4));
    assert!(doc.selection.is_selected_alpha(5));
    assert!(!doc.selection.is_selected_alpha(6));
}

#[test]
fn ellipse_marquee_selects_inscribed_ellipse() {
    let mut doc = Document::new("d".to_string(), 3, 3, Rgba8::white());
    let mut s = ToolState::default();
    drag(&mut s, (0, 0), (3, 3));
    selection::pointer_ellipse(&mut doc, &mut s, (3, 3), ev(false, false, false, true));
    assert_eq!(doc.selection.bounds, Some(Rect { x: 0, y: 0, w: 3, h: 3 }));
    assert!(doc.selection.is_selected_alpha(4));
    assert!(!doc.selection.is_selected_alpha(0));
}

#[test]
fn wand_tool_acts_on_click() {
    let mut doc = Document::new("d".to_string(), 2, 1, Rgba8::white());
    let layer = doc.layers[0].as_pixel().unwrap().clone();
    selection::pointer_wand(&mut doc, &layer, (0, 0), ev(false, false, true, false));
    assert!(doc.selection.bounds.is_none());
    selection::pointer_wand(&mut doc, &layer, (0, 0), ev(true, false, false, false));
    assert_eq!(doc.selection.bounds, Some(Rect { x: 0, y: 0, w: 2, h: 1 }));
}

#[test]
fn crop_tool_crops_to_the_drag() {
    let mut doc = Document::new("d".to_string(), 4, 4, Rgba8::white());
    doc.layers[0].as_pixel_mut().unwrap().set_pixel(2, 1, red());
    let mut s = ToolState::default();
    drag(&mut s, (1, 1), (3, 3));
    transform::pointer_crop(&mut doc, &mut s, (3, 3), ev(false, false, false, true));
    assert_eq!((doc.width(), doc.height()), (2, 2));
    assert_eq!(doc.layers[0].as_pixel().unwrap().get_pixel(1, 0), red());
}

#[test]
fn crop_document_clips_to_canvas() {
    let mut doc = Document::new("d".to_string(), 4, 4, Rgba8::white());
    transform::crop_document(&mut doc, 3, 3, 10, 10);
    assert_eq!((doc.width(), doc.height()), (1, 1));
}

#[test]
fn move_tool_only_tracks() {
    let mut doc = Document::new("d".to_string(), 2, 2, Rgba8::white());
    let mut s = ToolState::default();
    drag(&mut s, (0, 0), (1, 1));
    transform::pointer_move(&mut doc, &mut s, (1, 1), ev(false, false, false, true));
    assert_eq!((doc.width(), doc.height()), (2, 2));
    assert!(s.drag_start.is_none());
}

#[test]
fn tool_labels_icons_and_shortcuts() {
    assert_eq!(ToolId::Brush.label(), "Brush");
    assert_eq!(ToolId::MarqueeRect.label(), "Rect Select");
    assert_eq!(ToolId::Brush.shortcut(), "B");
    assert_eq!(ToolId::ShapeLine.shortcut(), "Shift+U");
    assert!(!ToolId::Fill.icon().is_empty());
}

#[test]
fn registry_starts_idle() {
    let mut r = ToolRegistry::new();
    r.register_defaults();
    assert!(r.state.drag_start.is_none());
    assert!(r.state.last_stamp.is_none());
}

#[test]
fn long_lines_fit_where_the_error_term_fits() {
    assert!(line_fits_exec(0, 0, 1 << 29, 0));
    assert!(line_fits_exec(0, 0, 0, 1 << 30));
    assert!(!line_fits_exec(0, 0, 1 << 30, 0));
    assert!(!line_fits_exec(i32::MIN, 0, i32::MAX, 0));
    assert!(line_fits_exec(-5, 3, 7, -2));
}

#[test]
fn long_line_is_drawn() {
    let mut buf = PixelBuffer::new(3, 1);
    draw_line(&mut buf, 0, 0, 1 << 20, 0, red());
    assert_eq!(buf.get_pixel(2, 0), red());
}

#[test]
fn drag_accepted_follows_each_tool() {
    let mut s = ToolState::default();
    let release = ev(false, false, false, true);
    // No drag completes: every tool accepts.
    assert!(drag_accepted(ToolId::Crop, &s, (5, 5), release, 4, 4));
    drag(&mut s, (6, 6), (9, 9));
    // The crop's corner (6, 6) lies past a 4 x 4 canvas, but on an 8 x 8 one.
    assert!(!drag_accepted(ToolId::Crop, &s, (9, 9), release, 4, 4));
    assert!(drag_accepted(ToolId::Crop, &s, (9, 9), release, 8, 8));
    assert!(drag_accepted(ToolId::MarqueeRect, &s, (9, 9), release, 4, 4));
    assert!(drag_accepted(ToolId::Brush, &s, (9, 9), release, 4, 4));
    let mut t = ToolState::default();
    drag(&mut t, (i32::MIN, 0), (i32::MAX, 0));
    assert!(!drag_accepted(ToolId::MarqueeEllipse, &t, (i32::MAX, 0), release, 4, 4));
    assert!(!drag_accepted(ToolId::ShapeLine, &t, (i32::MAX, 0), release, 4, 4));
    assert!(!drag_accepted(ToolId::Move, &t, (i32::MAX, 0), release, 4, 4));
    assert!(drag_accepted(ToolId::Fill, &t, (i32::MAX, 0), release, 4, 4));
}
