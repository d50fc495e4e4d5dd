use artflow::color::Rgba8;
use artflow::document::history::{HistoryStack, Operation};
use artflow::document::layer::{BlendMode, Layer};
use artflow::document::{Document, DocumentStore};

fn doc(w: u32, h: u32) -> Document {
    Document::new("Untitled".to_string(), w, h, Rgba8::white())
}

fn names(d: &Document) -> Vec<String> {
    d.layers.iter().map(|l| l.name.clone()).collect()
}

#[test]
fn new_document_has_background_layer() {
    let d = doc(4, 3);
    assert_eq!(d.width(), 4);
    assert_eq!(d.height(), 3);
    assert_eq!(d.layer_count(), 1);
    assert_eq!(names(&d), vec!["Background"]);
    assert_eq!(d.active_layer, Some(0));
    let bg = d.layers[0].as_pixel().unwrap();
    assert_eq!(bg.get_pixel(3, 2), Rgba8::white());
    assert!(!d.history.can_undo());
    assert!(!d.dirty);
}

#[test]
fn add_layer_goes_above_active_and_becomes_active() {
    let mut d = doc(2, 2);
    let a = d.add_pixel_layer("A".to_string());
    assert_eq!(a, 1);
    d.active_layer = Some(0);
    let b = d.add_pixel_layer("B".to_string());
    assert_eq!(b, 2);
    assert_eq!(names(&d), vec!["Background", "B", "A"]);
    assert_eq!(d.active_layer, Some(2));
    assert!(d.dirty);
    assert_eq!(d.layer_index(1), Some(2));
}

#[test]
fn undo_add_layer_removes_it_and_redo_brings_it_back() {
    let mut d = doc(2, 2);
    let id = d.add_pixel_layer("Sketch".to_string());
    d.undo();
    assert_eq!(names(&d), vec!["Background"]);
    assert!(d.layer(id).is_none());
    assert_eq!(d.active_layer, Some(0));
    assert!(d.history.can_redo());
    assert!(!d.history.can_undo());
    d.redo();
    assert_eq!(names(&d), vec!["Background", "Sketch"]);
    assert!(d.layer(id).is_some());
    assert_eq!(d.active_layer, Some(id));
    assert!(d.history.can_undo());
    assert!(!d.history.can_redo());
}

#[test]
fn delete_layer_then_undo_restores_it_in_place() {
    let mut d = doc(2, 2);
    d.add_pixel_layer("A".to_string());
    d.add_pixel_layer("B".to_string());
    assert_eq!(names(&d), vec!["Background", "A", "B"]);
    d.delete_layer(0);
    assert_eq!(names(&d), vec!["A", "B"]);
    d.undo();
    let ids: Vec<u32> = d.layers.iter().map(|l| l.id).collect();
    assert_eq!(ids, vec![0, 1, 2]);
    assert_eq!(d.active_layer, Some(2));
    d.redo();
    assert_eq!(names(&d), vec!["A", "B"]);
}

#[test]
fn new_layer_ids_never_repeat() {
    let mut d = doc(2, 2);
    d.add_pixel_layer("a".to_string());
    d.delete_layer(0);
    let id = d.add_layer("b".to_string(), Layer::new_pixel("x".to_string(), 2, 2, Rgba8::transparent()));
    assert_eq!(id, 2);
    let ids: Vec<u32> = d.layers.iter().map(|l| l.id).collect();
    assert_eq!(ids, vec![1, 2]);
}

#[test]
fn undo_then_redo_of_each_operation_restores_the_document() {
    let mut d = doc(2, 2);
    d.add_pixel_layer("A".to_string());
    d.duplicate_layer(1);
    d.resize_canvas(3, 1);
    d.delete_layer(0);
    d.flatten(artflow::pixel_buffer::PixelBuffer::new(3, 1));
    let snapshot = |d: &Document| {
        (
            d.layers.iter().map(|l| (l.id, l.name.clone(), l.as_pixel().unwrap().as_slice().to_vec())).collect::<Vec<_>>(),
            d.active_layer,
            d.width(),
            d.height(),
        )
    };
    let mut states = vec![snapshot(&d)];
    for _ in 0..5 {
        d.undo();
        states.push(snapshot(&d));
    }
    assert_eq!(states[5].0.len(), 1);
    assert_eq!((states[5].2, states[5].3), (2, 2));
    for k in (0..5).rev() {
        d.redo();
        assert_eq!(snapshot(&d), states[k]);
    }
}

#[test]
fn deleting_active_layer_activates_the_next() {
    let mut d = doc(2, 2);
    d.add_pixel_layer("A".to_string());
    d.add_pixel_layer("B".to_string());
    d.active_layer = Some(1);
    d.delete_layer(1);
    assert_eq!(d.active_layer, Some(2));
    d.delete_layer(2);
    assert_eq!(d.active_layer, Some(0));
}

#[test]
fn delete_unknown_layer_changes_nothing() {
    let mut d = doc(2, 2);
    d.delete_layer(42);
    assert_eq!(d.layer_count(), 1);
    assert!(!d.history.can_undo());
}

#[test]
fn duplicate_layer_inserts_copy_above() {
    let mut d = doc(2, 2);
    d.duplicate_layer(0);
    assert_eq!(names(&d), vec!["Background", "Background copy"]);
    assert_eq!(d.layers[1].id, 1);
    assert_eq!(d.active_layer, Some(1));
}

#[test]
fn move_layer_clamps_to_the_stack() {
    let mut d = doc(2, 2);
    d.add_pixel_layer("A".to_string());
    d.add_pixel_layer("B".to_string());
    d.move_layer(2, -10);
    assert_eq!(names(&d), vec!["B", "Background", "A"]);
    d.move_layer(2, 1);
    assert_eq!(names(&d), vec!["Background", "B", "A"]);
    d.move_layer(1, 5);
    assert_eq!(names(&d), vec!["Background", "B", "A"]);
}

#[test]
fn resize_canvas_pads_with_background_and_undoes() {
    let mut d = doc(2, 2);
    d.resize_canvas(3, 1);
    assert_eq!((d.width(), d.height()), (3, 1));
    assert_eq!((d.selection.width, d.selection.height), (3, 1));
    let pix = d.layers[0].as_pixel().unwrap();
    assert_eq!(pix.get_pixel(2, 0), Rgba8::white());
    d.undo();
    assert_eq!((d.width(), d.height()), (2, 2));
    assert_eq!(d.layers[0].as_pixel().unwrap().width(), 2);
}

#[test]
fn flatten_keeps_bottom_layer_with_composed_pixels() {
    let mut d = doc(1, 1);
    d.add_pixel_layer("Top".to_string());
    let mut composed = artflow::pixel_buffer::PixelBuffer::new(1, 1);
    composed.set_pixel(0, 0, Rgba8::new(7, 8, 9, 255));
    d.flatten(composed);
    assert_eq!(d.layer_count(), 1);
    assert_eq!(d.layers[0].as_pixel().unwrap().get_pixel(0, 0), Rgba8::new(7, 8, 9, 255));
    d.undo();
    assert_eq!(names(&d), vec!["Background", "Top"]);
    assert_eq!(d.layers[0].as_pixel().unwrap().get_pixel(0, 0), Rgba8::white());
}

#[test]
fn flatten_leaves_a_plain_layer() {
    let mut d = doc(1, 1);
    d.add_pixel_layer("Top".to_string());
    d.set_layer_opacity(0, 100);
    d.set_layer_visible(0, false);
    d.set_layer_blend(0, BlendMode::Screen);
    d.layers[0].add_mask();
    d.flatten(artflow::pixel_buffer::PixelBuffer::new(1, 1));
    let l = &d.layers[0];
    assert!(l.visible);
    assert_eq!(l.opacity, 65535);
    assert_eq!(l.blend, BlendMode::Normal);
    assert!(l.mask().is_none());
    assert_eq!(d.active_layer, Some(0));
}

#[test]
fn layer_property_setters() {
    let mut d = doc(1, 1);
    d.set_layer_visible(0, false);
    d.set_layer_opacity(0, 128);
    d.set_layer_blend(0, BlendMode::Multiply);
    let l = d.layer(0).unwrap();
    assert!(!l.visible);
    assert_eq!(l.opacity, 128);
    assert_eq!(l.blend, BlendMode::Multiply);
    assert!(d.layer(9).is_none());
}

#[test]
fn layer_masks_come_and_go() {
    let mut l = Layer::new_pixel("L".to_string(), 2, 2, Rgba8::black());
    assert!(l.mask().is_none());
    l.add_mask();
    assert_eq!(l.mask().unwrap().width(), 2);
    l.remove_mask();
    assert!(l.mask().is_none());
    assert_eq!((l.width(), l.height()), (2, 2));
}

#[test]
fn history_push_undo_redo() {
    let mut h = HistoryStack::new();
    assert!(!h.can_undo());
    h.push(Operation::PixelsChanged { label: "stroke".to_string() });
    assert!(h.can_undo());
    let op = h.undo();
    assert!(matches!(op, Some(Operation::PixelsChanged { .. })));
    assert!(h.can_redo());
    assert!(h.redo().is_some());
    assert!(!h.can_redo());
    assert!(h.undo().is_some());
    assert!(h.undo().is_none());
}

#[test]
fn history_push_clears_redo() {
    let mut h = HistoryStack::new();
    h.push(Operation::LayerAdded { id: 2, active: None });
    h.undo();
    h.push(Operation::LayerAdded { id: 3, active: None });
    assert!(!h.can_redo());
}

#[test]
fn history_keeps_at_most_cap_entries() {
    let mut h = HistoryStack::new();
    for _ in 0..300 {
        h.push(Operation::LayerAdded { id: 2, active: None });
    }
    let mut undos = 0;
    while h.undo().is_some() {
        undos += 1;
    }
    assert_eq!(undos, 256);
}

#[test]
fn history_clear_forgets_everything() {
    let mut h = HistoryStack::new();
    h.push(Operation::LayerAdded { id: 2, active: None });
    h.undo();
    h.push(Operation::LayerAdded { id: 2, active: None });
    h.clear();
    assert!(!h.can_undo());
    assert!(!h.can_redo());
}

#[test]
fn blend_mode_labels_and_order() {
    let all = BlendMode::all();
    assert_eq!(all.len(), 18);
    assert_eq!(all[17], BlendMode::Subtract);
    assert_eq!(all[0], BlendMode::Normal);
    assert_eq!(BlendMode::Normal.label(), "Normal");
    assert_eq!(BlendMode::default(), BlendMode::Normal);
}

#[test]
fn store_push_get_close() {
    let mut s = DocumentStore::default();
    let a = s.push(doc(1, 1));
    let b = s.push(doc(2, 2));
    assert_eq!((a, b), (0, 1));
    assert_eq!(s.count(), 2);
    assert_eq!(s.iter().count(), 2);
    for d in s.iter_mut().iter_mut() {
        d.dirty = true;
    }
    assert!(s.get(1).unwrap().dirty);
    assert_eq!(s.get(1).unwrap().width(), 2);
    assert_eq!(s.get(0).unwrap().width(), 1);
    assert!(s.get(2).is_none());
    s.close(0);
    assert_eq!(s.count(), 1);
    assert_eq!(s.get(0).unwrap().width(), 2);
}
