//! Selection tools: rectangle marquee and magic wand.

use vstd::prelude::*;
use crate::document::Document;
use crate::document::selection::{Rect, ellipse_hits, rect_fits, rect_hits, sel_px, span_ok, spanned};
use crate::pixel_buffer::{pixel_at, PixelBuffer};
use crate::tools::flood::{bounding_box, flood_reaches, wand_hit};
use crate::tools::{PointerEvent, ToolState, drag_done, drag_step};

verus! {

/// The rectangle marquee: on release, selects the rectangle spanned by the drag.
pub fn pointer_rect(doc: &mut Document, state: &mut ToolState, pt: (i32, i32), ev: PointerEvent)
    requires
        old(doc).wf(),
        drag_done(*old(state), pt, ev) matches Some((a, b)) ==> span_ok(a, b) && rect_fits(
            spanned(a, b),
            old(doc).width as int,
        ),
    ensures
        final(doc).wf(),
        *final(state) == drag_step(*old(state), pt, ev),
        *final(doc) == (Document { selection: final(doc).selection, ..*old(doc) }),
        drag_done(*old(state), pt, ev) is None ==> final(doc).selection == old(doc).selection,
        drag_done(*old(state), pt, ev) matches Some((a, b)) ==> final(doc).selection.bounds == Some(
            spanned(a, b).spec_normalized(),
        ) && forall|i: int|
            0 <= i < final(doc).width * final(doc).height ==> #[trigger] pixel_at(
                final(doc).selection.mask.bytes(),
                i,
            ) == sel_px(rect_hits(spanned(a, b), old(doc).width as int, i)),
{
    if let Some((a, b)) = state.track_drag(pt, ev) {
        let r = Rect::from_points(a.0, a.1, b.0, b.1);
        doc.selection.set_rect(r);
    }
}

/// The ellipse marquee: on release, selects the ellipse inscribed in the rectangle spanned by
/// the drag.
pub fn pointer_ellipse(doc: &mut Document, state: &mut ToolState, pt: (i32, i32), ev: PointerEvent)
    requires
        old(doc).wf(),
        drag_done(*old(state), pt, ev) matches Some((a, b)) ==> span_ok(a, b) && rect_fits(
            spanned(a, b),
            old(doc).width as int,
        ),
    ensures
        final(doc).wf(),
        *final(state) == drag_step(*old(state), pt, ev),
        *final(doc) == (Document { selection: final(doc).selection, ..*old(doc) }),
        drag_done(*old(state), pt, ev) is None ==> final(doc).selection == old(doc).selection,
        drag_done(*old(state), pt, ev) matches Some((a, b)) ==> final(doc).selection.bounds == Some(
            spanned(a, b).spec_normalized(),
        ) && forall|i: int|
            0 <= i < final(doc).width * final(doc).height ==> #[trigger] pixel_at(
                final(doc).selection.mask.bytes(),
                i,
            ) == sel_px(ellipse_hits(spanned(a, b), old(doc).width as int, i)),
{
    if let Some((a, b)) = state.track_drag(pt, ev) {
        let r = Rect::from_points(a.0, a.1, b.0, b.1);
        doc.selection.set_ellipse(r);
    }
}

/// The lasso: free-form paths are not stored, so the pointer does nothing.
pub fn pointer_lasso(doc: &mut Document, state: &mut ToolState, pt: (i32, i32), ev: PointerEvent)
    ensures
        *final(doc) == *old(doc),
        *final(state) == *old(state),
{
}

/// The magic wand: a click, or the start of a drag, selects the region of `layer` around
/// the point with tolerance 32.
pub fn pointer_wand(doc: &mut Document, layer: &PixelBuffer, pt: (i32, i32), ev: PointerEvent)
    requires
        old(doc).wf(),
        layer.wf(),
        layer.in_bounds(pt.0 as int, pt.1 as int) ==> layer.spec_width() * layer.spec_height() <= old(doc).width
            * old(doc).height,
    ensures
        final(doc).wf(),
        *final(doc) == (Document { selection: final(doc).selection, ..*old(doc) }),
        !(ev.clicked || ev.drag_started) ==> final(doc).selection == old(doc).selection,
        ev.clicked || ev.drag_started ==> forall|i: int|
            0 <= i < final(doc).width * final(doc).height ==> #[trigger] pixel_at(
                final(doc).selection.mask.bytes(),
                i,
            ) == sel_px(wand_hit(layer@, (pt.0 as int, pt.1 as int), 32, i)),
        (ev.clicked || ev.drag_started) && layer.in_bounds(pt.0 as int, pt.1 as int) ==> (final(doc).selection.bounds matches Some(b) && bounding_box(
            |q: (int, int)|
                layer.in_bounds(q.0, q.1) && flood_reaches(layer@, (pt.0 as int, pt.1 as int), 32, false, q),
            b,
        )),
{
    if ev.clicked || ev.drag_started {
        doc.selection.magic_wand(layer, pt.0, pt.1, 32);
    }
}

} // verus!
