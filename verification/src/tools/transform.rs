//! Move / crop tools.

use vstd::prelude::*;
use crate::color::Rgba8;
use crate::document::{Document, DocState};
use crate::document::layer::layer_views;
use crate::document::layer::{LayerKind, LayerView};
use crate::document::selection::{Rect, span_ok};
use crate::filters::distort::read_px;
use crate::pixel_buffer::{Image, PixelBuffer};
use crate::tools::{PointerEvent, ToolState, drag_done, drag_step};

verus! {

/// `new` is the `nw * nh` region of `old` whose top-left corner is `(x, y)`; pixels outside
/// `old` read as transparent black.
pub open spec fn cropped(old: Image, new: Image, x: int, y: int, nw: nat, nh: nat) -> bool {
    &&& new.wf()
    &&& new.width == nw
    &&& new.height == nh
    &&& forall|xx: int, yy: int| new.in_bounds(xx, yy) ==> #[trigger] new.px(xx, yy) == read_px(old, x + xx, y + yy)
}

/// `v1` is layer `v0` with its pixels and mask cropped.
pub open spec fn layer_cropped(v0: LayerView, v1: LayerView, x: int, y: int, nw: nat, nh: nat) -> bool {
    &&& v1 == LayerView { pixels: v1.pixels, mask: v1.mask, ..v0 }
    &&& cropped(v0.pixels, v1.pixels, x, y, nw, nh)
    &&& (v0.mask is None <==> v1.mask is None)
    &&& (v0.mask matches Some(m0) ==> (v1.mask matches Some(m1) && cropped(m0, m1, x, y, nw, nh)))
}

/// The size a crop at `(x, y)` of `w * h` keeps of a `dw * dh` canvas.
pub open spec fn crop_size(x: u32, w: u32, dw: u32) -> u32 {
    if w < dw - x { w } else { (dw - x) as u32 }
}

/// `s1` is `s0` cropped to `nw * nh` at `(x, y)`: every layer cropped, the selection resized
/// and bounding the whole new canvas, and the document marked dirty (an empty crop changes
/// nothing).
pub open spec fn doc_cropped(s0: DocState, s1: DocState, x: u32, y: u32, w: u32, h: u32) -> bool {
    let nw = crop_size(x, w, s0.width);
    let nh = crop_size(y, h, s0.height);
    if nw == 0 || nh == 0 {
        s1 == s0
    } else {
        &&& s1 == DocState {
            layers: s1.layers,
            width: nw,
            height: nh,
            sel_width: nw,
            sel_height: nh,
            sel_mask: s1.sel_mask,
            sel_bounds: Some(Rect { x: 0, y: 0, w: nw as i32, h: nh as i32 }),
            dirty: true,
            ..s0
        }
        &&& s1.layers.len() == s0.layers.len()
        &&& forall|i: int|
            0 <= i < s0.layers.len() ==> layer_cropped(
                #[trigger] s0.layers[i],
                s1.layers[i],
                x as int,
                y as int,
                nw as nat,
                nh as nat,
            )
        &&& forall|xx: int, yy: int|
            s1.sel_mask.in_bounds(xx, yy) ==> #[trigger] s1.sel_mask.px(xx, yy) == (if s0.sel_mask.in_bounds(xx, yy) {
                s0.sel_mask.px(xx, yy)
            } else {
                Rgba8 { r: 0, g: 0, b: 0, a: 0 }
            })
        &&& s1.sel_mask.wf()
        &&& s1.sel_mask.width == nw
        &&& s1.sel_mask.height == nh
    }
}

/// The `nw * nh` region of `src` at `(x, y)` as a new buffer.
fn crop_buffer(src: &PixelBuffer, x: u32, y: u32, nw: u32, nh: u32) -> (n: PixelBuffer)
    requires
        src.wf(),
        nw * nh * 4 <= u32::MAX,
        x + nw <= u32::MAX,
        y + nh <= u32::MAX,
    ensures
        cropped(src@, n@, x as int, y as int, nw as nat, nh as nat),
{
    let mut n = PixelBuffer::new(nw, nh);
    let mut yy: u32 = 0;
    while yy < nh
        invariant
            src.wf(),
            n.wf(),
            n.spec_width() == nw,
            n.spec_height() == nh,
            x + nw <= u32::MAX,
            y + nh <= u32::MAX,
            yy <= nh,
            forall|a: int, b: int| n.in_bounds(a, b) && b < yy ==> #[trigger] n.px(a, b) == read_px(src@, x + a, y + b),
        decreases nh - yy,
    {
        let mut xx: u32 = 0;
        while xx < nw
            invariant
                src.wf(),
                n.wf(),
                n.spec_width() == nw,
                n.spec_height() == nh,
                x + nw <= u32::MAX,
                y + nh <= u32::MAX,
                yy < nh,
                xx <= nw,
                forall|a: int, b: int|
                    n.in_bounds(a, b) && (b < yy || (b == yy && a < xx)) ==> #[trigger] n.px(a, b) == read_px(
                        src@,
                        x + a,
                        y + b,
                    ),
            decreases nw - xx,
        {
            let p = src.get_pixel(x + xx, y + yy);
            n.set_pixel(xx, yy, p);
            xx = xx + 1;
        }
        yy = yy + 1;
    }
    assert forall|a: int, b: int| n@.in_bounds(a, b) implies #[trigger] n@.px(a, b) == read_px(src@, x + a, y + b) by {
        assert(n.px(a, b) == read_px(src@, x + a, y + b));
    }
    n
}

/// Crops every layer (and mask) of `doc` to the `w * h` region at `(x, y)`, clipped to the canvas.
pub fn crop_document(doc: &mut Document, x: u32, y: u32, w: u32, h: u32)
    requires
        old(doc).wf(),
        x <= old(doc).width,
        y <= old(doc).height,
    ensures
        final(doc).wf(),
        doc_cropped(old(doc).state(), final(doc).state(), x, y, w, h),
{
    let new_w: u32 = if w < doc.width - x { w } else { doc.width - x };
    let new_h: u32 = if h < doc.height - y { h } else { doc.height - y };
    if new_w == 0 || new_h == 0 {
        return;
    }
    proof {
        assert(new_w * new_h <= doc.width * doc.height) by (nonlinear_arith)
            requires new_w <= doc.width, new_h <= doc.height;
    }
    let mut i: usize = 0;
    while i < doc.layers.len()
        invariant
            doc.layers@.len() == old(doc).layers@.len(),
            i <= doc.layers@.len(),
            new_w * new_h * 4 <= u32::MAX,
            x + new_w <= u32::MAX,
            y + new_h <= u32::MAX,
            forall|j: int| 0 <= j < doc.layers@.len() ==> (#[trigger] doc.layers@[j]).wf(),
            forall|j: int|
                0 <= j < i ==> layer_cropped(
                    #[trigger] layer_views(old(doc).layers@)[j],
                    layer_views(doc.layers@)[j],
                    x as int,
                    y as int,
                    new_w as nat,
                    new_h as nat,
                ),
            forall|j: int| i <= j < doc.layers@.len() ==> #[trigger] layer_views(doc.layers@)[j] == layer_views(
                old(doc).layers@,
            )[j],
            doc.width == old(doc).width,
            doc.height == old(doc).height,
            doc.name == old(doc).name,
            doc.background == old(doc).background,
            doc.active_layer == old(doc).active_layer,
            doc.selection == old(doc).selection,
            doc.history == old(doc).history,
            doc.dirty == old(doc).dirty,
            doc.next_layer_id == old(doc).next_layer_id,
        decreases doc.layers@.len() - i,
    {
        let ghost seq0 = doc.layers@;
        let n = match &doc.layers[i].kind {
            LayerKind::Pixel(pix) => crop_buffer(pix, x, y, new_w, new_h),
        };
        doc.layers[i].kind = LayerKind::Pixel(n);
        let nm = match &doc.layers[i].mask {
            Some(m) => Some(crop_buffer(m, x, y, new_w, new_h)),
            None => None,
        };
        doc.layers[i].mask = nm;
        proof {
            assert(layer_cropped(
                layer_views(seq0)[i as int],
                layer_views(doc.layers@)[i as int],
                x as int,
                y as int,
                new_w as nat,
                new_h as nat,
            ));
            assert forall|j: int| 0 <= j < seq0.len() && j != i implies #[trigger] layer_views(doc.layers@)[j]
                == layer_views(seq0)[j] by {
                assert(doc.layers@[j] == seq0[j]);
            }
        }
        i = i + 1;
    }
    doc.width = new_w;
    doc.height = new_h;
    doc.selection.resize(new_w, new_h);
    doc.selection.bounds = Some(Rect { x: 0, y: 0, w: new_w as i32, h: new_h as i32 });
    doc.dirty = true;
    proof {
        crate::document::lemma_ids_same(old(doc).lv(), doc.lv(), doc.next_layer_id);
        assert forall|xx: int, yy: int| doc.selection.mask@.in_bounds(xx, yy) implies #[trigger] doc.selection.mask@.px(
            xx,
            yy,
        ) == (if old(doc).selection.mask@.in_bounds(xx, yy) {
            old(doc).selection.mask@.px(xx, yy)
        } else {
            Rgba8 { r: 0, g: 0, b: 0, a: 0 }
        }) by {
            assert(doc.selection.mask.px(xx, yy) == (if old(doc).selection.mask.in_bounds(xx, yy) {
                old(doc).selection.mask.px(xx, yy)
            } else {
                Rgba8 { r: 0, g: 0, b: 0, a: 0 }
            }));
        }
    }
}

/// The move tool: tracks the drag; moving layer contents is not done here.
pub fn pointer_move(doc: &mut Document, state: &mut ToolState, pt: (i32, i32), ev: PointerEvent)
    requires
        drag_done(*old(state), pt, ev) matches Some((a, b)) ==> i32::MIN <= b.0 - a.0 <= i32::MAX && i32::MIN
            <= b.1 - a.1 <= i32::MAX,
    ensures
        *final(doc) == *old(doc),
        *final(state) == drag_step(*old(state), pt, ev),
{
    if let Some((a, b)) = state.track_drag(pt, ev) {
        let _offset: (i32, i32) = (b.0 - a.0, b.1 - a.1);
    }
}

/// Crop spanned by a finished drag from `a` to `b`: origin `(min(a.0, b.0).max(0),
/// min(a.1, b.1).max(0))`, size `|b.0 - a.0| * |b.1 - a.1|`.
pub open spec fn crop_rect(a: (i32, i32), b: (i32, i32)) -> (u32, u32, u32, u32) {
    let x = if a.0 <= b.0 { a.0 } else { b.0 };
    let y = if a.1 <= b.1 { a.1 } else { b.1 };
    (
        (if x < 0 { 0 } else { x }) as u32,
        (if y < 0 { 0 } else { y }) as u32,
        (if b.0 >= a.0 { b.0 - a.0 } else { a.0 - b.0 }) as u32,
        (if b.1 >= a.1 { b.1 - a.1 } else { a.1 - b.1 }) as u32,
    )
}

/// A finished drag spans differences that fit `i32` and its crop's top-left corner is not past
/// the canvas of `width * height` (the crop itself may run past the edge; it is clipped).
pub open spec fn crop_origin_ok(s: ToolState, pt: (i32, i32), ev: PointerEvent, width: u32, height: u32) -> bool {
    drag_done(s, pt, ev) matches Some((a, b)) ==> {
        &&& crate::document::selection::span_ok(a, b)
        &&& crop_rect(a, b).0 <= width
        &&& crop_rect(a, b).1 <= height
    }
}

/// The crop tool: on release of a drag that spans an area, crops the document to it.
pub fn pointer_crop(doc: &mut Document, state: &mut ToolState, pt: (i32, i32), ev: PointerEvent)
    requires
        old(doc).wf(),
        crop_origin_ok(*old(state), pt, ev, old(doc).width, old(doc).height),
    ensures
        final(doc).wf(),
        *final(state) == drag_step(*old(state), pt, ev),
        match drag_done(*old(state), pt, ev) {
            Some((a, b)) => {
                let (x, y, w, h) = crop_rect(a, b);
                if w > 0 && h > 0 {
                    doc_cropped(old(doc).state(), final(doc).state(), x, y, w, h)
                } else {
                    *final(doc) == *old(doc)
                }
            },
            None => *final(doc) == *old(doc),
        },
{
    if let Some((a, b)) = state.track_drag(pt, ev) {
        let x0 = if a.0 <= b.0 { a.0 } else { b.0 };
        let y0 = if a.1 <= b.1 { a.1 } else { b.1 };
        let x: u32 = if x0 < 0 { 0 } else { x0 as u32 };
        let y: u32 = if y0 < 0 { 0 } else { y0 as u32 };
        let w: u32 = if b.0 >= a.0 { (b.0 - a.0) as u32 } else { (a.0 - b.0) as u32 };
        let h: u32 = if b.1 >= a.1 { (b.1 - a.1) as u32 } else { (a.1 - b.1) as u32 };
        if w > 0 && h > 0 {
            crop_document(doc, x, y, w, h);
        }
    }
}


/// The crop does not depend on the direction of the drag: dragging from `b` to `a` crops the
/// same rectangle as dragging from `a` to `b`.
pub proof fn law_crop_rect_symmetric(a: (i32, i32), b: (i32, i32))
    ensures
        crop_rect(a, b) == crop_rect(b, a),
{
}

/// The crop's origin is the top-left corner of the two drag points (the smaller of each
/// coordinate, but not below 0), and its size is the distance between them along each axis.
pub proof fn law_crop_rect_corner(a: (i32, i32), b: (i32, i32))
    ensures
        crop_rect(a, b).0 as int <= (if a.0 < 0 { 0 } else { a.0 as int }),
        crop_rect(a, b).0 as int <= (if b.0 < 0 { 0 } else { b.0 as int }),
        crop_rect(a, b).0 as int == (if a.0 < 0 { 0 } else { a.0 as int }) || crop_rect(a, b).0 as int == (if b.0
            < 0 { 0 } else { b.0 as int }),
        crop_rect(a, b).1 as int <= (if a.1 < 0 { 0 } else { a.1 as int }),
        crop_rect(a, b).1 as int <= (if b.1 < 0 { 0 } else { b.1 as int }),
        crop_rect(a, b).1 as int == (if a.1 < 0 { 0 } else { a.1 as int }) || crop_rect(a, b).1 as int == (if b.1
            < 0 { 0 } else { b.1 as int }),
        span_ok(a, b) ==> crop_rect(a, b).2 as int + (if a.0 <= b.0 { a.0 as int } else { b.0 as int }) == (if a.0
            <= b.0 { b.0 as int } else { a.0 as int }),
        span_ok(a, b) ==> crop_rect(a, b).3 as int + (if a.1 <= b.1 { a.1 as int } else { b.1 as int }) == (if a.1
            <= b.1 { b.1 as int } else { a.1 as int }),
{
}

} // verus!
