//! Eyedropper: samples the colour under the pointer.

use vstd::prelude::*;
use crate::color::Rgba8;
use crate::pixel_buffer::PixelBuffer;
use crate::tools::PointerEvent;

verus! {

/// The colour a click (or the start of a drag) at `pt` picks from `layer`: none for any
/// other pointer event or a point outside the layer.
pub open spec fn sampled(layer: &PixelBuffer, pt: (i32, i32), ev: PointerEvent) -> Option<Rgba8> {
    if !(ev.clicked || ev.drag_started) || !layer.in_bounds(pt.0 as int, pt.1 as int) {
        None
    } else {
        Some(layer.px(pt.0 as int, pt.1 as int))
    }
}

/// Samples the layer under the pointer; the layer is left as it is.
pub fn pointer(layer: &mut PixelBuffer, pt: (i32, i32), ev: PointerEvent) -> (c: Option<Rgba8>)
    requires
        old(layer).wf(),
    ensures
        *final(layer) == *old(layer),
        c == sampled(old(layer), pt, ev),
{
    pointer_copy(layer, pt, ev)
}

/// Samples the layer under the pointer from a shared reference.
pub fn pointer_copy(layer: &PixelBuffer, pt: (i32, i32), ev: PointerEvent) -> (c: Option<Rgba8>)
    requires
        layer.wf(),
    ensures
        c == sampled(layer, pt, ev),
{
    if !ev.clicked && !ev.drag_started {
        return None;
    }
    if pt.0 < 0 || pt.1 < 0 || pt.0 as i64 >= layer.width() as i64 || pt.1 as i64 >= layer.height() as i64 {
        return None;
    }
    Some(layer.get_pixel(pt.0 as u32, pt.1 as u32))
}

} // verus!
