//! Text tool: kept selectable, but a click changes nothing; text is entered in a dialog.

use vstd::prelude::*;
use crate::color::Rgba8;
use crate::document::Document;
use crate::pixel_buffer::PixelBuffer;
use crate::tools::PointerEvent;

verus! {

/// A pointer event of the text tool: the document and the layer are left as they are.
pub fn pointer(doc: &mut Document, layer: &mut PixelBuffer, pt: (i32, i32), ev: PointerEvent, fg: Rgba8)
    ensures
        *final(doc) == *old(doc),
        *final(layer) == *old(layer),
{
}

} // verus!
