//! Image filters & adjustments.

pub mod adjustments;
pub mod blur;
pub mod distort;

use vstd::prelude::*;
use crate::color::Rgba8;
use crate::pixel_buffer::{Image, PixelBuffer};

verus! {

/// A filter reads `input` and writes its result into `output`.
pub trait Filter {
    /// The inputs on which `apply` is defined.
    spec fn accepts(&self, input: Image) -> bool;

    /// The pixel that `apply` leaves at `(x, y)` of an output that held `old_output`.
    spec fn output_px(&self, input: Image, old_output: Image, x: int, y: int) -> Rgba8;

    fn apply(&self, input: &PixelBuffer, output: &mut PixelBuffer)
        requires
            input.wf(),
            old(output).wf(),
            self.accepts(input@),
        ensures
            final(output).wf(),
            final(output).spec_width() == old(output).spec_width(),
            final(output).spec_height() == old(output).spec_height(),
            forall|x: int, y: int|
                final(output).in_bounds(x, y) ==> #[trigger] final(output).px(x, y) == self.output_px(
                    input@,
                    old(output)@,
                    x,
                    y,
                ),
    ;
}

/// Runs `filter` with a copy of `buf` as output and makes that copy the new content.
pub fn apply_in_place<F: Filter>(filter: &F, buf: &mut PixelBuffer)
    requires
        old(buf).wf(),
        filter.accepts(old(buf)@),
    ensures
        final(buf).wf(),
        final(buf).spec_width() == old(buf).spec_width(),
        final(buf).spec_height() == old(buf).spec_height(),
        forall|x: int, y: int|
            final(buf).in_bounds(x, y) ==> #[trigger] final(buf).px(x, y) == filter.output_px(
                old(buf)@,
                old(buf)@,
                x,
                y,
            ),
{
    let mut tmp = buf.clone();
    filter.apply(buf, &mut tmp);
    *buf = tmp;
}

} // verus!
