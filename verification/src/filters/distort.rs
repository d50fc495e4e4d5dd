//! Geometric filters: flips, quarter rotation and the per-row wave shift.

use vstd::prelude::*;
use super::Filter;
use crate::color::Rgba8;
use crate::pixel_buffer::{Image, PixelBuffer};
use crate::filters::blur::clampi;

verus! {

/// Writes `input(sx(x, y), sy(x, y))` at every `(x, y)` of `input`, in row-major order.
fn remap_pixels<F: Fn(u32, u32) -> (u32, u32)>(
    input: &PixelBuffer,
    output: &mut PixelBuffer,
    src: F,
    Ghost(sx): Ghost<spec_fn(int, int) -> int>,
    Ghost(sy): Ghost<spec_fn(int, int) -> int>,
)
    requires
        input.wf(),
        old(output).wf(),
        forall|x: u32, y: u32| input.in_bounds(x as int, y as int) ==> #[trigger] src.requires((x, y)),
        forall|x: u32, y: u32, r: (u32, u32)|
            src.ensures((x, y), r) ==> r.0 == sx(x as int, y as int) && r.1 == sy(x as int, y as int),
    ensures
        final(output).wf(),
        final(output).spec_width() == old(output).spec_width(),
        final(output).spec_height() == old(output).spec_height(),
        forall|x: int, y: int|
            final(output).in_bounds(x, y) ==> #[trigger] final(output).px(x, y) == (if input.in_bounds(
                x,
                y,
            ) {
                read_px(input@, sx(x, y), sy(x, y))
            } else {
                old(output).px(x, y)
            }),
{
    let ghost out0 = output@;
    let w = input.width();
    let h = input.height();
    let mut y: u32 = 0;
    while y < h
        invariant
            input.wf(),
            output.wf(),
            w == input.spec_width(),
            h == input.spec_height(),
            output.spec_width() == out0.width,
            output.spec_height() == out0.height,
            y <= h,
            forall|x: u32, y: u32| input.in_bounds(x as int, y as int) ==> #[trigger] src.requires((x, y)),
            forall|x: u32, y: u32, r: (u32, u32)|
                src.ensures((x, y), r) ==> r.0 == sx(x as int, y as int) && r.1 == sy(x as int, y as int),
            forall|xx: int, yy: int|
                output.in_bounds(xx, yy) ==> #[trigger] output.px(xx, yy) == (if input.in_bounds(xx, yy)
                    && yy < y {
                    read_px(input@, sx(xx, yy), sy(xx, yy))
                } else {
                    out0.px(xx, yy)
                }),
        decreases h - y,
    {
        let mut x: u32 = 0;
        while x < w
            invariant
                input.wf(),
                output.wf(),
                w == input.spec_width(),
                h == input.spec_height(),
                output.spec_width() == out0.width,
                output.spec_height() == out0.height,
                y < h,
                x <= w,
                forall|x: u32, y: u32| input.in_bounds(x as int, y as int) ==> #[trigger] src.requires((x, y)),
                forall|x: u32, y: u32, r: (u32, u32)|
                    src.ensures((x, y), r) ==> r.0 == sx(x as int, y as int) && r.1 == sy(x as int, y as int),
                forall|xx: int, yy: int|
                    output.in_bounds(xx, yy) ==> #[trigger] output.px(xx, yy) == (if input.in_bounds(xx, yy)
                        && (yy < y || (yy == y && xx < x)) {
                        read_px(input@, sx(xx, yy), sy(xx, yy))
                    } else {
                        out0.px(xx, yy)
                    }),
            decreases w - x,
        {
            let (qx, qy) = src(x, y);
            let p = input.get_pixel(qx, qy);
            output.set_pixel(x, y, p);
            x = x + 1;
        }
        y = y + 1;
    }
}

/// What `get_pixel` reads: the pixel inside the image, transparent black outside.
pub open spec fn read_px(img: Image, x: int, y: int) -> Rgba8 {
    if img.in_bounds(x, y) {
        img.px(x, y)
    } else {
        Rgba8 { r: 0, g: 0, b: 0, a: 0 }
    }
}

/// Mirrors the image top to bottom.
pub struct FlipVertical;

impl Filter for FlipVertical {
    open spec fn accepts(&self, input: Image) -> bool {
        true
    }

    open spec fn output_px(&self, input: Image, old_output: Image, x: int, y: int) -> Rgba8 {
        if input.in_bounds(x, y) {
            input.px(x, input.height - 1 - y)
        } else {
            old_output.px(x, y)
        }
    }

    fn apply(&self, input: &PixelBuffer, output: &mut PixelBuffer) {
        let h = input.height();
        remap_pixels(
            input,
            output,
            |x: u32, y: u32| -> (r: (u32, u32))
                requires y < h
                ensures r.0 == x && r.1 == h - 1 - y
            { (x, h - 1 - y) },
            Ghost(|x: int, y: int| x),
            Ghost(|x: int, y: int| h - 1 - y),
        );
    }
}

/// Mirrors the image left to right.
pub struct FlipHorizontal;

impl Filter for FlipHorizontal {
    open spec fn accepts(&self, input: Image) -> bool {
        true
    }

    open spec fn output_px(&self, input: Image, old_output: Image, x: int, y: int) -> Rgba8 {
        if input.in_bounds(x, y) {
            input.px(input.width - 1 - x, y)
        } else {
            old_output.px(x, y)
        }
    }

    fn apply(&self, input: &PixelBuffer, output: &mut PixelBuffer) {
        let w = input.width();
        remap_pixels(
            input,
            output,
            |x: u32, y: u32| -> (r: (u32, u32))
                requires x < w
                ensures r.0 == w - 1 - x && r.1 == y
            { (w - 1 - x, y) },
            Ghost(|x: int, y: int| w - 1 - x),
            Ghost(|x: int, y: int| y),
        );
    }
}

/// Rotates a quarter turn clockwise into an output of the same size as the input: input
/// pixel `(x, y)` lands at `(y, width - 1 - x)`, and what falls outside the output is dropped.
pub struct Rotate90;

/// `(x, y)` of the output receives an input pixel: `x < height` and `y < width` of the input.
pub open spec fn rotate_target(input: Image, x: int, y: int) -> bool {
    0 <= x < input.height && 0 <= y < input.width
}

impl Filter for Rotate90 {
    open spec fn accepts(&self, input: Image) -> bool {
        true
    }

    open spec fn output_px(&self, input: Image, old_output: Image, x: int, y: int) -> Rgba8 {
        if rotate_target(input, x, y) {
            input.px(input.width - 1 - y, x)
        } else {
            old_output.px(x, y)
        }
    }

    fn apply(&self, input: &PixelBuffer, output: &mut PixelBuffer) {
        let ghost out0 = output@;
        let w = input.width();
        let h = input.height();
        let mut y: u32 = 0;
        while y < h
            invariant
                input.wf(),
                output.wf(),
                w == input.spec_width(),
                h == input.spec_height(),
                output.spec_width() == out0.width,
                output.spec_height() == out0.height,
                y <= h,
                forall|xx: int, yy: int|
                    output.in_bounds(xx, yy) ==> #[trigger] output.px(xx, yy) == (if rotate_target(input@, xx, yy)
                        && xx < y {
                        input.px(w - 1 - yy, xx)
                    } else {
                        out0.px(xx, yy)
                    }),
            decreases h - y,
        {
            let mut x: u32 = 0;
            while x < w
                invariant
                    input.wf(),
                    output.wf(),
                    w == input.spec_width(),
                    h == input.spec_height(),
                    output.spec_width() == out0.width,
                    output.spec_height() == out0.height,
                    y < h,
                    x <= w,
                    forall|xx: int, yy: int|
                        output.in_bounds(xx, yy) ==> #[trigger] output.px(xx, yy) == (if rotate_target(
                            input@,
                            xx,
                            yy,
                        ) && (xx < y || (xx == y && w - 1 - yy < x)) {
                            input.px(w - 1 - yy, xx)
                        } else {
                            out0.px(xx, yy)
                        }),
                decreases w - x,
            {
                let p = input.get_pixel(x, y);
                output.set_pixel(y, w - 1 - x, p);
                x = x + 1;
            }
            y = y + 1;
        }
    }
}

/// The row shift of the wave filter: output `(x, y)` takes input
/// `(clamp(x + offsets[y], 0, width - 1), y)`, one offset per row (the wave filter computes
/// them as a sine of the row).
pub fn shift_rows(input: &PixelBuffer, output: &mut PixelBuffer, offsets: &Vec<i32>)
    requires
        input.wf(),
        old(output).wf(),
        offsets@.len() == input.spec_height(),
        forall|y: int| 0 <= y < input.spec_height() ==> #[trigger] offsets@[y] + input.spec_width() - 1 <= i32::MAX,
    ensures
        final(output).wf(),
        final(output).spec_width() == old(output).spec_width(),
        final(output).spec_height() == old(output).spec_height(),
        forall|x: int, y: int|
            final(output).in_bounds(x, y) ==> #[trigger] final(output).px(x, y) == (if input.in_bounds(x, y) {
                input.px(clampi(x + offsets@[y], 0, input.spec_width() - 1), y)
            } else {
                old(output).px(x, y)
            }),
{
    let w = input.width();
    let h = input.height();
    let ghost wi = w as int;
    proof {
        if h > 0 {
            assert(w <= 0x4000_0000) by (nonlinear_arith)
                requires w * h * 4 <= 0xffff_ffff, h >= 1;
        }
    }
    let ghost sx = |x: int, y: int| clampi(x + offsets@[y], 0, wi - 1);
    let ghost sy = |x: int, y: int| y;
    let src = |x: u32, y: u32| -> (r: (u32, u32))
        requires
            x < w,
            y < h,
            w <= 0x4000_0000,
            offsets@.len() == h,
            offsets@[y as int] + w - 1 <= i32::MAX,
        ensures
            r.0 == clampi(x + offsets@[y as int], 0, w - 1),
            r.1 == y,
        {
            let v: i32 = x as i32 + offsets[y as usize];
            let c: i32 = if v < 0 {
                0
            } else if v > w as i32 - 1 {
                w as i32 - 1
            } else {
                v
            };
            (c as u32, y)
        };
    proof {
        assert forall|x: u32, y: u32| input.in_bounds(x as int, y as int) implies #[trigger] src.requires((x, y)) by {
            assert(offsets@[y as int] + input.spec_width() - 1 <= i32::MAX);
            assert(w <= 0x4000_0000);
        }
    }
    remap_pixels(input, output, src, Ghost(sx), Ghost(sy));
}

/// Flipping left to right twice gives back the image: `mid` holds the first flip, and the
/// second flip of `mid` is `img` again.
pub proof fn law_flip_horizontal_twice(img: Image, out1: Image, mid: Image, out2: Image)
    requires
        mid.width == img.width,
        mid.height == img.height,
        forall|x: int, y: int|
            img.in_bounds(x, y) ==> #[trigger] mid.px(x, y) == FlipHorizontal.output_px(img, out1, x, y),
    ensures
        forall|x: int, y: int|
            img.in_bounds(x, y) ==> #[trigger] FlipHorizontal.output_px(mid, out2, x, y) == img.px(x, y),
{
    assert forall|x: int, y: int| img.in_bounds(x, y) implies #[trigger] FlipHorizontal.output_px(mid, out2, x, y)
        == img.px(x, y) by {
        assert(mid.px(mid.width - 1 - x, y) == FlipHorizontal.output_px(img, out1, img.width - 1 - x, y));
    }
}

/// Flipping top to bottom twice gives back the image.
pub proof fn law_flip_vertical_twice(img: Image, out1: Image, mid: Image, out2: Image)
    requires
        mid.width == img.width,
        mid.height == img.height,
        forall|x: int, y: int|
            img.in_bounds(x, y) ==> #[trigger] mid.px(x, y) == FlipVertical.output_px(img, out1, x, y),
    ensures
        forall|x: int, y: int|
            img.in_bounds(x, y) ==> #[trigger] FlipVertical.output_px(mid, out2, x, y) == img.px(x, y),
{
    assert forall|x: int, y: int| img.in_bounds(x, y) implies #[trigger] FlipVertical.output_px(mid, out2, x, y)
        == img.px(x, y) by {
        assert(mid.px(x, mid.height - 1 - y) == FlipVertical.output_px(img, out1, x, img.height - 1 - y));
    }
}


/// `out` is a result of rotating `img`: the sides swap and every pixel is what the rotation
/// leaves there.
pub open spec fn rotated(img: Image, out: Image) -> bool {
    &&& out.width == img.height
    &&& out.height == img.width
    &&& forall|x: int, y: int| out.in_bounds(x, y) ==> #[trigger] out.px(x, y) == Rotate90.output_px(img, out, x, y)
}

/// Rotating is a quarter turn: input pixel `(x, y)` of a `w`-wide image lands at
/// `(y, w - 1 - x)`, so the top row becomes the left-hand column, read bottom to top, and the
/// input's top-right pixel becomes the output's top-left.
pub proof fn law_rotate90_moves_pixels(img: Image, out: Image, x: int, y: int)
    requires
        rotated(img, out),
        img.in_bounds(x, y),
    ensures
        out.px(y, img.width - 1 - x) == img.px(x, y),
{
    assert(out.in_bounds(y, img.width - 1 - x));
}

/// Rotating twice is a half turn: each pixel ends at the point opposite it through the
/// centre (not where it started, as two reflections would leave it).
pub proof fn law_rotate90_twice_is_half_turn(img: Image, mid: Image, out: Image, x: int, y: int)
    requires
        rotated(img, mid),
        rotated(mid, out),
        img.in_bounds(x, y),
    ensures
        out.width == img.width,
        out.height == img.height,
        out.px(img.width - 1 - x, img.height - 1 - y) == img.px(x, y),
{
    law_rotate90_moves_pixels(img, mid, x, y);
    law_rotate90_moves_pixels(mid, out, y, img.width - 1 - x);
}

/// Rotating four times gives back the image.
pub proof fn law_rotate90_four_times(i0: Image, i1: Image, i2: Image, i3: Image, i4: Image, x: int, y: int)
    requires
        rotated(i0, i1),
        rotated(i1, i2),
        rotated(i2, i3),
        rotated(i3, i4),
        i0.in_bounds(x, y),
    ensures
        i4.width == i0.width,
        i4.height == i0.height,
        i4.px(x, y) == i0.px(x, y),
{
    law_rotate90_twice_is_half_turn(i0, i1, i2, x, y);
    law_rotate90_twice_is_half_turn(i2, i3, i4, i0.width - 1 - x, i0.height - 1 - y);
}

} // verus!
