//! Colour adjustments that map each pixel on its own: invert, grayscale, posterize.

use vstd::prelude::*;
use super::Filter;
use crate::color::Rgba8;
use crate::pixel_buffer::{Image, PixelBuffer};

verus! {

/// A per-pixel result: `f` of the input pixel where the input has one, the old output pixel elsewhere.
pub open spec fn pointwise_px(
    f: spec_fn(Rgba8) -> Rgba8,
    input: Image,
    old_output: Image,
    x: int,
    y: int,
) -> Rgba8 {
    if input.in_bounds(x, y) {
        f(input.px(x, y))
    } else {
        old_output.px(x, y)
    }
}

/// Writes `f(input(x, y))` at every `(x, y)` of `input`, in row-major order.
fn map_pixels<F: Fn(Rgba8) -> Rgba8>(
    input: &PixelBuffer,
    output: &mut PixelBuffer,
    f: F,
    Ghost(g): Ghost<spec_fn(Rgba8) -> Rgba8>,
)
    requires
        input.wf(),
        old(output).wf(),
        forall|c: Rgba8| #[trigger] f.requires((c,)),
        forall|c: Rgba8, r: Rgba8| f.ensures((c,), r) ==> r == g(c),
    ensures
        final(output).wf(),
        final(output).spec_width() == old(output).spec_width(),
        final(output).spec_height() == old(output).spec_height(),
        forall|x: int, y: int|
            final(output).in_bounds(x, y) ==> #[trigger] final(output).px(x, y) == pointwise_px(
                g,
                input@,
                old(output)@,
                x,
                y,
            ),
{
    let ghost out0 = output@;
    let w = input.width();
    let h = input.height();
    let mut y: u32 = 0;
    while y < h
        invariant
            input.wf(),
            output.wf(),
            w == input.spec_width(),
            h == input.spec_height(),
            output.spec_width() == out0.width,
            output.spec_height() == out0.height,
            y <= h,
            forall|c: Rgba8| #[trigger] f.requires((c,)),
            forall|c: Rgba8, r: Rgba8| f.ensures((c,), r) ==> r == g(c),
            forall|xx: int, yy: int|
                output.in_bounds(xx, yy) ==> #[trigger] output.px(xx, yy) == (if input.in_bounds(xx, yy)
                    && yy < y {
                    g(input.px(xx, yy))
                } else {
                    out0.px(xx, yy)
                }),
        decreases h - y,
    {
        let mut x: u32 = 0;
        while x < w
            invariant
                input.wf(),
                output.wf(),
                w == input.spec_width(),
                h == input.spec_height(),
                output.spec_width() == out0.width,
                output.spec_height() == out0.height,
                y < h,
                x <= w,
                forall|c: Rgba8| #[trigger] f.requires((c,)),
                forall|c: Rgba8, r: Rgba8| f.ensures((c,), r) ==> r == g(c),
                forall|xx: int, yy: int|
                    output.in_bounds(xx, yy) ==> #[trigger] output.px(xx, yy) == (if input.in_bounds(xx, yy)
                        && (yy < y || (yy == y && xx < x)) {
                        g(input.px(xx, yy))
                    } else {
                        out0.px(xx, yy)
                    }),
            decreases w - x,
        {
            let p = input.get_pixel(x, y);
            let q = f(p);
            output.set_pixel(x, y, q);
            x = x + 1;
        }
        y = y + 1;
    }
}

/// `255 - v` on each colour channel; alpha kept.
pub open spec fn invert_px(c: Rgba8) -> Rgba8 {
    Rgba8 { r: (255 - c.r) as u8, g: (255 - c.g) as u8, b: (255 - c.b) as u8, a: c.a }
}

/// Rec. 709 luma `0.2126 r + 0.7152 g + 0.0722 b`, rounded half up, on all three colour channels.
pub open spec fn luma(c: Rgba8) -> u8 {
    ((2126 * c.r + 7152 * c.g + 722 * c.b + 5000) / 10000) as u8
}

pub open spec fn grayscale_px(c: Rgba8) -> Rgba8 {
    Rgba8 { r: luma(c), g: luma(c), b: luma(c), a: c.a }
}

/// The number of bands a posterize with `levels` uses: at least two.
pub open spec fn bands(levels: u32) -> int {
    if levels < 2 { 2 } else { levels as int }
}

/// One posterized channel: band `min(v * n / 255, n - 1)` of `n`, scaled back to `0..=255`
/// and rounded half up.
pub open spec fn posterize_channel(v: u8, n: int) -> u8 {
    let q = v * n / 255;
    let q1 = if q > n - 1 { n - 1 } else { q };
    ((2 * 255 * q1 + (n - 1)) / (2 * (n - 1))) as u8
}

pub open spec fn posterize_px(c: Rgba8, levels: u32) -> Rgba8 {
    Rgba8 {
        r: posterize_channel(c.r, bands(levels)),
        g: posterize_channel(c.g, bands(levels)),
        b: posterize_channel(c.b, bands(levels)),
        a: c.a,
    }
}

fn invert_pixel(c: Rgba8) -> (r: Rgba8)
    ensures
        r == invert_px(c),
{
    Rgba8 { r: 255 - c.r, g: 255 - c.g, b: 255 - c.b, a: c.a }
}

fn grayscale_pixel(c: Rgba8) -> (r: Rgba8)
    ensures
        r == grayscale_px(c),
{
    let l: u32 = (2126 * c.r as u32 + 7152 * c.g as u32 + 722 * c.b as u32 + 5000) / 10000;
    let l8: u8 = l as u8;
    Rgba8 { r: l8, g: l8, b: l8, a: c.a }
}

fn posterize_value(v: u8, n: u64) -> (r: u8)
    requires
        2 <= n <= u32::MAX,
    ensures
        r == posterize_channel(v, n as int),
{
    assert(v as u64 * n <= 255 * 0xffff_ffff) by (nonlinear_arith)
        requires v <= 255, n <= 0xffff_ffff;
    let q: u64 = v as u64 * n / 255;
    let q1: u64 = if q > n - 1 { n - 1 } else { q };
    proof {
        assert(q1 <= 0xffff_ffff);
        assert(2 * 255 * q1 <= 2 * 255 * (n - 1)) by (nonlinear_arith)
            requires q1 <= n - 1;
        assert(2 * 255 * q1 + (n - 1) <= 511 * 0xffff_ffff) by (nonlinear_arith)
            requires q1 <= n - 1, n <= 0xffff_ffff;
        assert((2 * 255 * q1 + (n - 1)) / (2 * (n - 1)) <= 255) by (nonlinear_arith)
            requires q1 <= n - 1, n >= 2;
    }
    ((2 * 255 * q1 + (n - 1)) / (2 * (n - 1))) as u8
}

/// Inverts each colour channel.
pub struct Invert;

impl Filter for Invert {
    open spec fn accepts(&self, input: Image) -> bool {
        true
    }

    open spec fn output_px(&self, input: Image, old_output: Image, x: int, y: int) -> Rgba8 {
        pointwise_px(|c: Rgba8| invert_px(c), input, old_output, x, y)
    }

    fn apply(&self, input: &PixelBuffer, output: &mut PixelBuffer) {
        map_pixels(input, output, |c: Rgba8| -> (r: Rgba8) ensures r == invert_px(c) { invert_pixel(c) }, Ghost(|c: Rgba8| invert_px(c)));
    }
}

/// Replaces each colour by its Rec. 709 luma.
pub struct Grayscale;

impl Filter for Grayscale {
    open spec fn accepts(&self, input: Image) -> bool {
        true
    }

    open spec fn output_px(&self, input: Image, old_output: Image, x: int, y: int) -> Rgba8 {
        pointwise_px(|c: Rgba8| grayscale_px(c), input, old_output, x, y)
    }

    fn apply(&self, input: &PixelBuffer, output: &mut PixelBuffer) {
        map_pixels(input, output, |c: Rgba8| -> (r: Rgba8) ensures r == grayscale_px(c) { grayscale_pixel(c) }, Ghost(|c: Rgba8| grayscale_px(c)));
    }
}

/// Reduces each colour channel to `levels` bands (at least two).
pub struct Posterize {
    pub levels: u32,
}

impl Filter for Posterize {
    open spec fn accepts(&self, input: Image) -> bool {
        true
    }

    open spec fn output_px(&self, input: Image, old_output: Image, x: int, y: int) -> Rgba8 {
        pointwise_px(|c: Rgba8| posterize_px(c, self.levels), input, old_output, x, y)
    }

    fn apply(&self, input: &PixelBuffer, output: &mut PixelBuffer) {
        let n: u64 = if self.levels < 2 { 2 } else { self.levels as u64 };
        let levels = self.levels;
        map_pixels(
            input,
            output,
            |c: Rgba8| -> (r: Rgba8)
                requires n == bands(levels), 2 <= n <= u32::MAX
                ensures r == posterize_px(c, levels)
            {
                Rgba8 { r: posterize_value(c.r, n), g: posterize_value(c.g, n), b: posterize_value(c.b, n), a: c.a }
            },
            Ghost(|c: Rgba8| posterize_px(c, levels)),
        );
    }
}

} // verus!
