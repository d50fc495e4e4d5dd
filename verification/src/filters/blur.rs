//! Box blur and Gaussian blur: separable, horizontal pass into a temporary buffer,
//! then a vertical pass into the output, with edge pixels repeated.

use vstd::prelude::*;
use super::Filter;
use crate::color::Rgba8;
use crate::pixel_buffer::{Image, PixelBuffer};

verus! {

/// Channel `c` of a pixel: 0 red, 1 green, 2 blue, 3 alpha.
pub open spec fn chan(p: Rgba8, c: int) -> int {
    if c == 0 {
        p.r as int
    } else if c == 1 {
        p.g as int
    } else if c == 2 {
        p.b as int
    } else {
        p.a as int
    }
}

/// `i` clamped into `lo..=hi`.
pub open spec fn clampi(i: int, lo: int, hi: int) -> int {
    if i < lo {
        lo
    } else if i > hi {
        hi
    } else {
        i
    }
}

/// `line(clamp(lo)) + ... + line(clamp(hi))` over a line of `n` samples with edges repeated.
pub open spec fn clamped_sum(line: spec_fn(int) -> int, n: int, lo: int, hi: int) -> int
    decreases hi - lo + 1,
{
    if hi < lo {
        0
    } else {
        clamped_sum(line, n, lo, hi - 1) + line(clampi(hi, 0, n - 1))
    }
}

/// The running sum the sliding window holds at position `x`: the window `-r..=r` at position
/// 0, and at each later position `t = 1..=x` it gains sample `min(t + r, n - 1)` and loses
/// sample `max(t - r - 1, 0)`.
pub open spec fn run_sum(line: spec_fn(int) -> int, n: int, r: int, x: int) -> int
    decreases x + 1,
{
    if x <= 0 {
        clamped_sum(line, n, -r, r)
    } else {
        run_sum(line, n, r, x - 1) + line(if x + r < n - 1 { x + r } else { n - 1 }) - line(
            if x - r - 1 > 0 { x - r - 1 } else { 0 },
        )
    }
}

/// A window sum divided by the window size, rounded half up and clamped to a byte.
pub open spec fn box_value(s: int, count: int) -> u8 {
    if s <= 0 {
        0
    } else if (2 * s + count) / (2 * count) > 255 {
        255
    } else {
        ((2 * s + count) / (2 * count)) as u8
    }
}

/// Channel `c` along row `y` of `img`.
pub open spec fn row_line(img: Image, y: int, c: int) -> spec_fn(int) -> int {
    |i: int| chan(img.px(i, y), c)
}

/// The sum of the window `x - r..=x + r` of a line of `n` samples, edges repeated.
pub open spec fn window_sum(line: spec_fn(int) -> int, n: int, r: int, x: int) -> int {
    clamped_sum(line, n, x - r, x + r)
}

/// The horizontal pass of a box blur of radius `r`: each channel is the mean of the window of
/// `2 * r + 1` pixels around `x` in row `y`, edges repeated.
pub open spec fn box_h_px(img: Image, r: int, x: int, y: int) -> Rgba8 {
    Rgba8 {
        r: box_value(window_sum(row_line(img, y, 0), img.width as int, r, x), 2 * r + 1),
        g: box_value(window_sum(row_line(img, y, 1), img.width as int, r, x), 2 * r + 1),
        b: box_value(window_sum(row_line(img, y, 2), img.width as int, r, x), 2 * r + 1),
        a: box_value(window_sum(row_line(img, y, 3), img.width as int, r, x), 2 * r + 1),
    }
}

/// Channel `c` down column `x` of the horizontal pass.
pub open spec fn box_col_line(img: Image, r: int, x: int, c: int) -> spec_fn(int) -> int {
    |j: int| chan(box_h_px(img, r, x, j), c)
}

/// The box blur of radius `r` at `(x, y)`: the vertical pass, the same window mean down
/// column `x`, over the horizontal one.
pub open spec fn box_px(img: Image, r: int, x: int, y: int) -> Rgba8 {
    Rgba8 {
        r: box_value(window_sum(box_col_line(img, r, x, 0), img.height as int, r, y), 2 * r + 1),
        g: box_value(window_sum(box_col_line(img, r, x, 1), img.height as int, r, y), 2 * r + 1),
        b: box_value(window_sum(box_col_line(img, r, x, 2), img.height as int, r, y), 2 * r + 1),
        a: box_value(window_sum(box_col_line(img, r, x, 3), img.height as int, r, y), 2 * r + 1),
    }
}

/// A window sum is its first sample plus the rest.
proof fn lemma_peel_front(line: spec_fn(int) -> int, n: int, lo: int, hi: int)
    requires
        lo <= hi,
    ensures
        clamped_sum(line, n, lo, hi) == line(clampi(lo, 0, n - 1)) + clamped_sum(line, n, lo + 1, hi),
    decreases hi - lo,
{
    if lo < hi {
        lemma_peel_front(line, n, lo, hi - 1);
    } else {
        assert(clamped_sum(line, n, lo, lo - 1) == 0);
        assert(clamped_sum(line, n, lo + 1, hi) == 0);
    }
}

/// The running sum at `x` inside the line is the sum of the window around `x`.
proof fn lemma_run_sum_window(line: spec_fn(int) -> int, n: int, r: int, x: int)
    requires
        0 <= x < n,
        r >= 0,
    ensures
        run_sum(line, n, r, x) == window_sum(line, n, r, x),
    decreases x,
{
    if x > 0 {
        lemma_run_sum_window(line, n, r, x - 1);
        lemma_peel_front(line, n, x - 1 - r, x + r);
        assert(clamped_sum(line, n, x - 1 - r, x + r) == clamped_sum(line, n, x - 1 - r, x - 1 + r) + line(
            clampi(x + r, 0, n - 1),
        ));
    }
}

proof fn lemma_clamped_sum_bounds(line: spec_fn(int) -> int, n: int, lo: int, hi: int)
    requires
        forall|i: int| 0 <= #[trigger] line(i) <= 255,
        lo <= hi + 1,
    ensures
        0 <= clamped_sum(line, n, lo, hi) <= (hi - lo + 1) * 255,
    decreases hi - lo + 1,
{
    if hi >= lo {
        lemma_clamped_sum_bounds(line, n, lo, hi - 1);
        assert(0 <= line(clampi(hi, 0, n - 1)) <= 255);
    }
}

proof fn lemma_run_sum_bounds(line: spec_fn(int) -> int, n: int, r: int, x: int)
    requires
        forall|i: int| 0 <= #[trigger] line(i) <= 255,
        r >= 0,
        x >= -1,
    ensures
        -(x + 1) * 255 <= run_sum(line, n, r, x) <= (2 * r + 1) * 255 + (x + 1) * 255,
    decreases x + 1,
{
    if x <= 0 {
        lemma_clamped_sum_bounds(line, n, -r, r);
    } else {
        lemma_run_sum_bounds(line, n, r, x - 1);
        assert(0 <= line(if x + r < n - 1 { x + r } else { n - 1 }) <= 255);
        assert(0 <= line(if x - r - 1 > 0 { x - r - 1 } else { 0 }) <= 255);
    }
}

fn box_value_exec(s: i64, count: i64) -> (v: u8)
    requires
        1 <= count <= 0x8000_0000,
        -0x100_0000_0000 <= s <= 0x100_0000_0000,
    ensures
        v == box_value(s as int, count as int),
{
    if s <= 0 {
        0
    } else {
        let q: i64 = (2 * s + count) / (2 * count);
        if q > 255 {
            255
        } else {
            q as u8
        }
    }
}

/// Averages each pixel with the `2 * radius + 1` pixels around it, horizontally then vertically.
pub struct BoxBlur {
    pub radius: u32,
}

impl Filter for BoxBlur {
    /// Both dimensions zero or both positive, and a radius below `2^30`.
    open spec fn accepts(&self, input: Image) -> bool {
        &&& self.radius < 0x4000_0000
        &&& (input.width == 0) == (input.height == 0)
    }

    open spec fn output_px(&self, input: Image, old_output: Image, x: int, y: int) -> Rgba8 {
        if input.in_bounds(x, y) {
            box_px(input, self.radius as int, x, y)
        } else {
            old_output.px(x, y)
        }
    }

    fn apply(&self, input: &PixelBuffer, output: &mut PixelBuffer) {
        let ghost out0 = output@;
        let ghost img = input@;
        let r: i64 = self.radius as i64;
        let w = input.width();
        let h = input.height();
        let wi: i64 = w as i64;
        let hi: i64 = h as i64;
        let count: i64 = 2 * r + 1;
        proof {
            if h > 0 {
                assert(w <= 0x4000_0000) by (nonlinear_arith)
                    requires w * h * 4 <= 0xffff_ffff, h >= 1;
            }
            if w > 0 {
                assert(h <= 0x4000_0000) by (nonlinear_arith)
                    requires w * h * 4 <= 0xffff_ffff, w >= 1;
            }
        }
        let mut tmp = PixelBuffer::new(w, h);
        // Horizontal pass.
        let mut y: u32 = 0;
        while y < h
            invariant
                input.wf(),
                input@ == img,
                tmp.wf(),
                tmp.spec_width() == w,
                tmp.spec_height() == h,
                w == img.width,
                h == img.height,
                wi == w,
                hi == h,
                r == self.radius,
                r < 0x4000_0000,
                count == 2 * r + 1,
                y <= h,
                h > 0 ==> w > 0 && w <= 0x4000_0000,
                forall|xx: int, yy: int|
                    0 <= xx < w && 0 <= yy < y ==> #[trigger] tmp.px(xx, yy) == box_h_px(img, r as int, xx, yy),
            decreases h - y,
        {
            let ghost l0 = row_line(img, y as int, 0);
            let ghost l1 = row_line(img, y as int, 1);
            let ghost l2 = row_line(img, y as int, 2);
            let ghost l3 = row_line(img, y as int, 3);
            let mut s0: i64 = 0;
            let mut s1: i64 = 0;
            let mut s2: i64 = 0;
            let mut s3: i64 = 0;
            let mut j: i64 = -r;
            while j <= r
                invariant
                    input.wf(),
                    input@ == img,
                    w == img.width,
                    h == img.height,
                    wi == w,
                    w > 0,
                    y < h,
                    r < 0x4000_0000,
                    -r <= j <= r + 1,
                    l0 == row_line(img, y as int, 0),
                    l1 == row_line(img, y as int, 1),
                    l2 == row_line(img, y as int, 2),
                    l3 == row_line(img, y as int, 3),
                    s0 == clamped_sum(l0, wi as int, -r as int, j - 1),
                    s1 == clamped_sum(l1, wi as int, -r as int, j - 1),
                    s2 == clamped_sum(l2, wi as int, -r as int, j - 1),
                    s3 == clamped_sum(l3, wi as int, -r as int, j - 1),
                decreases r + 1 - j,
            {
                proof {
                    lemma_clamped_sum_bounds(l0, wi as int, -r as int, j - 1);
                    lemma_clamped_sum_bounds(l1, wi as int, -r as int, j - 1);
                    lemma_clamped_sum_bounds(l2, wi as int, -r as int, j - 1);
                    lemma_clamped_sum_bounds(l3, wi as int, -r as int, j - 1);
                }
                let xi: i64 = if j < 0 { 0 } else if j > wi - 1 { wi - 1 } else { j };
                let p = input.get_pixel(xi as u32, y);
                s0 = s0 + p.r as i64;
                s1 = s1 + p.g as i64;
                s2 = s2 + p.b as i64;
                s3 = s3 + p.a as i64;
                j = j + 1;
            }
            let mut x: u32 = 0;
            while x < w
                invariant
                    input.wf(),
                    input@ == img,
                    tmp.wf(),
                    tmp.spec_width() == w,
                    tmp.spec_height() == h,
                    w == img.width,
                    h == img.height,
                    wi == w,
                    r == self.radius,
                    r < 0x4000_0000,
                    count == 2 * r + 1,
                    y < h,
                    x <= w,
                    w <= 0x4000_0000,
                    l0 == row_line(img, y as int, 0),
                    l1 == row_line(img, y as int, 1),
                    l2 == row_line(img, y as int, 2),
                    l3 == row_line(img, y as int, 3),
                    s0 == run_sum(l0, wi as int, r as int, x - 1),
                    s1 == run_sum(l1, wi as int, r as int, x - 1),
                    s2 == run_sum(l2, wi as int, r as int, x - 1),
                    s3 == run_sum(l3, wi as int, r as int, x - 1),
                    forall|xx: int, yy: int|
                        0 <= xx < w && 0 <= yy < h && (yy < y || (yy == y && xx < x)) ==> #[trigger] tmp.px(xx, yy)
                            == box_h_px(img, r as int, xx, yy),
                decreases w - x,
            {
                let xin: i64 = if x as i64 + r < wi - 1 { x as i64 + r } else { wi - 1 };
                let xout: i64 = if x as i64 - r - 1 > 0 { x as i64 - r - 1 } else { 0 };
                let p_in = input.get_pixel(xin as u32, y);
                let p_out = input.get_pixel(xout as u32, y);
                proof {
                    lemma_run_sum_bounds(l0, wi as int, r as int, x as int);
                    lemma_run_sum_bounds(l1, wi as int, r as int, x as int);
                    lemma_run_sum_bounds(l2, wi as int, r as int, x as int);
                    lemma_run_sum_bounds(l3, wi as int, r as int, x as int);
                }
                if x > 0 {
                    s0 = s0 + p_in.r as i64 - p_out.r as i64;
                    s1 = s1 + p_in.g as i64 - p_out.g as i64;
                    s2 = s2 + p_in.b as i64 - p_out.b as i64;
                    s3 = s3 + p_in.a as i64 - p_out.a as i64;
                }
                proof {
                    lemma_run_sum_window(l0, wi as int, r as int, x as int);
                    lemma_run_sum_window(l1, wi as int, r as int, x as int);
                    lemma_run_sum_window(l2, wi as int, r as int, x as int);
                    lemma_run_sum_window(l3, wi as int, r as int, x as int);
                }
                let c = Rgba8 {
                    r: box_value_exec(s0, count),
                    g: box_value_exec(s1, count),
                    b: box_value_exec(s2, count),
                    a: box_value_exec(s3, count),
                };
                tmp.set_pixel(x, y, c);
                x = x + 1;
            }
            y = y + 1;
        }
        // Vertical pass.
        let mut x: u32 = 0;
        while x < w
            invariant
                input.wf(),
                input@ == img,
                tmp.wf(),
                tmp.spec_width() == w,
                tmp.spec_height() == h,
                output.wf(),
                output.spec_width() == out0.width,
                output.spec_height() == out0.height,
                w == img.width,
                h == img.height,
                hi == h,
                r == self.radius,
                r < 0x4000_0000,
                count == 2 * r + 1,
                x <= w,
                w > 0 ==> h > 0 && h <= 0x4000_0000,
                forall|xx: int, yy: int|
                    0 <= xx < w && 0 <= yy < h ==> #[trigger] tmp.px(xx, yy) == box_h_px(img, r as int, xx, yy),
                forall|xx: int, yy: int|
                    output.in_bounds(xx, yy) ==> #[trigger] output.px(xx, yy) == (if img.in_bounds(xx, yy)
                        && xx < x {
                        box_px(img, r as int, xx, yy)
                    } else {
                        out0.px(xx, yy)
                    }),
            decreases w - x,
        {
            let ghost l0 = box_col_line(img, r as int, x as int, 0);
            let ghost l1 = box_col_line(img, r as int, x as int, 1);
            let ghost l2 = box_col_line(img, r as int, x as int, 2);
            let ghost l3 = box_col_line(img, r as int, x as int, 3);
            let mut s0: i64 = 0;
            let mut s1: i64 = 0;
            let mut s2: i64 = 0;
            let mut s3: i64 = 0;
            let mut j: i64 = -r;
            while j <= r
                invariant
                    tmp.wf(),
                    tmp.spec_width() == w,
                    tmp.spec_height() == h,
                    w == img.width,
                    h == img.height,
                    hi == h,
                    h > 0,
                    x < w,
                    r < 0x4000_0000,
                    -r <= j <= r + 1,
                    forall|xx: int, yy: int|
                        0 <= xx < w && 0 <= yy < h ==> #[trigger] tmp.px(xx, yy) == box_h_px(img, r as int, xx, yy),
                    l0 == box_col_line(img, r as int, x as int, 0),
                    l1 == box_col_line(img, r as int, x as int, 1),
                    l2 == box_col_line(img, r as int, x as int, 2),
                    l3 == box_col_line(img, r as int, x as int, 3),
                    s0 == clamped_sum(l0, hi as int, -r as int, j - 1),
                    s1 == clamped_sum(l1, hi as int, -r as int, j - 1),
                    s2 == clamped_sum(l2, hi as int, -r as int, j - 1),
                    s3 == clamped_sum(l3, hi as int, -r as int, j - 1),
                decreases r + 1 - j,
            {
                proof {
                    lemma_clamped_sum_bounds(l0, hi as int, -r as int, j - 1);
                    lemma_clamped_sum_bounds(l1, hi as int, -r as int, j - 1);
                    lemma_clamped_sum_bounds(l2, hi as int, -r as int, j - 1);
                    lemma_clamped_sum_bounds(l3, hi as int, -r as int, j - 1);
                }
                let yi: i64 = if j < 0 { 0 } else if j > hi - 1 { hi - 1 } else { j };
                let p = tmp.get_pixel(x, yi as u32);
                s0 = s0 + p.r as i64;
                s1 = s1 + p.g as i64;
                s2 = s2 + p.b as i64;
                s3 = s3 + p.a as i64;
                j = j + 1;
            }
            let mut y: u32 = 0;
            while y < h
                invariant
                    tmp.wf(),
                    tmp.spec_width() == w,
                    tmp.spec_height() == h,
                    output.wf(),
                    output.spec_width() == out0.width,
                    output.spec_height() == out0.height,
                    w == img.width,
                    h == img.height,
                    hi == h,
                    r == self.radius,
                    r < 0x4000_0000,
                    count == 2 * r + 1,
                    x < w,
                    y <= h,
                    h <= 0x4000_0000,
                    forall|xx: int, yy: int|
                        0 <= xx < w && 0 <= yy < h ==> #[trigger] tmp.px(xx, yy) == box_h_px(img, r as int, xx, yy),
                    l0 == box_col_line(img, r as int, x as int, 0),
                    l1 == box_col_line(img, r as int, x as int, 1),
                    l2 == box_col_line(img, r as int, x as int, 2),
                    l3 == box_col_line(img, r as int, x as int, 3),
                    s0 == run_sum(l0, hi as int, r as int, y - 1),
                    s1 == run_sum(l1, hi as int, r as int, y - 1),
                    s2 == run_sum(l2, hi as int, r as int, y - 1),
                    s3 == run_sum(l3, hi as int, r as int, y - 1),
                    forall|xx: int, yy: int|
                        output.in_bounds(xx, yy) ==> #[trigger] output.px(xx, yy) == (if img.in_bounds(xx, yy)
                            && (xx < x || (xx == x && yy < y)) {
                            box_px(img, r as int, xx, yy)
                        } else {
                            out0.px(xx, yy)
                        }),
                decreases h - y,
            {
                let yin: i64 = if y as i64 + r < hi - 1 { y as i64 + r } else { hi - 1 };
                let yout: i64 = if y as i64 - r - 1 > 0 { y as i64 - r - 1 } else { 0 };
                let p_in = tmp.get_pixel(x, yin as u32);
                let p_out = tmp.get_pixel(x, yout as u32);
                proof {
                    lemma_run_sum_bounds(l0, hi as int, r as int, y as int);
                    lemma_run_sum_bounds(l1, hi as int, r as int, y as int);
                    lemma_run_sum_bounds(l2, hi as int, r as int, y as int);
                    lemma_run_sum_bounds(l3, hi as int, r as int, y as int);
                }
                if y > 0 {
                    s0 = s0 + p_in.r as i64 - p_out.r as i64;
                    s1 = s1 + p_in.g as i64 - p_out.g as i64;
                    s2 = s2 + p_in.b as i64 - p_out.b as i64;
                    s3 = s3 + p_in.a as i64 - p_out.a as i64;
                }
                proof {
                    lemma_run_sum_window(l0, hi as int, r as int, y as int);
                    lemma_run_sum_window(l1, hi as int, r as int, y as int);
                    lemma_run_sum_window(l2, hi as int, r as int, y as int);
                    lemma_run_sum_window(l3, hi as int, r as int, y as int);
                }
                let c = Rgba8 {
                    r: box_value_exec(s0, count),
                    g: box_value_exec(s1, count),
                    b: box_value_exec(s2, count),
                    a: box_value_exec(s3, count),
                };
                output.set_pixel(x, y, c);
                y = y + 1;
            }
            x = x + 1;
        }
    }
}

proof fn lemma_box_value_one(v: int)
    requires
        0 <= v <= 255,
    ensures
        box_value(v, 1) as int == v,
{
    assert((2 * v + 1) / 2 == v);
}

/// A box blur of radius zero leaves every pixel as it was.
pub proof fn law_box_blur_radius_zero(img: Image, out: Image, x: int, y: int)
    requires
        img.in_bounds(x, y),
    ensures
        (BoxBlur { radius: 0 }).output_px(img, out, x, y) == img.px(x, y),
{
    let w = img.width as int;
    let h = img.height as int;
    assert forall|j: int, c: int| 0 <= j < h && 0 <= c < 4 implies #[trigger] chan(box_h_px(img, 0, x, j), c) == chan(
        img.px(x, j),
        c,
    ) by {
        assert(clamped_sum(row_line(img, j, c), w, x, x - 1) == 0);
        lemma_box_value_one(chan(img.px(x, j), c));
    }
    assert(box_h_px(img, 0, x, y) == img.px(x, y)) by {
        assert(chan(box_h_px(img, 0, x, y), 0) == chan(img.px(x, y), 0));
        assert(chan(box_h_px(img, 0, x, y), 1) == chan(img.px(x, y), 1));
        assert(chan(box_h_px(img, 0, x, y), 2) == chan(img.px(x, y), 2));
        assert(chan(box_h_px(img, 0, x, y), 3) == chan(img.px(x, y), 3));
    }
    let p = img.px(x, y);
    assert forall|c: int| 0 <= c < 4 implies window_sum(box_col_line(img, 0, x, c), h, 0, y) == chan(p, c) by {
        assert(clamped_sum(box_col_line(img, 0, x, c), h, y, y - 1) == 0);
        assert(chan(box_h_px(img, 0, x, y), c) == chan(img.px(x, y), c));
    }
    assert(window_sum(box_col_line(img, 0, x, 0), h, 0, y) == chan(p, 0));
    assert(window_sum(box_col_line(img, 0, x, 1), h, 0, y) == chan(p, 1));
    assert(window_sum(box_col_line(img, 0, x, 2), h, 0, y) == chan(p, 2));
    assert(window_sum(box_col_line(img, 0, x, 3), h, 0, y) == chan(p, 3));
    lemma_box_value_one(p.r as int);
    lemma_box_value_one(p.g as int);
    lemma_box_value_one(p.b as int);
    lemma_box_value_one(p.a as int);
}

/// `wts[0] + ... + wts[m - 1]`.
pub open spec fn kernel_sum(wts: Seq<u32>, m: int) -> int
    decreases m,
{
    if m <= 0 {
        0
    } else {
        kernel_sum(wts, m - 1) + wts[m - 1]
    }
}

/// `wts[k] * line(clamp(x + k - r))` summed over `k < m`, on a line of `n` samples with
/// edges repeated.
pub open spec fn conv_sum(line: spec_fn(int) -> int, n: int, wts: Seq<u32>, r: int, x: int, m: int) -> int
    decreases m,
{
    if m <= 0 {
        0
    } else {
        conv_sum(line, n, wts, r, x, m - 1) + wts[m - 1] * line(clampi(x + m - 1 - r, 0, n - 1))
    }
}

/// The horizontal pass of a convolution with the kernel `wts` centred on tap `r`.
pub open spec fn gauss_h_px(img: Image, wts: Seq<u32>, r: int, x: int, y: int) -> Rgba8 {
    let k = wts.len() as int;
    let total = kernel_sum(wts, k);
    Rgba8 {
        r: box_value(conv_sum(row_line(img, y, 0), img.width as int, wts, r, x, k), total),
        g: box_value(conv_sum(row_line(img, y, 1), img.width as int, wts, r, x, k), total),
        b: box_value(conv_sum(row_line(img, y, 2), img.width as int, wts, r, x, k), total),
        a: box_value(conv_sum(row_line(img, y, 3), img.width as int, wts, r, x, k), total),
    }
}

/// Channel `c` down column `x` of the horizontal pass.
pub open spec fn gauss_col_line(img: Image, wts: Seq<u32>, r: int, x: int, c: int) -> spec_fn(int) -> int {
    |j: int| chan(gauss_h_px(img, wts, r, x, j), c)
}

/// The convolution at `(x, y)`: the vertical pass over the horizontal one.
pub open spec fn gauss_px(img: Image, wts: Seq<u32>, r: int, x: int, y: int) -> Rgba8 {
    let k = wts.len() as int;
    let total = kernel_sum(wts, k);
    let h = img.height as int;
    Rgba8 {
        r: box_value(conv_sum(gauss_col_line(img, wts, r, x, 0), h, wts, r, y, k), total),
        g: box_value(conv_sum(gauss_col_line(img, wts, r, x, 1), h, wts, r, y, k), total),
        b: box_value(conv_sum(gauss_col_line(img, wts, r, x, 2), h, wts, r, y, k), total),
        a: box_value(conv_sum(gauss_col_line(img, wts, r, x, 3), h, wts, r, y, k), total),
    }
}

/// Channel `c` down column `x` of `img`.
pub open spec fn col_line(img: Image, x: int, c: int) -> spec_fn(int) -> int {
    |j: int| chan(img.px(x, j), c)
}

proof fn lemma_kernel_sum_nonneg(wts: Seq<u32>, m: int)
    ensures
        0 <= kernel_sum(wts, m),
    decreases m,
{
    if m > 0 {
        lemma_kernel_sum_nonneg(wts, m - 1);
    }
}

proof fn lemma_kernel_sum_mono(wts: Seq<u32>, i: int, m: int)
    requires
        0 <= i <= m,
    ensures
        0 <= kernel_sum(wts, i) <= kernel_sum(wts, m),
    decreases m - i,
{
    if i < m {
        lemma_kernel_sum_mono(wts, i, m - 1);
    } else {
        lemma_kernel_sum_nonneg(wts, i);
    }
}

proof fn lemma_conv_sum_bounds(line: spec_fn(int) -> int, n: int, wts: Seq<u32>, r: int, x: int, m: int)
    requires
        forall|i: int| 0 <= #[trigger] line(i) <= 255,
    ensures
        0 <= conv_sum(line, n, wts, r, x, m) <= kernel_sum(wts, m) * 255,
    decreases m,
{
    if m > 0 {
        lemma_conv_sum_bounds(line, n, wts, r, x, m - 1);
        let v = line(clampi(x + m - 1 - r, 0, n - 1));
        assert(0 <= wts[m - 1] * v <= wts[m - 1] * 255) by (nonlinear_arith)
            requires 0 <= v <= 255, wts[m - 1] >= 0;
    }
}

/// Two lines that agree on `0..n` give the same convolution sums.
proof fn lemma_conv_sum_ext(l1: spec_fn(int) -> int, l2: spec_fn(int) -> int, n: int, wts: Seq<u32>, r: int, x: int, m: int)
    requires
        n > 0,
        forall|i: int| 0 <= i < n ==> #[trigger] l1(i) == l2(i),
    ensures
        conv_sum(l1, n, wts, r, x, m) == conv_sum(l2, n, wts, r, x, m),
    decreases m,
{
    if m > 0 {
        lemma_conv_sum_ext(l1, l2, n, wts, r, x, m - 1);
        let j = clampi(x + m - 1 - r, 0, n - 1);
        assert(l1(j) == l2(j));
    }
}

/// One tap of the convolution: `s + wk * v` stays below `(t + wk) * 255`.
proof fn lemma_tap(s: int, t: int, wk: int, v: int)
    requires
        0 <= s <= t * 255,
        0 <= wk,
        0 <= v <= 255,
    ensures
        0 <= s + wk * v <= (t + wk) * 255,
{
    assert(0 <= wk * v <= wk * 255) by (nonlinear_arith)
        requires 0 <= v <= 255, 0 <= wk;
}

/// The convolution along row `y` at column `x`, computed tap by tap.
fn conv_row_px(input: &PixelBuffer, wts: &Vec<u32>, r: u32, total: u64, x: u32, y: u32) -> (c: Rgba8)
    requires
        input.wf(),
        input.in_bounds(x as int, y as int),
        wts@.len() == 2 * r + 1,
        r < 0x4000_0000,
        total == kernel_sum(wts@, wts@.len() as int),
        0 < total <= 0x100_0000,
    ensures
        c == gauss_h_px(input@, wts@, r as int, x as int, y as int),
{
    let ghost img = input@;
    let ghost l0 = row_line(img, y as int, 0);
    let ghost l1 = row_line(img, y as int, 1);
    let ghost l2 = row_line(img, y as int, 2);
    let ghost l3 = row_line(img, y as int, 3);
    let ghost kl = wts@.len() as int;
    let n: i64 = input.width() as i64;
    let mut s0: u64 = 0;
    let mut s1: u64 = 0;
    let mut s2: u64 = 0;
    let mut s3: u64 = 0;
    let mut k: usize = 0;
    while k < wts.len()
        invariant
            input.wf(),
            input@ == img,
            input.in_bounds(x as int, y as int),
            n == img.width,
            wts@.len() == kl,
            kl == 2 * r + 1,
            r < 0x4000_0000,
            total == kernel_sum(wts@, kl),
            total <= 0x100_0000,
            k <= kl,
            l0 == row_line(img, y as int, 0),
            l1 == row_line(img, y as int, 1),
            l2 == row_line(img, y as int, 2),
            l3 == row_line(img, y as int, 3),
            s0 == conv_sum(l0, n as int, wts@, r as int, x as int, k as int),
            s1 == conv_sum(l1, n as int, wts@, r as int, x as int, k as int),
            s2 == conv_sum(l2, n as int, wts@, r as int, x as int, k as int),
            s3 == conv_sum(l3, n as int, wts@, r as int, x as int, k as int),
        decreases kl - k,
    {
        proof {
            lemma_conv_sum_bounds(l0, n as int, wts@, r as int, x as int, k as int);
            lemma_conv_sum_bounds(l1, n as int, wts@, r as int, x as int, k as int);
            lemma_conv_sum_bounds(l2, n as int, wts@, r as int, x as int, k as int);
            lemma_conv_sum_bounds(l3, n as int, wts@, r as int, x as int, k as int);
            lemma_kernel_sum_mono(wts@, k + 1, kl);
        }
        let xi0: i64 = x as i64 + k as i64 - r as i64;
        let xi: i64 = if xi0 < 0 { 0 } else if xi0 > n - 1 { n - 1 } else { xi0 };
        let p = input.get_pixel(xi as u32, y);
        let wk: u64 = wts[k] as u64;
        proof {
            let t = kernel_sum(wts@, k as int);
            lemma_tap(s0 as int, t, wk as int, p.r as int);
            lemma_tap(s1 as int, t, wk as int, p.g as int);
            lemma_tap(s2 as int, t, wk as int, p.b as int);
            lemma_tap(s3 as int, t, wk as int, p.a as int);
        }
        s0 = s0 + wk * p.r as u64;
        s1 = s1 + wk * p.g as u64;
        s2 = s2 + wk * p.b as u64;
        s3 = s3 + wk * p.a as u64;
        k = k + 1;
    }
    proof {
        lemma_conv_sum_bounds(l0, n as int, wts@, r as int, x as int, kl);
        lemma_conv_sum_bounds(l1, n as int, wts@, r as int, x as int, kl);
        lemma_conv_sum_bounds(l2, n as int, wts@, r as int, x as int, kl);
        lemma_conv_sum_bounds(l3, n as int, wts@, r as int, x as int, kl);
    }
    Rgba8 {
        r: box_value_exec(s0 as i64, total as i64),
        g: box_value_exec(s1 as i64, total as i64),
        b: box_value_exec(s2 as i64, total as i64),
        a: box_value_exec(s3 as i64, total as i64),
    }
}

/// The convolution down column `x` at row `y`, computed tap by tap.
fn conv_col_px(buf: &PixelBuffer, wts: &Vec<u32>, r: u32, total: u64, x: u32, y: u32) -> (c: Rgba8)
    requires
        buf.wf(),
        buf.in_bounds(x as int, y as int),
        wts@.len() == 2 * r + 1,
        r < 0x4000_0000,
        total == kernel_sum(wts@, wts@.len() as int),
        0 < total <= 0x100_0000,
    ensures
        c == (Rgba8 {
            r: box_value(conv_sum(col_line(buf@, x as int, 0), buf@.height as int, wts@, r as int, y as int, wts@.len() as int), total as int),
            g: box_value(conv_sum(col_line(buf@, x as int, 1), buf@.height as int, wts@, r as int, y as int, wts@.len() as int), total as int),
            b: box_value(conv_sum(col_line(buf@, x as int, 2), buf@.height as int, wts@, r as int, y as int, wts@.len() as int), total as int),
            a: box_value(conv_sum(col_line(buf@, x as int, 3), buf@.height as int, wts@, r as int, y as int, wts@.len() as int), total as int),
        }),
{
    let ghost img = buf@;
    let ghost l0 = col_line(img, x as int, 0);
    let ghost l1 = col_line(img, x as int, 1);
    let ghost l2 = col_line(img, x as int, 2);
    let ghost l3 = col_line(img, x as int, 3);
    let ghost kl = wts@.len() as int;
    let n: i64 = buf.height() as i64;
    let mut s0: u64 = 0;
    let mut s1: u64 = 0;
    let mut s2: u64 = 0;
    let mut s3: u64 = 0;
    let mut k: usize = 0;
    while k < wts.len()
        invariant
            buf.wf(),
            buf@ == img,
            buf.in_bounds(x as int, y as int),
            n == img.height,
            wts@.len() == kl,
            kl == 2 * r + 1,
            r < 0x4000_0000,
            total == kernel_sum(wts@, kl),
            total <= 0x100_0000,
            k <= kl,
            l0 == col_line(img, x as int, 0),
            l1 == col_line(img, x as int, 1),
            l2 == col_line(img, x as int, 2),
            l3 == col_line(img, x as int, 3),
            s0 == conv_sum(l0, n as int, wts@, r as int, y as int, k as int),
            s1 == conv_sum(l1, n as int, wts@, r as int, y as int, k as int),
            s2 == conv_sum(l2, n as int, wts@, r as int, y as int, k as int),
            s3 == conv_sum(l3, n as int, wts@, r as int, y as int, k as int),
        decreases kl - k,
    {
        proof {
            lemma_conv_sum_bounds(l0, n as int, wts@, r as int, y as int, k as int);
            lemma_conv_sum_bounds(l1, n as int, wts@, r as int, y as int, k as int);
            lemma_conv_sum_bounds(l2, n as int, wts@, r as int, y as int, k as int);
            lemma_conv_sum_bounds(l3, n as int, wts@, r as int, y as int, k as int);
            lemma_kernel_sum_mono(wts@, k + 1, kl);
        }
        let yi0: i64 = y as i64 + k as i64 - r as i64;
        let yi: i64 = if yi0 < 0 { 0 } else if yi0 > n - 1 { n - 1 } else { yi0 };
        let p = buf.get_pixel(x, yi as u32);
        let wk: u64 = wts[k] as u64;
        proof {
            let t = kernel_sum(wts@, k as int);
            lemma_tap(s0 as int, t, wk as int, p.r as int);
            lemma_tap(s1 as int, t, wk as int, p.g as int);
            lemma_tap(s2 as int, t, wk as int, p.b as int);
            lemma_tap(s3 as int, t, wk as int, p.a as int);
        }
        s0 = s0 + wk * p.r as u64;
        s1 = s1 + wk * p.g as u64;
        s2 = s2 + wk * p.b as u64;
        s3 = s3 + wk * p.a as u64;
        k = k + 1;
    }
    proof {
        lemma_conv_sum_bounds(l0, n as int, wts@, r as int, y as int, kl);
        lemma_conv_sum_bounds(l1, n as int, wts@, r as int, y as int, kl);
        lemma_conv_sum_bounds(l2, n as int, wts@, r as int, y as int, kl);
        lemma_conv_sum_bounds(l3, n as int, wts@, r as int, y as int, kl);
    }
    Rgba8 {
        r: box_value_exec(s0 as i64, total as i64),
        g: box_value_exec(s1 as i64, total as i64),
        b: box_value_exec(s2 as i64, total as i64),
        a: box_value_exec(s3 as i64, total as i64),
    }
}

/// The sum of the kernel weights, or `None` when it exceeds `limit`.
fn kernel_total(wts: &Vec<u32>, limit: u64) -> (t: Option<u64>)
    requires
        limit <= 0x1_0000_0000,
    ensures
        t matches Some(v) ==> v == kernel_sum(wts@, wts@.len() as int) && v <= limit,
        t is None ==> kernel_sum(wts@, wts@.len() as int) > limit,
{
    let mut t: u64 = 0;
    let mut k: usize = 0;
    while k < wts.len()
        invariant
            k <= wts@.len(),
            limit <= 0x1_0000_0000,
            t == kernel_sum(wts@, k as int),
            t <= limit,
        decreases wts@.len() - k,
    {
        t = t + wts[k] as u64;
        k = k + 1;
        if t > limit {
            proof {
                lemma_kernel_sum_mono(wts@, k as int, wts@.len() as int);
            }
            return None;
        }
    }
    Some(t)
}

/// Gaussian blur: a separable convolution, horizontal then vertical, with edge pixels
/// repeated. `weights` holds the `2 * radius + 1` kernel taps as integers (the Gaussian of
/// standard deviation `max(radius / 2, 0.5)`, scaled); each result is the weighted sum divided
/// by the sum of the weights, rounded half up.
pub struct GaussianBlur {
    pub radius: u32,
    pub weights: Vec<u32>,
}

impl Filter for GaussianBlur {
    /// One weight per tap, a radius below `2^30`, and a positive weight sum of at most `2^24`.
    open spec fn accepts(&self, input: Image) -> bool {
        &&& self.radius < 0x4000_0000
        &&& self.weights@.len() == 2 * self.radius + 1
        &&& 0 < kernel_sum(self.weights@, self.weights@.len() as int) <= 0x100_0000
    }

    open spec fn output_px(&self, input: Image, old_output: Image, x: int, y: int) -> Rgba8 {
        if input.in_bounds(x, y) {
            gauss_px(input, self.weights@, self.radius as int, x, y)
        } else {
            old_output.px(x, y)
        }
    }

    fn apply(&self, input: &PixelBuffer, output: &mut PixelBuffer) {
        let ghost out0 = output@;
        let ghost img = input@;
        let ghost wts = self.weights@;
        let ghost kl = wts.len() as int;
        let r = self.radius;
        let total = match kernel_total(&self.weights, 0x100_0000) {
            Some(t) => t,
            None => {
                return;
            },
        };
        let w = input.width();
        let h = input.height();
        let mut tmp = PixelBuffer::new(w, h);
        // Horizontal pass.
        let mut y: u32 = 0;
        while y < h
            invariant
                input.wf(),
                input@ == img,
                tmp.wf(),
                tmp.spec_width() == w,
                tmp.spec_height() == h,
                w == img.width,
                h == img.height,
                wts == self.weights@,
                kl == wts.len(),
                r == self.radius,
                self.accepts(img),
                total == kernel_sum(wts, kl),
                y <= h,
                forall|xx: int, yy: int|
                    0 <= xx < w && 0 <= yy < y ==> #[trigger] tmp.px(xx, yy) == gauss_h_px(img, wts, r as int, xx, yy),
            decreases h - y,
        {
            let mut x: u32 = 0;
            while x < w
                invariant
                    input.wf(),
                    input@ == img,
                    tmp.wf(),
                    tmp.spec_width() == w,
                    tmp.spec_height() == h,
                    w == img.width,
                    h == img.height,
                    wts == self.weights@,
                    kl == wts.len(),
                    r == self.radius,
                    self.accepts(img),
                    total == kernel_sum(wts, kl),
                    y < h,
                    x <= w,
                    forall|xx: int, yy: int|
                        0 <= xx < w && 0 <= yy < h && (yy < y || (yy == y && xx < x)) ==> #[trigger] tmp.px(xx, yy)
                            == gauss_h_px(img, wts, r as int, xx, yy),
                decreases w - x,
            {
                let c = conv_row_px(input, &self.weights, r, total, x, y);
                tmp.set_pixel(x, y, c);
                x = x + 1;
            }
            y = y + 1;
        }
        // Vertical pass.
        let mut x: u32 = 0;
        while x < w
            invariant
                tmp.wf(),
                tmp.spec_width() == w,
                tmp.spec_height() == h,
                output.wf(),
                output.spec_width() == out0.width,
                output.spec_height() == out0.height,
                w == img.width,
                h == img.height,
                wts == self.weights@,
                kl == wts.len(),
                r == self.radius,
                self.accepts(img),
                total == kernel_sum(wts, kl),
                x <= w,
                forall|xx: int, yy: int|
                    0 <= xx < w && 0 <= yy < h ==> #[trigger] tmp.px(xx, yy) == gauss_h_px(img, wts, r as int, xx, yy),
                forall|xx: int, yy: int|
                    output.in_bounds(xx, yy) ==> #[trigger] output.px(xx, yy) == (if img.in_bounds(xx, yy) && xx < x {
                        gauss_px(img, wts, r as int, xx, yy)
                    } else {
                        out0.px(xx, yy)
                    }),
            decreases w - x,
        {
            let mut y: u32 = 0;
            while y < h
                invariant
                    tmp.wf(),
                    tmp.spec_width() == w,
                    tmp.spec_height() == h,
                    output.wf(),
                    output.spec_width() == out0.width,
                    output.spec_height() == out0.height,
                    w == img.width,
                    h == img.height,
                    wts == self.weights@,
                    kl == wts.len(),
                    r == self.radius,
                    self.accepts(img),
                    total == kernel_sum(wts, kl),
                    x < w,
                    y <= h,
                    forall|xx: int, yy: int|
                        0 <= xx < w && 0 <= yy < h ==> #[trigger] tmp.px(xx, yy) == gauss_h_px(img, wts, r as int, xx, yy),
                    forall|xx: int, yy: int|
                        output.in_bounds(xx, yy) ==> #[trigger] output.px(xx, yy) == (if img.in_bounds(xx, yy)
                            && (xx < x || (xx == x && yy < y)) {
                            gauss_px(img, wts, r as int, xx, yy)
                        } else {
                            out0.px(xx, yy)
                        }),
                decreases h - y,
            {
                let c = conv_col_px(&tmp, &self.weights, r, total, x, y);
                proof {
                    assert forall|j: int| 0 <= j < h implies #[trigger] col_line(tmp@, x as int, 0)(j) == gauss_col_line(
                        img,
                        wts,
                        r as int,
                        x as int,
                        0,
                    )(j) by {
                        assert(tmp.px(x as int, j) == gauss_h_px(img, wts, r as int, x as int, j));
                    }
                    assert forall|j: int| 0 <= j < h implies #[trigger] col_line(tmp@, x as int, 1)(j) == gauss_col_line(
                        img,
                        wts,
                        r as int,
                        x as int,
                        1,
                    )(j) by {
                        assert(tmp.px(x as int, j) == gauss_h_px(img, wts, r as int, x as int, j));
                    }
                    assert forall|j: int| 0 <= j < h implies #[trigger] col_line(tmp@, x as int, 2)(j) == gauss_col_line(
                        img,
                        wts,
                        r as int,
                        x as int,
                        2,
                    )(j) by {
                        assert(tmp.px(x as int, j) == gauss_h_px(img, wts, r as int, x as int, j));
                    }
                    assert forall|j: int| 0 <= j < h implies #[trigger] col_line(tmp@, x as int, 3)(j) == gauss_col_line(
                        img,
                        wts,
                        r as int,
                        x as int,
                        3,
                    )(j) by {
                        assert(tmp.px(x as int, j) == gauss_h_px(img, wts, r as int, x as int, j));
                    }
                    lemma_conv_sum_ext(col_line(tmp@, x as int, 0), gauss_col_line(img, wts, r as int, x as int, 0), h as int, wts, r as int, y as int, kl);
                    lemma_conv_sum_ext(col_line(tmp@, x as int, 1), gauss_col_line(img, wts, r as int, x as int, 1), h as int, wts, r as int, y as int, kl);
                    lemma_conv_sum_ext(col_line(tmp@, x as int, 2), gauss_col_line(img, wts, r as int, x as int, 2), h as int, wts, r as int, y as int, kl);
                    lemma_conv_sum_ext(col_line(tmp@, x as int, 3), gauss_col_line(img, wts, r as int, x as int, 3), h as int, wts, r as int, y as int, kl);
                }
                output.set_pixel(x, y, c);
                y = y + 1;
            }
            x = x + 1;
        }
    }
}


/// A sum of `k` samples of value `v` rounded back to its mean is `v`.
proof fn lemma_box_value_exact(v: int, k: int)
    requires
        0 <= v <= 255,
        k > 0,
    ensures
        box_value(k * v, k) as int == v,
{
    if v > 0 {
        assert(k * v > 0) by (nonlinear_arith)
            requires k > 0, v > 0;
        assert((2 * (k * v) + k) / (2 * k) == v) by (nonlinear_arith)
            requires k > 0, v >= 0;
    } else {
        assert(k * v == 0);
    }
}

/// The convolution sums of a line of one value `v` are the kernel sums times `v`.
proof fn lemma_conv_sum_const(line: spec_fn(int) -> int, n: int, wts: Seq<u32>, r: int, x: int, m: int, v: int)
    requires
        forall|i: int| #[trigger] line(i) == v,
    ensures
        conv_sum(line, n, wts, r, x, m) == kernel_sum(wts, m) * v,
    decreases m,
{
    if m > 0 {
        lemma_conv_sum_const(line, n, wts, r, x, m - 1, v);
        assert(kernel_sum(wts, m - 1) * v + wts[m - 1] * v == (kernel_sum(wts, m - 1) + wts[m - 1]) * v)
            by (nonlinear_arith);
    }
}

/// A Gaussian blur of an image of one colour `c` leaves `c` at every pixel, whatever the
/// kernel.
pub proof fn law_gaussian_blur_constant(img: Image, wts: Seq<u32>, r: int, x: int, y: int, c: Rgba8)
    requires
        kernel_sum(wts, wts.len() as int) > 0,
        img.in_bounds(x, y),
        forall|i: int, j: int| img.in_bounds(i, j) ==> #[trigger] img.px(i, j) == c,
    ensures
        gauss_px(img, wts, r, x, y) == c,
{
    let k = wts.len() as int;
    let total = kernel_sum(wts, k);
    let w = img.width as int;
    let h = img.height as int;
    assert forall|j: int, ch: int| 0 <= j < h && 0 <= ch < 4 implies #[trigger] chan(gauss_h_px(img, wts, r, x, j), ch)
        == chan(c, ch) by {
        let line = row_line(img, j, ch);
        let cl = |i: int| chan(c, ch);
        assert forall|i: int| 0 <= i < w implies #[trigger] line(i) == cl(i) by {
            assert(img.in_bounds(i, j));
        }
        lemma_conv_sum_ext(line, cl, w, wts, r, x, k);
        lemma_conv_sum_const(cl, w, wts, r, x, k, chan(c, ch));
        assert(0 <= chan(c, ch) <= 255);
        lemma_box_value_exact(chan(c, ch), total);
    }
    assert forall|ch: int| 0 <= ch < 4 implies box_value(conv_sum(gauss_col_line(img, wts, r, x, ch), h, wts, r, y, k), total)
        as int == chan(c, ch) by {
        let line = gauss_col_line(img, wts, r, x, ch);
        let cl = |i: int| chan(c, ch);
        assert forall|j: int| 0 <= j < h implies #[trigger] line(j) == cl(j) by {
            assert(chan(gauss_h_px(img, wts, r, x, j), ch) == chan(c, ch));
        }
        lemma_conv_sum_ext(line, cl, h, wts, r, y, k);
        lemma_conv_sum_const(cl, h, wts, r, y, k, chan(c, ch));
        assert(0 <= chan(c, ch) <= 255);
        lemma_box_value_exact(chan(c, ch), total);
    }
    assert(box_value(conv_sum(gauss_col_line(img, wts, r, x, 0), h, wts, r, y, k), total) as int == chan(c, 0));
    assert(box_value(conv_sum(gauss_col_line(img, wts, r, x, 1), h, wts, r, y, k), total) as int == chan(c, 1));
    assert(box_value(conv_sum(gauss_col_line(img, wts, r, x, 2), h, wts, r, y, k), total) as int == chan(c, 2));
    assert(box_value(conv_sum(gauss_col_line(img, wts, r, x, 3), h, wts, r, y, k), total) as int == chan(c, 3));
}

/// A Gaussian blur with a one-tap kernel (radius 0) leaves every pixel as it was.
pub proof fn law_gaussian_blur_radius_zero(img: Image, wts: Seq<u32>, x: int, y: int)
    requires
        wts.len() == 1,
        wts[0] > 0,
        img.in_bounds(x, y),
    ensures
        gauss_px(img, wts, 0, x, y) == img.px(x, y),
{
    let w = img.width as int;
    let h = img.height as int;
    let w0 = wts[0] as int;
    assert(kernel_sum(wts, 1) == w0) by {
        assert(kernel_sum(wts, 0) == 0);
    }
    assert forall|j: int, ch: int| 0 <= j < h && 0 <= ch < 4 implies #[trigger] chan(gauss_h_px(img, wts, 0, x, j), ch)
        == chan(img.px(x, j), ch) by {
        let line = row_line(img, j, ch);
        assert(conv_sum(line, w, wts, 0, x, 0) == 0);
        assert(conv_sum(line, w, wts, 0, x, 1) == w0 * line(x));
        assert(0 <= chan(img.px(x, j), ch) <= 255);
        assert(w0 * line(x) == line(x) * w0) by (nonlinear_arith);
        lemma_box_value_exact(line(x), w0);
    }
    let p = img.px(x, y);
    assert forall|ch: int| 0 <= ch < 4 implies box_value(conv_sum(gauss_col_line(img, wts, 0, x, ch), h, wts, 0, y, 1), w0)
        as int == chan(p, ch) by {
        let line = gauss_col_line(img, wts, 0, x, ch);
        assert(conv_sum(line, h, wts, 0, y, 0) == 0);
        assert(conv_sum(line, h, wts, 0, y, 1) == w0 * line(y));
        assert(line(y) == chan(p, ch));
        assert(0 <= chan(p, ch) <= 255);
        assert(w0 * line(y) == line(y) * w0) by (nonlinear_arith);
        lemma_box_value_exact(line(y), w0);
    }
    assert(box_value(conv_sum(gauss_col_line(img, wts, 0, x, 0), h, wts, 0, y, 1), w0) as int == chan(p, 0));
    assert(box_value(conv_sum(gauss_col_line(img, wts, 0, x, 1), h, wts, 0, y, 1), w0) as int == chan(p, 1));
    assert(box_value(conv_sum(gauss_col_line(img, wts, 0, x, 2), h, wts, 0, y, 1), w0) as int == chan(p, 2));
    assert(box_value(conv_sum(gauss_col_line(img, wts, 0, x, 3), h, wts, 0, y, 1), w0) as int == chan(p, 3));
}


/// On a one-sample line every clamped index is 0: the sum is the count times that sample.
proof fn lemma_clamped_sum_single(line: spec_fn(int) -> int, lo: int, hi: int)
    requires
        lo <= hi + 1,
    ensures
        clamped_sum(line, 1, lo, hi) == (hi - lo + 1) * line(0),
    decreases hi - lo + 1,
{
    if hi >= lo {
        lemma_clamped_sum_single(line, lo, hi - 1);
        assert((hi - 1 - lo + 1) * line(0) + line(0) == (hi - lo + 1) * line(0)) by (nonlinear_arith);
    }
}

/// Two lines that agree on `0..n` give the same clamped sums.
proof fn lemma_clamped_sum_ext(l1: spec_fn(int) -> int, l2: spec_fn(int) -> int, n: int, lo: int, hi: int)
    requires
        n > 0,
        forall|i: int| 0 <= i < n ==> #[trigger] l1(i) == l2(i),
    ensures
        clamped_sum(l1, n, lo, hi) == clamped_sum(l2, n, lo, hi),
    decreases hi - lo + 1,
{
    if hi >= lo {
        lemma_clamped_sum_ext(l1, l2, n, lo, hi - 1);
        let j = clampi(hi, 0, n - 1);
        assert(l1(j) == l2(j));
    }
}

/// Rounding a sum of `k` samples back to their mean is `(2 * s + k) / (2 * k)`.
proof fn lemma_box_value_mean(s: int, k: int)
    requires
        k > 0,
        0 <= s <= k * 255,
    ensures
        box_value(s, k) as int == (2 * s + k) / (2 * k),
{
    assert((2 * s + k) / (2 * k) <= 255) by (nonlinear_arith)
        requires k > 0, 0 <= s <= k * 255;
    assert((2 * s + k) / (2 * k) >= 0) by (nonlinear_arith)
        requires k > 0, 0 <= s;
    if s <= 0 {
        assert(k / (2 * k) == 0) by (nonlinear_arith)
            requires k > 0;
    }
}

/// The channel values of a pixel are bytes.
proof fn lemma_chan_byte(img: Image, x: int, c: int)
    ensures
        forall|j: int| 0 <= #[trigger] col_line(img, x, c)(j) <= 255,
{
    assert forall|j: int| 0 <= #[trigger] col_line(img, x, c)(j) <= 255 by {
        let p = img.px(x, j);
        assert(0 <= chan(p, c) <= 255);
    }
}

/// On an image one pixel wide, the box blur averages down the column: channel `c` of the
/// output at row `y` is the rounded mean of the `2 * r + 1` pixels of rows `y - r..=y + r`,
/// the edge rows repeated.
pub proof fn law_box_blur_one_column(img: Image, out: Image, r: u32, y: int, c: int)
    requires
        img.width == 1,
        0 <= y < img.height,
        r < 0x4000_0000,
        0 <= c < 4,
    ensures
        chan((BoxBlur { radius: r }).output_px(img, out, 0, y), c) == (2 * clamped_sum(
            col_line(img, 0, c),
            img.height as int,
            y - r,
            y + r,
        ) + (2 * r + 1)) / (2 * (2 * r + 1)),
{
    let k = 2 * r + 1;
    let h = img.height as int;
    let rr = r as int;
    assert forall|j: int| 0 <= j < h implies #[trigger] box_col_line(img, rr, 0, c)(j) == col_line(img, 0, c)(j) by {
        let line = row_line(img, j, c);
        lemma_clamped_sum_single(line, -rr, rr);
        let v = chan(img.px(0, j), c);
        assert(line(0) == v);
        assert(0 <= v <= 255);
        lemma_box_value_exact(v, k);
        assert(window_sum(line, 1, rr, 0) == k * v);
        assert(box_value(window_sum(row_line(img, j, c), 1, rr, 0), k) as int == v);
        assert(chan(box_h_px(img, rr, 0, j), c) == v);
    }
    lemma_clamped_sum_ext(box_col_line(img, rr, 0, c), col_line(img, 0, c), h, y - rr, y + rr);
    lemma_chan_byte(img, 0, c);
    lemma_clamped_sum_bounds(col_line(img, 0, c), h, y - rr, y + rr);
    let s = clamped_sum(col_line(img, 0, c), h, y - rr, y + rr);
    lemma_box_value_mean(s, k);
    assert(window_sum(box_col_line(img, rr, 0, c), h, rr, y) == s);
    let p = box_px(img, rr, 0, y);
    assert(chan(p, c) == box_value(window_sum(box_col_line(img, rr, 0, c), h, rr, y), k) as int);
}

/// On an image one pixel tall, the box blur averages along the row: channel `c` of the output
/// at column `x` is the rounded mean of the `2 * r + 1` pixels of columns `x - r..=x + r`, the
/// edge columns repeated.
pub proof fn law_box_blur_one_row(img: Image, out: Image, r: u32, x: int, c: int)
    requires
        img.height == 1,
        0 <= x < img.width,
        r < 0x4000_0000,
        0 <= c < 4,
    ensures
        chan((BoxBlur { radius: r }).output_px(img, out, x, 0), c) == (2 * clamped_sum(
            row_line(img, 0, c),
            img.width as int,
            x - r,
            x + r,
        ) + (2 * r + 1)) / (2 * (2 * r + 1)),
{
    let k = 2 * r + 1;
    let w = img.width as int;
    let rr = r as int;
    let line = row_line(img, 0, c);
    assert forall|i: int| 0 <= #[trigger] line(i) <= 255 by {
        let p = img.px(i, 0);
        assert(0 <= chan(p, c) <= 255);
    }
    lemma_clamped_sum_bounds(line, w, x - rr, x + rr);
    let s = clamped_sum(line, w, x - rr, x + rr);
    lemma_box_value_mean(s, k);
    let v = box_value(s, k) as int;
    let col = box_col_line(img, rr, x, c);
    assert(col(0) == v);
    lemma_clamped_sum_single(col, -rr, rr);
    assert(window_sum(col, 1, rr, 0) == k * v);
    assert(0 <= v <= 255);
    lemma_box_value_exact(v, k);
    let p = box_px(img, rr, x, 0);
    assert(chan(p, c) == box_value(window_sum(col, 1, rr, 0), k) as int);
}

} // verus!
