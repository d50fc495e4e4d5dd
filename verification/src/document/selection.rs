//! Selection state: a per-pixel mask (alpha = selection strength) plus a bounding box.

use vstd::prelude::*;
use crate::color::Rgba8;
use crate::pixel_buffer::{pixel_at, PixelBuffer, lemma_index_bounds};
use crate::tools::flood::{
    bounding_box, flood_reaches, flood_region, lemma_wand_miss, marked, lemma_wand_region, region_bounds, wand_hit,
};

verus! {

/// An axis-aligned rectangle: origin `(x, y)`, size `w * h`.
#[derive(Debug, Clone, Copy, PartialEq, Eq, Structural)]
pub struct Rect {
    pub x: i32,
    pub y: i32,
    pub w: i32,
    pub h: i32,
}

pub open spec fn min_i(a: int, b: int) -> int {
    if a <= b { a } else { b }
}

pub open spec fn abs_i(a: int) -> int {
    if a < 0 { -a } else { a }
}

impl Rect {
    /// The rectangle spanned by two corner points, in any order.
    pub fn from_points(x0: i32, y0: i32, x1: i32, y1: i32) -> (r: Rect)
        requires
            i32::MIN < x1 - x0 <= i32::MAX,
            i32::MIN < y1 - y0 <= i32::MAX,
        ensures
            r.x == min_i(x0 as int, x1 as int),
            r.y == min_i(y0 as int, y1 as int),
            r.w == abs_i(x1 - x0),
            r.h == abs_i(y1 - y0),
    {
        let x = if x0 <= x1 { x0 } else { x1 };
        let y = if y0 <= y1 { y0 } else { y1 };
        let dx = x1 - x0;
        let dy = y1 - y0;
        let w = if dx < 0 { -dx } else { dx };
        let h = if dy < 0 { -dy } else { dy };
        Rect { x, y, w, h }
    }

    /// `(px, py)` lies in the half-open box `x..x + w` by `y..y + h`.
    pub fn contains(&self, px: i32, py: i32) -> (b: bool)
        requires
            px >= self.x ==> i32::MIN <= self.x + self.w <= i32::MAX,
            px >= self.x && px < self.x + self.w && py >= self.y ==> i32::MIN <= self.y + self.h <= i32::MAX,
        ensures
            b == (self.x <= px < self.x + self.w && self.y <= py < self.y + self.h),
    {
        px >= self.x && px < self.x + self.w && py >= self.y && py < self.y + self.h
    }

    /// The origin moved to non-negative coordinates; the size is kept.
    pub fn normalized(&self) -> (r: Rect)
        ensures
            r == self.spec_normalized(),
    {
        Rect {
            x: if self.x < 0 { 0 } else { self.x },
            y: if self.y < 0 { 0 } else { self.y },
            w: self.w,
            h: self.h,
        }
    }

    pub open spec fn spec_normalized(&self) -> Rect {
        Rect { x: if self.x < 0 { 0 } else { self.x }, y: if self.y < 0 { 0 } else { self.y }, w: self.w, h: self.h }
    }
}

/// The same rectangle comes out whichever corner is given first.
pub proof fn law_from_points_symmetric(x0: i32, y0: i32, x1: i32, y1: i32)
    ensures
        min_i(x0 as int, x1 as int) == min_i(x1 as int, x0 as int),
        min_i(y0 as int, y1 as int) == min_i(y1 as int, y0 as int),
        abs_i(x1 - x0) == abs_i(x0 - x1),
        abs_i(y1 - y0) == abs_i(y0 - y1),
{
}

/// Flat index of `(x, y)` in rows of `w` pixels.
pub open spec fn flat(x: int, y: int, w: int) -> int {
    y * w + x
}

/// The normalized rectangle's far edges fit `i32`, and the flat index of its last pixel in
/// rows of `w` fits `u32`.
pub open spec fn rect_fits(r: Rect, w: int) -> bool {
    let n = r.spec_normalized();
    &&& n.y + r.h <= i32::MAX
    &&& n.x + r.w <= i32::MAX
    &&& r.w > 0 && r.h > 0 ==> flat(n.x + r.w - 1, n.y + r.h - 1, w) <= u32::MAX
}

/// The rectangle `from_points` spans between corners `a` and `b`.
pub open spec fn spanned(a: (i32, i32), b: (i32, i32)) -> Rect {
    Rect {
        x: min_i(a.0 as int, b.0 as int) as i32,
        y: min_i(a.1 as int, b.1 as int) as i32,
        w: abs_i(b.0 - a.0) as i32,
        h: abs_i(b.1 - a.1) as i32,
    }
}

/// Corners whose differences fit `i32`.
pub open spec fn span_ok(a: (i32, i32), b: (i32, i32)) -> bool {
    &&& i32::MIN < b.0 - a.0 <= i32::MAX
    &&& i32::MIN < b.1 - a.1 <= i32::MAX
}

/// Pixel `i` is covered by some `(x, y)` of the normalized rectangle, clipped to rows of `w`
/// pixels (columns at or past `w` select nothing).
pub open spec fn rect_hits(r: Rect, w: int, i: int) -> bool {
    let n = r.spec_normalized();
    exists|x: int, y: int|
        n.y <= y < n.y + n.h && n.x <= x < n.x + n.w && x < w && #[trigger] flat(x, y, w) == i
}

/// Pixel `(x, y)` of the rectangle `n` lies in its inscribed ellipse: with centre
/// `(n.x + n.w / 2, n.y + n.h / 2)` and radii `n.w / 2`, `n.h / 2`, the normalized distance
/// is at most one (both sides multiplied out by `4 * n.w² * n.h²`).
pub open spec fn in_ellipse(n: Rect, x: int, y: int) -> bool {
    let dx = 2 * (x - n.x) - n.w;
    let dy = 2 * (y - n.y) - n.h;
    dx * dx * (n.h * n.h) + dy * dy * (n.w * n.w) <= (n.w * n.w) * (n.h * n.h)
}

/// Whether flat pixel `i` ends up selected after the rows `n.y..y` of the ellipse sweep in
/// rows of `w` pixels: the last of those rows whose column span, clipped to the row, covers
/// `i` decides.
pub open spec fn ellipse_rows(n: Rect, w: int, i: int, y: int) -> bool
    decreases y - n.y,
{
    if y <= n.y {
        false
    } else if n.x <= i - (y - 1) * w < n.x + n.w && i - (y - 1) * w < w {
        in_ellipse(n, i - (y - 1) * w, y - 1)
    } else {
        ellipse_rows(n, w, i, y - 1)
    }
}

/// The same, part way through row `y`: columns `n.x..x` of it are done.
pub open spec fn ellipse_swept(n: Rect, w: int, i: int, y: int, x: int) -> bool {
    if n.x <= i - y * w < x && i - y * w < w {
        in_ellipse(n, i - y * w, y)
    } else {
        ellipse_rows(n, w, i, y)
    }
}

/// Pixel `i` is selected by the ellipse inscribed in the normalized rectangle `r`.
pub open spec fn ellipse_hits(r: Rect, w: int, i: int) -> bool {
    let n = r.spec_normalized();
    ellipse_rows(n, w, i, n.y + n.h)
}

/// The selection mask pixel for a selected or an unselected pixel.
pub open spec fn sel_px(on: bool) -> Rgba8 {
    Rgba8 { r: 0, g: 0, b: 0, a: if on { 255 } else { 0 } }
}

/// Mask bytes with every alpha byte `a` replaced by `255 - a`.
pub open spec fn inverted_alpha(b: Seq<u8>) -> Seq<u8> {
    Seq::new(b.len(), |k: int| if k % 4 == 3 { (255 - b[k]) as u8 } else { b[k] })
}

/// Inverting a selection twice gives back the mask it started from.
pub proof fn law_invert_twice(b: Seq<u8>)
    ensures
        inverted_alpha(inverted_alpha(b)) == b,
{
    assert(inverted_alpha(inverted_alpha(b)) =~= b);
}

/// Whether `(x, y)` of the rectangle `n` lies in its inscribed ellipse.
fn ellipse_contains(n: Rect, x: i32, y: i32) -> (b: bool)
    requires
        n.x <= x < n.x + n.w,
        n.y <= y < n.y + n.h,
    ensures
        b == in_ellipse(n, x as int, y as int),
{
    let w: i128 = n.w as i128;
    let h: i128 = n.h as i128;
    let dx: i128 = 2 * (x as i128 - n.x as i128) - w;
    let dy: i128 = 2 * (y as i128 - n.y as i128) - h;
    assert(0 < w < 0x8000_0000 && 0 < h < 0x8000_0000);
    assert(-w <= dx < w && -h <= dy < h);
    assert(0 <= dx * dx <= w * w) by (nonlinear_arith)
        requires -w <= dx <= w;
    assert(0 <= dy * dy <= h * h) by (nonlinear_arith)
        requires -h <= dy <= h;
    assert(w * w < 0x4000_0000_0000_0000) by (nonlinear_arith)
        requires 0 < w < 0x8000_0000;
    assert(h * h < 0x4000_0000_0000_0000) by (nonlinear_arith)
        requires 0 < h < 0x8000_0000;
    let ww: i128 = w * w;
    let hh: i128 = h * h;
    let ex: i128 = dx * dx;
    let ey: i128 = dy * dy;
    assert(ex * hh <= ww * hh) by (nonlinear_arith)
        requires 0 <= ex <= ww, 0 <= hh;
    assert(ey * ww <= ww * hh) by (nonlinear_arith)
        requires 0 <= ey <= hh, 0 <= ww;
    assert(0 <= ex * hh && 0 <= ey * ww) by (nonlinear_arith)
        requires 0 <= ex, 0 <= hh, 0 <= ey, 0 <= ww;
    assert(ww * hh < 0x1000_0000_0000_0000_0000_0000_0000_0000) by (nonlinear_arith)
        requires 0 <= ww < 0x4000_0000_0000_0000, 0 <= hh < 0x4000_0000_0000_0000;
    let lhs1: i128 = ex * hh;
    let lhs2: i128 = ey * ww;
    lhs1 + lhs2 <= ww * hh
}

/// Selection state: mask dimensions `width * height`, alpha = selection strength.
#[derive(Debug)]
pub struct Selection {
    pub width: u32,
    pub height: u32,
    pub mask: PixelBuffer,
    pub bounds: Option<Rect>,
}

impl Clone for Selection {
    fn clone(&self) -> (res: Self)
        ensures
            res.width == self.width,
            res.height == self.height,
            res.mask@ == self.mask@,
            res.bounds == self.bounds,
    {
        Selection { width: self.width, height: self.height, mask: self.mask.clone(), bounds: self.bounds }
    }
}

/// Pixel `i` was reached by the row-major sweep over columns `nx..x_end` that has finished
/// rows `ny..y` and columns `nx..x` of row `y`.
pub open spec fn swept(nx: int, x_end: int, ny: int, y: int, x: int, w: int, i: int) -> bool {
    exists|xx: int, yy: int|
        nx <= xx < x_end && xx < w && ((ny <= yy < y) || (yy == y && xx < x)) && #[trigger] flat(xx, yy, w) == i
}

impl Selection {
    pub open spec fn wf(&self) -> bool {
        &&& self.mask.wf()
        &&& self.mask.spec_width() == self.width
        &&& self.mask.spec_height() == self.height
    }

    /// Nothing selected.
    pub fn new(w: u32, h: u32) -> (s: Selection)
        requires
            w * h * 4 <= u32::MAX,
        ensures
            s.wf(),
            s.width == w,
            s.height == h,
            s.bounds is None,
            forall|i: int| 0 <= i < s.mask.bytes().len() ==> #[trigger] s.mask.bytes()[i] == 0,
    {
        Selection { width: w, height: h, mask: PixelBuffer::new(w, h), bounds: None }
    }

    /// New dimensions; the mask keeps its overlap and the bounds are dropped.
    pub fn resize(&mut self, w: u32, h: u32)
        requires
            old(self).wf(),
            w * h * 4 <= u32::MAX,
        ensures
            final(self).wf(),
            final(self).width == w,
            final(self).height == h,
            final(self).bounds is None,
            forall|x: int, y: int|
                final(self).mask.in_bounds(x, y) ==> #[trigger] final(self).mask.px(x, y) == (if old(
                    self,
                ).mask.in_bounds(x, y) {
                    old(self).mask.px(x, y)
                } else {
                    Rgba8 { r: 0, g: 0, b: 0, a: 0 }
                }),
    {
        self.width = w;
        self.height = h;
        self.mask.resize_canvas(w, h, Rgba8::transparent());
        self.bounds = None;
    }

    /// Deselects everything.
    pub fn clear(&mut self)
        requires
            old(self).wf(),
        ensures
            final(self).wf(),
            final(self).width == old(self).width,
            final(self).height == old(self).height,
            final(self).bounds is None,
            forall|x: int, y: int|
                final(self).mask.in_bounds(x, y) ==> #[trigger] final(self).mask.px(x, y) == sel_px(false),
    {
        self.mask.clear(Rgba8::transparent());
        self.bounds = None;
    }

    /// Selects exactly the pixels of the normalized rectangle `r` (hard edge), counting flat
    /// indices row by row; the bounds become `r` normalized.
    pub fn set_rect(&mut self, r: Rect)
        requires
            old(self).wf(),
            rect_fits(r, old(self).width as int),
        ensures
            final(self).wf(),
            final(self).width == old(self).width,
            final(self).height == old(self).height,
            final(self).bounds == Some(r.spec_normalized()),
            forall|i: int|
                0 <= i < final(self).width * final(self).height ==> #[trigger] pixel_at(
                    final(self).mask.bytes(),
                    i,
                ) == sel_px(rect_hits(r, old(self).width as int, i)),
    {
        self.mask.clear(Rgba8::transparent());
        let n = r.normalized();
        let wd = self.width;
        let npx: usize = (self.width * self.height) as usize;
        let y_end: i32 = n.y + n.h;
        let x_end: i32 = n.x + n.w;
        let mut y: i32 = n.y;
        while y < y_end
            invariant
                self.wf(),
                self.width == wd,
                self.height == old(self).height,
                npx == wd * self.height,
                n == r.spec_normalized(),
                y_end == n.y + n.h,
                x_end == n.x + n.w,
                n.y <= y,
                n.h > 0 ==> y <= y_end,
                n.h <= 0 ==> y == n.y,
                n.x >= 0,
                n.y >= 0,
                r.w > 0 && r.h > 0 ==> flat(n.x + r.w - 1, n.y + r.h - 1, wd as int) <= u32::MAX,
                forall|i: int|
                    0 <= i < npx ==> #[trigger] pixel_at(self.mask.bytes(), i) == sel_px(
                        swept(n.x as int, x_end as int, n.y as int, y as int, n.x as int, wd as int, i),
                    ),
            decreases y_end - y,
        {
            let mut x: i32 = n.x;
            while x < x_end
                invariant
                    self.wf(),
                    self.width == wd,
                    self.height == old(self).height,
                    npx == wd * self.height,
                    n == r.spec_normalized(),
                    y_end == n.y + n.h,
                    x_end == n.x + n.w,
                    n.y <= y < y_end,
                    n.x <= x,
                    n.x >= 0,
                    n.y >= 0,
                    r.w > 0 && r.h > 0 ==> flat(n.x + r.w - 1, n.y + r.h - 1, wd as int) <= u32::MAX,
                    forall|i: int|
                        0 <= i < npx ==> #[trigger] pixel_at(self.mask.bytes(), i) == sel_px(
                            swept(n.x as int, x_end as int, n.y as int, y as int, x as int, wd as int, i),
                        ),
                decreases x_end - x,
            {
                proof {
                    assert(flat(x as int, y as int, wd as int) <= flat(n.x + r.w - 1, n.y + r.h - 1, wd as int))
                        by (nonlinear_arith)
                        requires
                            0 <= x <= n.x + r.w - 1,
                            0 <= y <= n.y + r.h - 1,
                            wd >= 0;
                    assert(0 <= flat(x as int, y as int, wd as int)) by (nonlinear_arith)
                        requires 0 <= x, 0 <= y, wd >= 0;
                }
                let i: u32 = y as u32 * wd + x as u32;
                let ghost before = self.mask.bytes();
                let ghost nx = n.x as int;
                let ghost ny = n.y as int;
                let ghost xe = x_end as int;
                let hit = (x as u32) < wd && (i as usize) < npx;
                if hit {
                    self.mask.set_alpha_at(i as usize, 255u8);
                }
                proof {
                    assert(flat(x as int, y as int, wd as int) == i);
                    assert forall|j: int| 0 <= j < npx implies #[trigger] pixel_at(self.mask.bytes(), j) == sel_px(
                        swept(nx, xe, ny, y as int, x + 1, wd as int, j),
                    ) by {
                        assert(pixel_at(before, j) == sel_px(swept(nx, xe, ny, y as int, x as int, wd as int, j)));
                        if hit && j == i {
                            assert(swept(nx, xe, ny, y as int, x + 1, wd as int, j));
                        } else {
                            assert(pixel_at(self.mask.bytes(), j) == pixel_at(before, j));
                            if swept(nx, xe, ny, y as int, x + 1, wd as int, j) {
                                let (xx, yy) = choose|xx: int, yy: int|
                                    nx <= xx < xe && xx < wd && ((ny <= yy < y) || (yy == y && xx < x + 1))
                                        && #[trigger] flat(xx, yy, wd as int) == j;
                                assert(!(xx == x && yy == y));
                                assert(swept(nx, xe, ny, y as int, x as int, wd as int, j));
                            }
                            if swept(nx, xe, ny, y as int, x as int, wd as int, j) {
                                let (xx, yy) = choose|xx: int, yy: int|
                                    nx <= xx < xe && xx < wd && ((ny <= yy < y) || (yy == y && xx < x)) && #[trigger] flat(
                                        xx,
                                        yy,
                                        wd as int,
                                    ) == j;
                                assert(swept(nx, xe, ny, y as int, x + 1, wd as int, j));
                            }
                        }
                    }
                }
                x = x + 1;
            }
            y = y + 1;
        }
        proof {
            assert forall|i: int| 0 <= i < npx implies swept(
                n.x as int,
                x_end as int,
                n.y as int,
                y as int,
                n.x as int,
                wd as int,
                i,
            ) == rect_hits(r, wd as int, i) by {
                if rect_hits(r, wd as int, i) {
                    let (xx, yy) = choose|xx: int, yy: int|
                        n.y <= yy < n.y + n.h && n.x <= xx < n.x + n.w && xx < wd && #[trigger] flat(xx, yy, wd as int)
                            == i;
                    assert(swept(n.x as int, x_end as int, n.y as int, y as int, n.x as int, wd as int, i));
                }
                if swept(n.x as int, x_end as int, n.y as int, y as int, n.x as int, wd as int, i) {
                    let (xx, yy) = choose|xx: int, yy: int|
                        n.x <= xx < x_end && xx < wd && ((n.y <= yy < y) || (yy == y && xx < n.x)) && #[trigger] flat(
                            xx,
                            yy,
                            wd as int,
                        ) == i;
                    assert(rect_hits(r, wd as int, i));
                }
            }
        }
        self.bounds = Some(n);
    }

    /// Selects exactly the pixels of the ellipse inscribed in the normalized rectangle `r`
    /// (hard edge): the rectangle is swept row by row, each pixel's mask alpha set to 255 inside
    /// the ellipse and 0 outside; the bounds become `r` normalized.
    pub fn set_ellipse(&mut self, r: Rect)
        requires
            old(self).wf(),
            rect_fits(r, old(self).width as int),
        ensures
            final(self).wf(),
            final(self).width == old(self).width,
            final(self).height == old(self).height,
            final(self).bounds == Some(r.spec_normalized()),
            forall|i: int|
                0 <= i < final(self).width * final(self).height ==> #[trigger] pixel_at(
                    final(self).mask.bytes(),
                    i,
                ) == sel_px(ellipse_hits(r, old(self).width as int, i)),
    {
        self.mask.clear(Rgba8::transparent());
        let n = r.normalized();
        let wd = self.width;
        let npx: usize = (self.width * self.height) as usize;
        let y_end: i32 = n.y + n.h;
        let x_end: i32 = n.x + n.w;
        let ghost ww = wd as int;
        let mut y: i32 = n.y;
        while y < y_end
            invariant
                self.wf(),
                self.width == wd,
                ww == wd,
                self.height == old(self).height,
                npx == wd * self.height,
                n == r.spec_normalized(),
                y_end == n.y + n.h,
                x_end == n.x + n.w,
                n.y <= y,
                n.h > 0 ==> y <= y_end,
                n.h <= 0 ==> y == n.y,
                n.x >= 0,
                n.y >= 0,
                r.w > 0 && r.h > 0 ==> flat(n.x + r.w - 1, n.y + r.h - 1, wd as int) <= u32::MAX,
                forall|i: int|
                    0 <= i < npx ==> #[trigger] pixel_at(self.mask.bytes(), i) == sel_px(
                        ellipse_rows(n, ww, i, y as int),
                    ),
            decreases y_end - y,
        {
            let mut x: i32 = n.x;
            proof {
                assert forall|i: int| 0 <= i < npx implies ellipse_swept(n, ww, i, y as int, x as int) == ellipse_rows(
                    n,
                    ww,
                    i,
                    y as int,
                ) by {}
            }
            while x < x_end
                invariant
                    self.wf(),
                    self.width == wd,
                    ww == wd,
                    self.height == old(self).height,
                    npx == wd * self.height,
                    n == r.spec_normalized(),
                    y_end == n.y + n.h,
                    x_end == n.x + n.w,
                    n.y <= y < y_end,
                    n.x <= x,
                    n.w > 0 ==> x <= x_end,
                    n.w <= 0 ==> x == n.x,
                    n.x >= 0,
                    n.y >= 0,
                    r.w > 0 && r.h > 0 ==> flat(n.x + r.w - 1, n.y + r.h - 1, wd as int) <= u32::MAX,
                    forall|i: int|
                        0 <= i < npx ==> #[trigger] pixel_at(self.mask.bytes(), i) == sel_px(
                            ellipse_swept(n, ww, i, y as int, x as int),
                        ),
                decreases x_end - x,
            {
                proof {
                    assert(flat(x as int, y as int, wd as int) <= flat(n.x + r.w - 1, n.y + r.h - 1, wd as int))
                        by (nonlinear_arith)
                        requires
                            0 <= x <= n.x + r.w - 1,
                            0 <= y <= n.y + r.h - 1,
                            wd >= 0;
                    assert(0 <= flat(x as int, y as int, wd as int)) by (nonlinear_arith)
                        requires 0 <= x, 0 <= y, wd >= 0;
                }
                let inside = ellipse_contains(n, x, y);
                let i: u32 = y as u32 * wd + x as u32;
                let ghost before = self.mask.bytes();
                if (x as u32) < wd && (i as usize) < npx {
                    self.mask.set_alpha_at(i as usize, if inside { 255u8 } else { 0u8 });
                }
                proof {
                    assert(flat(x as int, y as int, wd as int) == i);
                    assert forall|j: int| 0 <= j < npx implies #[trigger] pixel_at(self.mask.bytes(), j) == sel_px(
                        ellipse_swept(n, ww, j, y as int, x + 1),
                    ) by {
                        assert(pixel_at(before, j) == sel_px(ellipse_swept(n, ww, j, y as int, x as int)));
                        if j != i || x >= wd {
                            assert(pixel_at(self.mask.bytes(), j) == pixel_at(before, j));
                        }
                    }
                }
                x = x + 1;
            }
            proof {
                assert forall|i: int| 0 <= i < npx implies ellipse_swept(n, ww, i, y as int, x as int) == ellipse_rows(
                    n,
                    ww,
                    i,
                    y + 1,
                ) by {
                    assert((y + 1 - 1) * ww == y * ww);
                    assert(y + 1 > n.y);
                    if n.w > 0 {
                        assert(x == x_end);
                    }
                }
            }
            y = y + 1;
        }
        self.bounds = Some(n);
    }

    /// Magic wand: selects the pixels that a flood from `(x, y)` over `buf` reaches, each
    /// channel within `tolerance` of the clicked colour, and sets the bounds to their bounding
    /// rectangle. A click outside `buf` clears the mask and the bounds.
    pub fn magic_wand(&mut self, buf: &PixelBuffer, x: i32, y: i32, tolerance: u8)
        requires
            old(self).wf(),
            buf.wf(),
            buf.in_bounds(x as int, y as int) ==> buf.spec_width() * buf.spec_height() <= old(self).width * old(
                self,
            ).height,
        ensures
            final(self).wf(),
            final(self).width == old(self).width,
            final(self).height == old(self).height,
            !buf.in_bounds(x as int, y as int) ==> final(self).bounds is None,
            forall|i: int|
                0 <= i < final(self).width * final(self).height ==> #[trigger] pixel_at(final(self).mask.bytes(), i)
                    == sel_px(wand_hit(buf@, (x as int, y as int), tolerance as int, i)),
            buf.in_bounds(x as int, y as int) ==> (final(self).bounds matches Some(b) && bounding_box(
                |q: (int, int)| buf.in_bounds(q.0, q.1) && flood_reaches(buf@, (x as int, y as int), tolerance as int, false, q),
                b,
            )),
    {
        self.mask.clear(Rgba8::transparent());
        let bw = buf.width();
        let bh = buf.height();
        let ghost img = buf@;
        let ghost s: (int, int) = (x as int, y as int);
        let ghost tl: int = tolerance as int;
        let ghost npx: int = self.width * self.height;
        if x < 0 || y < 0 || x as i64 >= bw as i64 || y as i64 >= bh as i64 {
            proof {
                lemma_wand_miss(img, s, tl);
            }
            self.bounds = None;
            return;
        }
        let region = flood_region(buf, x, y, tolerance, false);
        let n: usize = (bw * bh) as usize;
        proof {
            assert(bw <= 0x4000_0000) by (nonlinear_arith)
                requires bw * bh * 4 <= 0xffff_ffff, bh >= 1;
            assert(bh <= 0x4000_0000) by (nonlinear_arith)
                requires bw * bh * 4 <= 0xffff_ffff, bw >= 1;
        }
        let mut i: usize = 0;
        while i < n
            invariant
                self.wf(),
                self.width == old(self).width,
                self.height == old(self).height,
                npx == self.width * self.height,
                n == bw * bh,
                n <= npx,
                region@.len() == n,
                i <= n,
                forall|j: int|
                    0 <= j < npx ==> #[trigger] pixel_at(self.mask.bytes(), j) == sel_px(j < i && region@[j]),
            decreases n - i,
        {
            let ghost before = self.mask.bytes();
            if region[i] {
                self.mask.set_alpha_at(i, 255u8);
                proof {
                    assert forall|j: int| 0 <= j < npx implies #[trigger] pixel_at(self.mask.bytes(), j) == sel_px(
                        j < i + 1 && region@[j],
                    ) by {
                        assert(pixel_at(before, j) == sel_px(j < i && region@[j]));
                    }
                }
            } else {
                proof {
                    assert forall|j: int| 0 <= j < npx implies #[trigger] pixel_at(self.mask.bytes(), j) == sel_px(
                        j < i + 1 && region@[j],
                    ) by {
                        assert(pixel_at(before, j) == sel_px(j < i && region@[j]));
                    }
                }
            }
            i = i + 1;
        }
        proof {
            lemma_wand_region(img, s, tl, region@);
        }
        if let Some(b) = region_bounds(&region, bw, bh) {
            proof {
                assert((|q: (int, int)| marked(region@, bw as int, bh as int, q)) =~= (|q: (int, int)|
                    buf.in_bounds(q.0, q.1) && flood_reaches(buf@, (x as int, y as int), tolerance as int, false, q)));
            }
            self.bounds = Some(b);
        }
    }

    /// Flips the selection strength of every pixel: alpha becomes `255 - alpha`.
    pub fn invert(&mut self)
        requires
            old(self).wf(),
        ensures
            final(self).wf(),
            final(self).width == old(self).width,
            final(self).height == old(self).height,
            final(self).bounds == old(self).bounds,
            final(self).mask.bytes() == inverted_alpha(old(self).mask.bytes()),
    {
        let ghost b0 = self.mask.bytes();
        let npx: usize = (self.width * self.height) as usize;
        let mut i: usize = 0;
        while i < npx
            invariant
                self.wf(),
                self.width == old(self).width,
                self.height == old(self).height,
                self.bounds == old(self).bounds,
                npx == self.width * self.height,
                b0.len() == npx * 4,
                i <= npx,
                self.mask.bytes().len() == b0.len(),
                forall|k: int|
                    0 <= k < b0.len() ==> #[trigger] self.mask.bytes()[k] == (if k < 4 * i && k % 4 == 3 {
                        (255 - b0[k]) as u8
                    } else {
                        b0[k]
                    }),
            decreases npx - i,
        {
            let a = self.mask.alpha_at(i);
            self.mask.set_alpha_at(i, 255 - a);
            i = i + 1;
        }
        assert(self.mask.bytes() =~= inverted_alpha(b0));
    }

    /// Pixel `idx` is selected at least half way; indices past the mask count as selected.
    pub fn is_selected_alpha(&self, idx: usize) -> (b: bool)
        requires
            idx * 4 + 3 <= usize::MAX,
        ensures
            b == (if idx * 4 + 3 < self.mask.bytes().len() {
                self.mask.bytes()[idx * 4 + 3] >= 128
            } else {
                true
            }),
    {
        let buf = self.mask.as_slice();
        let k = idx * 4 + 3;
        if k < buf.len() {
            buf[k] >= 128
        } else {
            true
        }
    }
}

} // verus!
