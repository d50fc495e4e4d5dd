//! Shape tools: rectangle outline and straight line (Bresenham), drawn in one colour.

use vstd::prelude::*;
use crate::color::Rgba8;
use crate::pixel_buffer::PixelBuffer;
use crate::tools::{PointerEvent, ToolState, drag_done, drag_step};

verus! {

/// Writes `color` at `(x, y)` when that lies inside the layer.
pub fn plot(layer: &mut PixelBuffer, x: i32, y: i32, color: Rgba8)
    requires
        old(layer).wf(),
    ensures
        final(layer).wf(),
        final(layer).spec_width() == old(layer).spec_width(),
        final(layer).spec_height() == old(layer).spec_height(),
        forall|x2: int, y2: int|
            final(layer).in_bounds(x2, y2) ==> #[trigger] final(layer).px(x2, y2) == (if x2 == x && y2 == y {
                color
            } else {
                old(layer).px(x2, y2)
            }),
{
    if x < 0 || y < 0 || x as i64 >= layer.width() as i64 || y as i64 >= layer.height() as i64 {
        return;
    }
    layer.set_pixel(x as u32, y as u32, color);
}

/// `(x, y)` lies on the outline of the box with corners `(x0, y0)` and `(x1, y1)`.
pub open spec fn on_outline(x0: int, y0: int, x1: int, y1: int, x: int, y: int) -> bool {
    ||| (x0 <= x <= x1 && (y == y0 || y == y1))
    ||| (y0 <= y <= y1 && (x == x0 || x == x1))
}

/// Draws the one-pixel outline of the box `x0..=x1` by `y0..=y1` in `color`.
pub fn draw_rect_outline(layer: &mut PixelBuffer, x0: i32, y0: i32, x1: i32, y1: i32, color: Rgba8)
    requires
        old(layer).wf(),
    ensures
        final(layer).wf(),
        final(layer).spec_width() == old(layer).spec_width(),
        final(layer).spec_height() == old(layer).spec_height(),
        forall|x: int, y: int|
            final(layer).in_bounds(x, y) ==> #[trigger] final(layer).px(x, y) == (if on_outline(
                x0 as int,
                y0 as int,
                x1 as int,
                y1 as int,
                x,
                y,
            ) {
                color
            } else {
                old(layer).px(x, y)
            }),
{
    let ghost img0 = layer@;
    let mut x: i64 = x0 as i64;
    while x <= x1 as i64
        invariant
            layer.wf(),
            layer.spec_width() == img0.width,
            layer.spec_height() == img0.height,
            x0 <= x <= x1 + 1 || (x == x0 && x0 > x1),
            forall|xx: int, yy: int|
                layer.in_bounds(xx, yy) ==> #[trigger] layer.px(xx, yy) == (if x0 <= xx < x && (yy == y0 || yy
                    == y1) {
                    color
                } else {
                    img0.px(xx, yy)
                }),
        decreases x1 + 1 - x,
    {
        plot(layer, x as i32, y0, color);
        plot(layer, x as i32, y1, color);
        x = x + 1;
    }
    let mut y: i64 = y0 as i64;
    while y <= y1 as i64
        invariant
            layer.wf(),
            layer.spec_width() == img0.width,
            layer.spec_height() == img0.height,
            y0 <= y <= y1 + 1 || (y == y0 && y0 > y1),
            forall|xx: int, yy: int|
                layer.in_bounds(xx, yy) ==> #[trigger] layer.px(xx, yy) == (if (x0 <= xx <= x1 && (yy == y0 || yy
                    == y1)) || (y0 <= yy < y && (xx == x0 || xx == x1)) {
                    color
                } else {
                    img0.px(xx, yy)
                }),
        decreases y1 + 1 - y,
    {
        plot(layer, x0, y as i32, color);
        plot(layer, x1, y as i32, color);
        y = y + 1;
    }
}

pub open spec fn iabs(v: int) -> int {
    if v < 0 { -v } else { v }
}

/// The Bresenham walk from `(x, y)` with error term `err` towards `(x1, y1)`, for at most `n`
/// more steps: every point it visits, in order.
pub open spec fn line_walk(
    x: int,
    y: int,
    err: int,
    x1: int,
    y1: int,
    dx: int,
    dy: int,
    sx: int,
    sy: int,
    n: nat,
) -> Seq<(int, int)>
    decreases n,
{
    if (x == x1 && y == y1) || n == 0 {
        seq![(x, y)]
    } else {
        let e2 = 2 * err;
        let err1 = if e2 >= dy { err + dy } else { err };
        let xn = if e2 >= dy { x + sx } else { x };
        let err2 = if e2 <= dx { err1 + dx } else { err1 };
        let yn = if e2 <= dx { y + sy } else { y };
        seq![(x, y)] + line_walk(xn, yn, err2, x1, y1, dx, dy, sx, sy, (n - 1) as nat)
    }
}

/// The pixels of the line from `(x0, y0)` to `(x1, y1)`.
pub open spec fn line_points(x0: int, y0: int, x1: int, y1: int) -> Seq<(int, int)> {
    let dx = iabs(x1 - x0);
    let dy = -iabs(y1 - y0);
    line_walk(
        x0,
        y0,
        dx + dy,
        x1,
        y1,
        dx,
        dy,
        if x0 < x1 { 1 } else { -1 },
        if y0 < y1 { 1 } else { -1 },
        (dx - dy) as nat,
    )
}

/// One Bresenham step stays within the segment and makes progress.
proof fn lemma_line_step(a: int, b: int, px: int, py: int, err: int)
    requires
        0 <= px <= a,
        0 <= py <= b,
        err == (1 + py) * a - (1 + px) * b,
        !(px == a && py == b),
    ensures
        2 * err >= -b || 2 * err <= a,
        2 * err >= -b ==> px < a,
        2 * err <= a ==> py < b,
        err - b == (1 + py) * a - (1 + (px + 1)) * b,
        err + a == (1 + (py + 1)) * a - (1 + px) * b,
        err - b + a == (1 + (py + 1)) * a - (1 + (px + 1)) * b,
{
    assert(err - b == (1 + py) * a - (1 + (px + 1)) * b) by (nonlinear_arith)
        requires err == (1 + py) * a - (1 + px) * b;
    assert(err + a == (1 + (py + 1)) * a - (1 + px) * b) by (nonlinear_arith)
        requires err == (1 + py) * a - (1 + px) * b;
    if 2 * err >= -b && px == a {
        assert(false) by (nonlinear_arith)
            requires
                err == (1 + py) * a - (1 + px) * b,
                px == a,
                py < b,
                0 <= py,
                2 * err >= -b,
                a >= 0;
    }
    if 2 * err <= a && py == b {
        assert(false) by (nonlinear_arith)
            requires
                err == (1 + py) * a - (1 + px) * b,
                py == b,
                px < a,
                0 <= px,
                2 * err <= a,
                b >= 0;
    }
}

/// `v` lies in the range of `i32`.
pub open spec fn fits_i32(v: int) -> bool {
    i32::MIN <= v <= i32::MAX
}

/// Along the walk (as `line_walk` takes it), the doubled error term and both updated error
/// terms of every step fit `i32`.
pub open spec fn walk_fits(
    x: int,
    y: int,
    err: int,
    x1: int,
    y1: int,
    dx: int,
    dy: int,
    sx: int,
    sy: int,
    n: nat,
) -> bool
    decreases n,
{
    if (x == x1 && y == y1) || n == 0 {
        true
    } else {
        let e2 = 2 * err;
        let err1 = if e2 >= dy { err + dy } else { err };
        let xn = if e2 >= dy { x + sx } else { x };
        let err2 = if e2 <= dx { err1 + dx } else { err1 };
        let yn = if e2 <= dx { y + sy } else { y };
        &&& fits_i32(e2)
        &&& fits_i32(err1)
        &&& fits_i32(err2)
        &&& walk_fits(xn, yn, err2, x1, y1, dx, dy, sx, sy, (n - 1) as nat)
    }
}

/// The line from `(x0, y0)` to `(x1, y1)` can be drawn in `i32` arithmetic: both coordinate
/// differences and their absolute values fit, and so does every error term of the walk.
pub open spec fn line_fits(x0: int, y0: int, x1: int, y1: int) -> bool {
    let dx = iabs(x1 - x0);
    let dy = -iabs(y1 - y0);
    &&& fits_i32(x1 - x0)
    &&& fits_i32(y1 - y0)
    &&& fits_i32(dx)
    &&& fits_i32(dy)
    &&& walk_fits(
        x0,
        y0,
        dx + dy,
        x1,
        y1,
        dx,
        dy,
        if x0 < x1 { 1 } else { -1 },
        if y0 < y1 { 1 } else { -1 },
        (dx - dy) as nat,
    )
}

/// Whether the line from `(x0, y0)` to `(x1, y1)` can be drawn in `i32` arithmetic.
pub fn line_fits_exec(x0: i32, y0: i32, x1: i32, y1: i32) -> (ok: bool)
    ensures
        ok == line_fits(x0 as int, y0 as int, x1 as int, y1 as int),
{
    let ddx: i64 = x1 as i64 - x0 as i64;
    let ddy: i64 = y1 as i64 - y0 as i64;
    let dx: i64 = if ddx < 0 { -ddx } else { ddx };
    let dy: i64 = -(if ddy < 0 { -ddy } else { ddy });
    let lo: i64 = i32::MIN as i64;
    let hi: i64 = i32::MAX as i64;
    if ddx < lo || ddx > hi || ddy < lo || ddy > hi || dx > hi || dy < lo {
        return false;
    }
    let sx: i64 = if x0 < x1 { 1 } else { -1 };
    let sy: i64 = if y0 < y1 { 1 } else { -1 };
    let mut err: i64 = dx + dy;
    let mut x: i64 = x0 as i64;
    let mut y: i64 = y0 as i64;
    let mut fuel: u64 = (dx - dy) as u64;
    let ghost n0: int = fuel as int;
    let ghost target = walk_fits(
        x0 as int,
        y0 as int,
        dx + dy,
        x1 as int,
        y1 as int,
        dx as int,
        dy as int,
        sx as int,
        sy as int,
        n0 as nat,
    );
    loop
        invariant
            lo == i32::MIN,
            hi == i32::MAX,
            0 <= dx <= 0x8000_0000,
            -0x8000_0000 <= dy <= 0,
            sx == 1 || sx == -1,
            sy == 1 || sy == -1,
            fuel <= n0,
            n0 <= 0x1_0000_0000,
            x0 - (n0 - fuel) <= x <= x0 + (n0 - fuel),
            y0 - (n0 - fuel) <= y <= y0 + (n0 - fuel),
            -dx + 3 * dy <= 2 * err <= 3 * dx - dy,
            target == walk_fits(
                x as int,
                y as int,
                err as int,
                x1 as int,
                y1 as int,
                dx as int,
                dy as int,
                sx as int,
                sy as int,
                fuel as nat,
            ),
            target == line_fits(x0 as int, y0 as int, x1 as int, y1 as int),
        decreases fuel,
    {
        if (x == x1 as i64 && y == y1 as i64) || fuel == 0 {
            return true;
        }
        let ghost ox = x as int;
        let ghost oy = y as int;
        let ghost oe = err as int;
        let ghost of = fuel as nat;
        let e2: i64 = 2 * err;
        let err1: i64 = if e2 >= dy { err + dy } else { err };
        let err2: i64 = if e2 <= dx { err1 + dx } else { err1 };
        if e2 < lo || e2 > hi || err1 < lo || err1 > hi || err2 < lo || err2 > hi {
            return false;
        }
        if e2 >= dy {
            x = x + sx;
        }
        if e2 <= dx {
            y = y + sy;
        }
        proof {
            let e = err as int;
            let a = dx as int;
            let b = -dy as int;
            if 2 * e >= -b && 2 * e <= a {
                assert(err2 == e - b + a);
            } else if 2 * e >= -b {
                assert(err2 == e - b);
            } else {
                assert(2 * e <= a);
                assert(err2 == e + a);
            }
        }
        err = err2;
        fuel = fuel - 1;
        assert(walk_fits(ox, oy, oe, x1 as int, y1 as int, dx as int, dy as int, sx as int, sy as int, of)
            == walk_fits(
            x as int,
            y as int,
            err as int,
            x1 as int,
            y1 as int,
            dx as int,
            dy as int,
            sx as int,
            sy as int,
            fuel as nat,
        ));
    }
}

/// Draws the Bresenham line from `(x0, y0)` to `(x1, y1)` in `color`; points outside the layer
/// are skipped.
pub fn draw_line(layer: &mut PixelBuffer, x0: i32, y0: i32, x1: i32, y1: i32, color: Rgba8)
    requires
        old(layer).wf(),
        line_fits(x0 as int, y0 as int, x1 as int, y1 as int),
    ensures
        final(layer).wf(),
        final(layer).spec_width() == old(layer).spec_width(),
        final(layer).spec_height() == old(layer).spec_height(),
        forall|x: int, y: int|
            final(layer).in_bounds(x, y) ==> #[trigger] final(layer).px(x, y) == (if line_points(
                x0 as int,
                y0 as int,
                x1 as int,
                y1 as int,
            ).contains((x, y)) {
                color
            } else {
                old(layer).px(x, y)
            }),
{
    let ghost img0 = layer@;
    let dx: i64 = if x1 >= x0 { x1 as i64 - x0 as i64 } else { x0 as i64 - x1 as i64 };
    let dy: i64 = -(if y1 >= y0 { y1 as i64 - y0 as i64 } else { y0 as i64 - y1 as i64 });
    let sx: i64 = if x0 < x1 { 1 } else { -1 };
    let sy: i64 = if y0 < y1 { 1 } else { -1 };
    let mut err: i64 = dx + dy;
    let mut x: i64 = x0 as i64;
    let mut y: i64 = y0 as i64;
    let ghost a: int = dx as int;
    let ghost b: int = -dy;
    let ghost mut px: int = 0;
    let ghost mut py: int = 0;
    let ghost all = line_points(x0 as int, y0 as int, x1 as int, y1 as int);
    let ghost mut done: Seq<(int, int)> = Seq::empty();
    let ghost mut fuel: nat = (a + b) as nat;
    assert(err == (1 + py) * a - (1 + px) * b) by (nonlinear_arith)
        requires err == a - b, px == 0, py == 0;
    loop
        invariant_except_break
            all == done + line_walk(
                x as int,
                y as int,
                err as int,
                x1 as int,
                y1 as int,
                dx as int,
                dy as int,
                sx as int,
                sy as int,
                fuel,
            ),
            fuel >= a + b - px - py,
        invariant
            layer.wf(),
            layer.spec_width() == img0.width,
            layer.spec_height() == img0.height,
            a == dx,
            b == -dy,
            0 <= a <= 0x1_0000_0000,
            0 <= b <= 0x1_0000_0000,
            -a - 3 * b <= 2 * err <= 3 * a + b,
            0 <= px <= a,
            0 <= py <= b,
            x == (if x0 < x1 { x0 + px } else { x0 - px }),
            y == (if y0 < y1 { y0 + py } else { y0 - py }),
            sx == (if x0 < x1 { 1int } else { -1int }),
            sy == (if y0 < y1 { 1int } else { -1int }),
            x1 == (if x0 < x1 { x0 + a } else { x0 - a }),
            y1 == (if y0 < y1 { y0 + b } else { y0 - b }),
            err == (1 + py) * a - (1 + px) * b,
            all == line_points(x0 as int, y0 as int, x1 as int, y1 as int),
            forall|xx: int, yy: int|
                layer.in_bounds(xx, yy) ==> #[trigger] layer.px(xx, yy) == (if done.contains((xx, yy)) {
                    color
                } else {
                    img0.px(xx, yy)
                }),
        ensures
            layer.wf(),
            layer.spec_width() == img0.width,
            layer.spec_height() == img0.height,
            forall|xx: int, yy: int|
                layer.in_bounds(xx, yy) ==> #[trigger] layer.px(xx, yy) == (if all.contains((xx, yy)) {
                    color
                } else {
                    img0.px(xx, yy)
                }),
        decreases fuel,
    {
        let ghost before = layer@;
        plot(layer, x as i32, y as i32, color);
        let ghost walk = line_walk(
            x as int,
            y as int,
            err as int,
            x1 as int,
            y1 as int,
            dx as int,
            dy as int,
            sx as int,
            sy as int,
            fuel,
        );
        let ghost xo = x as int;
        let ghost yo = y as int;
        proof {
            let d2 = done.push((x as int, y as int));
            assert forall|xx: int, yy: int| layer.in_bounds(xx, yy) implies #[trigger] layer.px(xx, yy) == (if d2.contains(
                (xx, yy),
            ) {
                color
            } else {
                img0.px(xx, yy)
            }) by {
                if xx == x && yy == y {
                    assert(d2[d2.len() - 1] == (xx, yy));
                } else {
                    assert(layer.px(xx, yy) == before.px(xx, yy));
                    if done.contains((xx, yy)) {
                        let k = choose|k: int| 0 <= k < done.len() && done[k] == (xx, yy);
                        assert(d2[k] == (xx, yy));
                    }
                    if d2.contains((xx, yy)) {
                        let k = choose|k: int| 0 <= k < d2.len() && d2[k] == (xx, yy);
                        assert(done[k] == (xx, yy));
                    }
                }
            }
            done = d2;
        }
        if x == x1 as i64 && y == y1 as i64 {
            proof {
                assert(walk == seq![(x as int, y as int)]);
                assert(all =~= done);
            }
            break;
        }
        proof {
            if px == a && py == b {
                assert(x == x1 && y == y1);
            }
            lemma_line_step(a, b, px, py, err as int);
        }
        let e2: i64 = 2 * err;
        if e2 >= dy {
            err = err + dy;
            x = x + sx;
            proof {
                px = px + 1;
            }
        }
        if e2 <= dx {
            err = err + dx;
            y = y + sy;
            proof {
                py = py + 1;
            }
        }
        proof {
            assert(walk == seq![(xo, yo)] + line_walk(
                x as int,
                y as int,
                err as int,
                x1 as int,
                y1 as int,
                dx as int,
                dy as int,
                sx as int,
                sy as int,
                (fuel - 1) as nat,
            ));
            assert(done.last() == (xo, yo));
            assert(all =~= done + line_walk(
                x as int,
                y as int,
                err as int,
                x1 as int,
                y1 as int,
                dx as int,
                dy as int,
                sx as int,
                sy as int,
                (fuel - 1) as nat,
            ));
            fuel = (fuel - 1) as nat;
        }
    }
}

/// Consecutive points are 8-neighbours: each coordinate moves by at most one.
pub open spec fn steps_adjacent(pts: Seq<(int, int)>) -> bool {
    forall|k: int|
        0 <= k < pts.len() - 1 ==> iabs(#[trigger] pts[k].0 - pts[k + 1].0) <= 1 && iabs(pts[k].1 - pts[k + 1].1) <= 1
}

proof fn lemma_walk_shape(
    x0: int,
    y0: int,
    x1: int,
    y1: int,
    a: int,
    b: int,
    px: int,
    py: int,
    err: int,
    fuel: nat,
)
    requires
        0 <= px <= a,
        0 <= py <= b,
        x1 == (if x0 < x1 { x0 + a } else { x0 - a }),
        y1 == (if y0 < y1 { y0 + b } else { y0 - b }),
        err == (1 + py) * a - (1 + px) * b,
        fuel >= a + b - px - py,
    ensures
        ({
            let w = line_walk(
                if x0 < x1 { x0 + px } else { x0 - px },
                if y0 < y1 { y0 + py } else { y0 - py },
                err,
                x1,
                y1,
                a,
                -b,
                if x0 < x1 { 1 } else { -1 },
                if y0 < y1 { 1 } else { -1 },
                fuel,
            );
            &&& w.len() >= 1
            &&& w[0] == (if x0 < x1 { x0 + px } else { x0 - px }, if y0 < y1 { y0 + py } else { y0 - py })
            &&& w.last() == (x1, y1)
            &&& steps_adjacent(w)
        }),
    decreases fuel,
{
    let x = if x0 < x1 { x0 + px } else { x0 - px };
    let y = if y0 < y1 { y0 + py } else { y0 - py };
    if x == x1 && y == y1 {
    } else {
        assert(!(px == a && py == b));
        lemma_line_step(a, b, px, py, err);
        let e2 = 2 * err;
        let npx = if e2 >= -b { px + 1 } else { px };
        let npy = if e2 <= a { py + 1 } else { py };
        let nerr = err + (if e2 >= -b { -b } else { 0 }) + (if e2 <= a { a } else { 0 });
        lemma_walk_shape(x0, y0, x1, y1, a, b, npx, npy, nerr, (fuel - 1) as nat);
        let sx = if x0 < x1 { 1int } else { -1int };
        let sy = if y0 < y1 { 1int } else { -1int };
        let rest = line_walk(
            if x0 < x1 { x0 + npx } else { x0 - npx },
            if y0 < y1 { y0 + npy } else { y0 - npy },
            nerr,
            x1,
            y1,
            a,
            -b,
            sx,
            sy,
            (fuel - 1) as nat,
        );
        let w = line_walk(x, y, err, x1, y1, a, -b, sx, sy, fuel);
        assert(w == seq![(x, y)] + rest);
        assert forall|k: int| 0 <= k < w.len() - 1 implies iabs(#[trigger] w[k].0 - w[k + 1].0) <= 1 && iabs(
            w[k].1 - w[k + 1].1,
        ) <= 1 by {
            if k > 0 {
                assert(w[k] == rest[k - 1]);
                assert(w[k + 1] == rest[k]);
            }
        }
    }
}

/// A line starts at its first end point, finishes at the other, and every step moves to one of
/// the eight neighbouring pixels.
pub proof fn law_line_connects(x0: int, y0: int, x1: int, y1: int)
    ensures
        line_points(x0, y0, x1, y1).len() >= 1,
        line_points(x0, y0, x1, y1)[0] == (x0, y0),
        line_points(x0, y0, x1, y1).last() == (x1, y1),
        steps_adjacent(line_points(x0, y0, x1, y1)),
{
    let a = iabs(x1 - x0);
    let b = iabs(y1 - y0);
    assert(a - b == (1 + 0) * a - (1 + 0) * b) by (nonlinear_arith);
    lemma_walk_shape(x0, y0, x1, y1, a, b, 0, 0, a - b, (a + b) as nat);
}

/// The shape-rectangle tool: on release, outlines the box spanned by the drag in `fg`.
pub fn pointer_rect(layer: &mut PixelBuffer, state: &mut ToolState, pt: (i32, i32), ev: PointerEvent, fg: Rgba8)
    requires
        old(layer).wf(),
    ensures
        final(layer).wf(),
        final(layer).spec_width() == old(layer).spec_width(),
        final(layer).spec_height() == old(layer).spec_height(),
        *final(state) == drag_step(*old(state), pt, ev),
        drag_done(*old(state), pt, ev) is None ==> final(layer)@ == old(layer)@,
        drag_done(*old(state), pt, ev) matches Some((a, b)) ==> forall|x: int, y: int|
            final(layer).in_bounds(x, y) ==> #[trigger] final(layer).px(x, y) == (if on_outline(
                if a.0 <= b.0 { a.0 as int } else { b.0 as int },
                if a.1 <= b.1 { a.1 as int } else { b.1 as int },
                if a.0 <= b.0 { b.0 as int } else { a.0 as int },
                if a.1 <= b.1 { b.1 as int } else { a.1 as int },
                x,
                y,
            ) {
                fg
            } else {
                old(layer).px(x, y)
            }),
{
    if let Some((a, b)) = state.track_drag(pt, ev) {
        let x0 = if a.0 <= b.0 { a.0 } else { b.0 };
        let y0 = if a.1 <= b.1 { a.1 } else { b.1 };
        let x1 = if a.0 <= b.0 { b.0 } else { a.0 };
        let y1 = if a.1 <= b.1 { b.1 } else { a.1 };
        draw_rect_outline(layer, x0, y0, x1, y1, fg);
    }
}

/// The line tool: on release, draws the line along the drag in `fg`.
pub fn pointer_line(layer: &mut PixelBuffer, state: &mut ToolState, pt: (i32, i32), ev: PointerEvent, fg: Rgba8)
    requires
        old(layer).wf(),
        drag_done(*old(state), pt, ev) matches Some((a, b)) ==> line_fits(a.0 as int, a.1 as int, b.0 as int, b.1 as int),
    ensures
        final(layer).wf(),
        final(layer).spec_width() == old(layer).spec_width(),
        final(layer).spec_height() == old(layer).spec_height(),
        *final(state) == drag_step(*old(state), pt, ev),
        drag_done(*old(state), pt, ev) is None ==> final(layer)@ == old(layer)@,
        drag_done(*old(state), pt, ev) matches Some((a, b)) ==> forall|x: int, y: int|
            final(layer).in_bounds(x, y) ==> #[trigger] final(layer).px(x, y) == (if line_points(
                a.0 as int,
                a.1 as int,
                b.0 as int,
                b.1 as int,
            ).contains((x, y)) {
                fg
            } else {
                old(layer).px(x, y)
            }),
{
    if let Some((a, b)) = state.track_drag(pt, ev) {
        draw_line(layer, a.0, a.1, b.0, b.1, fg);
    }
}

} // verus!
