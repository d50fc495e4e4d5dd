//! Flood fill over 4-connected pixels of similar colour: the region a magic wand selects and
//! a paint bucket fills.

use vstd::prelude::*;
use crate::color::Rgba8;
use crate::document::selection::Rect;
use crate::pixel_buffer::{Image, PixelBuffer, lemma_index_bounds, lemma_index_injective};

verus! {

pub open spec fn diff(a: u8, b: u8) -> int {
    if a >= b { a - b } else { b - a }
}

/// Every channel of `p` is within `tol` of `t`.
pub open spec fn close_to(p: Rgba8, t: Rgba8, tol: int) -> bool {
    &&& diff(p.r, t.r) <= tol
    &&& diff(p.g, t.g) <= tol
    &&& diff(p.b, t.b) <= tol
    &&& diff(p.a, t.a) <= tol
}

/// `(x, y)` is inside `img` and its colour is within `tol` of `t`.
pub open spec fn accepted(img: Image, t: Rgba8, tol: int, q: (int, int)) -> bool {
    img.in_bounds(q.0, q.1) && close_to(img.px(q.0, q.1), t, tol)
}

/// An accepted pixel the flood continues from: with `stop_clear`, fully transparent pixels
/// are taken but not spread from.
pub open spec fn spreads(img: Image, t: Rgba8, tol: int, stop_clear: bool, q: (int, int)) -> bool {
    accepted(img, t, tol, q) && !(stop_clear && img.px(q.0, q.1).a == 0)
}

pub open spec fn adjacent(p: (int, int), q: (int, int)) -> bool {
    ||| (p.1 == q.1 && (p.0 == q.0 + 1 || p.0 + 1 == q.0))
    ||| (p.0 == q.0 && (p.1 == q.1 + 1 || p.1 + 1 == q.1))
}

/// A chain of 4-neighbours, all accepted, each but the last spreading.
pub open spec fn flood_path(img: Image, t: Rgba8, tol: int, stop_clear: bool, p: Seq<(int, int)>) -> bool {
    &&& p.len() >= 1
    &&& forall|k: int| 0 <= k < p.len() ==> accepted(img, t, tol, #[trigger] p[k])
    &&& forall|k: int| 0 <= k < p.len() - 1 ==> spreads(img, t, tol, stop_clear, #[trigger] p[k])
    &&& forall|k: int| 0 <= k < p.len() - 1 ==> adjacent(#[trigger] p[k], p[k + 1])
}

/// `q` is reached by a flood from `s` of the colours within `tol` of the colour at `s`.
pub open spec fn flood_reaches(img: Image, s: (int, int), tol: int, stop_clear: bool, q: (int, int)) -> bool {
    exists|p: Seq<(int, int)>|
        #[trigger] flood_path(img, img.px(s.0, s.1), tol, stop_clear, p) && p[0] == s && p.last() == q
}

pub open spec fn count_true(s: Seq<bool>) -> nat
    decreases s.len(),
{
    if s.len() == 0 {
        0
    } else {
        count_true(s.drop_last()) + if s.last() { 1nat } else { 0nat }
    }
}

proof fn lemma_count_bound(s: Seq<bool>)
    ensures
        count_true(s) <= s.len(),
    decreases s.len(),
{
    if s.len() > 0 {
        lemma_count_bound(s.drop_last());
    }
}

proof fn lemma_count_set(s: Seq<bool>, i: int)
    requires
        0 <= i < s.len(),
        !s[i],
    ensures
        count_true(s.update(i, true)) == count_true(s) + 1,
    decreases s.len(),
{
    if i == s.len() - 1 {
        assert(s.update(i, true).drop_last() =~= s.drop_last());
    } else {
        lemma_count_set(s.drop_last(), i);
        assert(s.update(i, true).drop_last() =~= s.drop_last().update(i, true));
    }
}

/// Flat index of `q` in an image of width `w`.
pub open spec fn fidx(q: (int, int), w: int) -> int {
    q.1 * w + q.0
}

/// A stack entry as a point.
pub open spec fn pt(c: (i32, i32)) -> (int, int) {
    (c.0 as int, c.1 as int)
}

/// `q` is one of the points still to visit.
pub open spec fn on_stack(stack: Seq<(i32, i32)>, q: (int, int)) -> bool {
    exists|k: int| 0 <= k < stack.len() && #[trigger] pt(stack[k]) == q
}

/// The four neighbours pushed after a pixel that spreads, in the order they are pushed.
pub open spec fn neighbours(c: (i32, i32)) -> Seq<(i32, i32)> {
    seq![((c.0 + 1) as i32, c.1), ((c.0 - 1) as i32, c.1), (c.0, (c.1 + 1) as i32), (c.0, (c.1 - 1) as i32)]
}

/// What holds between the steps of a flood from `(x, y)`: the region is the visited accepted
/// pixels, all of them reached; every entry still to visit is the start or a neighbour of a
/// spreading region pixel; and every neighbour of a spreading region pixel, as well as the
/// start, is visited or still to visit.
#[verifier::opaque]
spec fn flood_inv(
    img: Image,
    x: i32,
    y: i32,
    tl: int,
    sc: bool,
    region: Seq<bool>,
    visited: Seq<bool>,
    stack: Seq<(i32, i32)>,
) -> bool {
    let w = img.width as int;
    let h = img.height as int;
    let s = (x as int, y as int);
    let t = img.px(s.0, s.1);
    &&& img.in_bounds(s.0, s.1)
    &&& region.len() == w * h
    &&& visited.len() == w * h
    &&& forall|q: (int, int)|
        img.in_bounds(q.0, q.1) ==> (#[trigger] region[fidx(q, w)] <==> visited[fidx(q, w)] && accepted(img, t, tl, q))
    &&& forall|q: (int, int)|
        img.in_bounds(q.0, q.1) && #[trigger] region[fidx(q, w)] ==> flood_reaches(img, s, tl, sc, q)
    &&& forall|k: int| 0 <= k < stack.len() ==> -1 <= (#[trigger] stack[k]).0 <= w && -1 <= stack[k].1 <= h
    &&& forall|k: int|
        0 <= k < stack.len() ==> pt(#[trigger] stack[k]) == s || exists|m: (int, int)|
            img.in_bounds(m.0, m.1) && region[fidx(m, w)] && spreads(img, t, tl, sc, m) && #[trigger] adjacent(
                m,
                pt(stack[k]),
            )
    &&& forall|m: (int, int), q: (int, int)|
        img.in_bounds(m.0, m.1) && #[trigger] region[fidx(m, w)] && spreads(img, t, tl, sc, m) && img.in_bounds(
            q.0,
            q.1,
        ) && #[trigger] adjacent(m, q) ==> visited[fidx(q, w)] || on_stack(stack, q)
    &&& visited[fidx(s, w)] || on_stack(stack, s)
}

/// Flat indices of the pixels of a `w` by `h` image lie below `w * h`, and only `e` has the
/// index of `e`.
proof fn lemma_fidx(w: int, h: int, e: (int, int))
    requires
        0 <= e.0 < w,
        0 <= e.1 < h,
    ensures
        forall|q: (int, int)| 0 <= q.0 < w && 0 <= q.1 < h ==> 0 <= #[trigger] fidx(q, w) < w * h,
        forall|q: (int, int)| 0 <= q.0 < w && 0 <= q.1 < h && q != e ==> #[trigger] fidx(q, w) != fidx(e, w),
{
    assert forall|q: (int, int)| 0 <= q.0 < w && 0 <= q.1 < h implies 0 <= #[trigger] fidx(q, w) < w * h by {
        lemma_index_bounds(q.0, q.1, w, h);
    }
    assert forall|q: (int, int)| 0 <= q.0 < w && 0 <= q.1 < h && q != e implies #[trigger] fidx(q, w) != fidx(
        e,
        w,
    ) by {
        if fidx(q, w) == fidx(e, w) {
            lemma_index_injective(q.0, q.1, e.0, e.1, w);
        }
    }
}

proof fn lemma_flood_init(img: Image, x: i32, y: i32, tl: int, sc: bool, n: nat)
    requires
        img.in_bounds(x as int, y as int),
        n == img.width * img.height,
    ensures
        flood_inv(img, x, y, tl, sc, Seq::new(n, |i: int| false), Seq::new(n, |i: int| false), seq![(x, y)]),
{
    reveal(flood_inv);
    let w = img.width as int;
    let h = img.height as int;
    let s = (x as int, y as int);
    lemma_fidx(w, h, s);
    let stack = seq![(x, y)];
    assert(pt(stack[0]) == s);
}

/// Dropping a popped entry that lies outside the image or was visited keeps the invariant.
proof fn lemma_flood_skip(
    img: Image,
    x: i32,
    y: i32,
    tl: int,
    sc: bool,
    region: Seq<bool>,
    visited: Seq<bool>,
    stack: Seq<(i32, i32)>,
)
    requires
        flood_inv(img, x, y, tl, sc, region, visited, stack),
        stack.len() > 0,
        !img.in_bounds(pt(stack.last()).0, pt(stack.last()).1) || visited[fidx(
            pt(stack.last()),
            img.width as int,
        )],
    ensures
        flood_inv(img, x, y, tl, sc, region, visited, stack.drop_last()),
{
    reveal(flood_inv);
    let w = img.width as int;
    let s = (x as int, y as int);
    let t = img.px(s.0, s.1);
    let st = stack.drop_last();
    let e = pt(stack.last());
    assert forall|k: int| 0 <= k < st.len() implies #[trigger] st[k] == stack[k] by {}
    assert forall|q: (int, int)| img.in_bounds(q.0, q.1) && !visited[fidx(q, w)] && on_stack(stack, q) implies on_stack(
        st,
        q,
    ) by {
        let k = choose|k: int| 0 <= k < stack.len() && #[trigger] pt(stack[k]) == q;
        if k == stack.len() - 1 {
            assert(q == e);
        }
        assert(pt(st[k]) == q);
    }
    assert forall|m: (int, int), q: (int, int)|
        img.in_bounds(m.0, m.1) && #[trigger] region[fidx(m, w)] && spreads(img, t, tl, sc, m) && img.in_bounds(
            q.0,
            q.1,
        ) && #[trigger] adjacent(m, q) implies visited[fidx(q, w)] || on_stack(st, q) by {}
    assert(visited[fidx(s, w)] || on_stack(st, s));
    assert forall|k: int|
        0 <= k < st.len() implies pt(#[trigger] st[k]) == s || exists|m: (int, int)|
            img.in_bounds(m.0, m.1) && region[fidx(m, w)] && spreads(img, t, tl, sc, m) && #[trigger] adjacent(
                m,
                pt(st[k]),
            ) by {
        assert(st[k] == stack[k]);
    }
}

/// Marking a popped in-image pixel visited that the tolerance rejects keeps the invariant.
proof fn lemma_flood_reject(
    img: Image,
    x: i32,
    y: i32,
    tl: int,
    sc: bool,
    region: Seq<bool>,
    visited: Seq<bool>,
    stack: Seq<(i32, i32)>,
)
    requires
        flood_inv(img, x, y, tl, sc, region, visited, stack),
        stack.len() > 0,
        img.in_bounds(pt(stack.last()).0, pt(stack.last()).1),
        !accepted(img, img.px(x as int, y as int), tl, pt(stack.last())),
    ensures
        flood_inv(
            img,
            x,
            y,
            tl,
            sc,
            region,
            visited.update(fidx(pt(stack.last()), img.width as int), true),
            stack.drop_last(),
        ),
{
    reveal(flood_inv);
    let w = img.width as int;
    let h = img.height as int;
    let s = (x as int, y as int);
    let t = img.px(s.0, s.1);
    let st = stack.drop_last();
    let e = pt(stack.last());
    let vis = visited.update(fidx(e, w), true);
    lemma_fidx(w, h, e);
    assert forall|k: int| 0 <= k < st.len() implies #[trigger] st[k] == stack[k] by {}
    assert forall|q: (int, int)| img.in_bounds(q.0, q.1) && visited[fidx(q, w)] implies vis[fidx(q, w)] by {}
    assert forall|q: (int, int)| img.in_bounds(q.0, q.1) && !vis[fidx(q, w)] && on_stack(stack, q) implies on_stack(
        st,
        q,
    ) by {
        let k = choose|k: int| 0 <= k < stack.len() && #[trigger] pt(stack[k]) == q;
        if k == stack.len() - 1 {
            assert(q == e);
        }
        assert(pt(st[k]) == q);
    }
    assert forall|q: (int, int)| img.in_bounds(q.0, q.1) implies (#[trigger] region[fidx(q, w)] <==> vis[fidx(q, w)]
        && accepted(img, t, tl, q)) by {
        if q != e {
            assert(vis[fidx(q, w)] == visited[fidx(q, w)]);
        }
    }
    assert forall|m: (int, int), q: (int, int)|
        img.in_bounds(m.0, m.1) && #[trigger] region[fidx(m, w)] && spreads(img, t, tl, sc, m) && img.in_bounds(
            q.0,
            q.1,
        ) && #[trigger] adjacent(m, q) implies vis[fidx(q, w)] || on_stack(st, q) by {}
    assert(vis[fidx(s, w)] || on_stack(st, s));
    assert forall|k: int|
        0 <= k < st.len() implies pt(#[trigger] st[k]) == s || exists|m: (int, int)|
            img.in_bounds(m.0, m.1) && region[fidx(m, w)] && spreads(img, t, tl, sc, m) && #[trigger] adjacent(
                m,
                pt(st[k]),
            ) by {
        assert(st[k] == stack[k]);
    }
}

/// A popped in-image pixel that was not visited and that the tolerance accepts is reached.
proof fn lemma_flood_reached(
    img: Image,
    x: i32,
    y: i32,
    tl: int,
    sc: bool,
    region: Seq<bool>,
    visited: Seq<bool>,
    stack: Seq<(i32, i32)>,
)
    requires
        flood_inv(img, x, y, tl, sc, region, visited, stack),
        stack.len() > 0,
        img.in_bounds(pt(stack.last()).0, pt(stack.last()).1),
        accepted(img, img.px(x as int, y as int), tl, pt(stack.last())),
    ensures
        flood_reaches(img, (x as int, y as int), tl, sc, pt(stack.last())),
{
    reveal(flood_inv);
    let w = img.width as int;
    let s = (x as int, y as int);
    let t = img.px(s.0, s.1);
    let e = pt(stack.last());
    let k = stack.len() - 1;
    if pt(stack[k]) == s {
        let path = seq![s];
        assert(flood_path(img, t, tl, sc, path));
    } else {
        let m = choose|m: (int, int)|
            img.in_bounds(m.0, m.1) && region[fidx(m, w)] && spreads(img, t, tl, sc, m) && #[trigger] adjacent(
                m,
                pt(stack[k]),
            );
        assert(flood_reaches(img, s, tl, sc, m));
        let pm = choose|pm: Seq<(int, int)>| #[trigger] flood_path(img, t, tl, sc, pm) && pm[0] == s && pm.last() == m;
        let path = pm.push(e);
        assert(flood_path(img, t, tl, sc, path)) by {
            assert forall|j: int| 0 <= j < path.len() - 1 implies adjacent(#[trigger] path[j], path[j + 1]) by {
                if j < pm.len() - 1 {
                    assert(path[j] == pm[j] && path[j + 1] == pm[j + 1]);
                }
            }
            assert forall|j: int| 0 <= j < path.len() - 1 implies spreads(img, t, tl, sc, #[trigger] path[j]) by {
                assert(path[j] == pm[j]);
            }
            assert forall|j: int| 0 <= j < path.len() implies accepted(img, t, tl, #[trigger] path[j]) by {
                if j < pm.len() {
                    assert(path[j] == pm[j]);
                }
            }
        }
        assert(path[0] == s && path.last() == e);
    }
}

/// Taking a popped pixel into the region, and pushing its neighbours when it spreads, keeps
/// the invariant.
#[verifier::spinoff_prover]
#[verifier::rlimit(40)]
proof fn lemma_flood_take(
    img: Image,
    x: i32,
    y: i32,
    tl: int,
    sc: bool,
    region: Seq<bool>,
    visited: Seq<bool>,
    stack: Seq<(i32, i32)>,
)
    requires
        flood_inv(img, x, y, tl, sc, region, visited, stack),
        stack.len() > 0,
        img.width <= 0x4000_0000,
        img.height <= 0x4000_0000,
        img.in_bounds(pt(stack.last()).0, pt(stack.last()).1),
        accepted(img, img.px(x as int, y as int), tl, pt(stack.last())),
    ensures
        flood_inv(
            img,
            x,
            y,
            tl,
            sc,
            region.update(fidx(pt(stack.last()), img.width as int), true),
            visited.update(fidx(pt(stack.last()), img.width as int), true),
            stack.drop_last() + if spreads(img, img.px(x as int, y as int), tl, sc, pt(stack.last())) {
                neighbours(stack.last())
            } else {
                Seq::empty()
            },
        ),
{
    lemma_flood_reached(img, x, y, tl, sc, region, visited, stack);
    reveal(flood_inv);
    let w = img.width as int;
    let h = img.height as int;
    let s = (x as int, y as int);
    let t = img.px(s.0, s.1);
    let e = pt(stack.last());
    let sp = spreads(img, t, tl, sc, e);
    let nb: Seq<(i32, i32)> = if sp { neighbours(stack.last()) } else { Seq::empty() };
    let st = stack.drop_last() + nb;
    let ml = stack.len() - 1;
    let reg = region.update(fidx(e, w), true);
    let vis = visited.update(fidx(e, w), true);
    lemma_fidx(w, h, e);
    assert forall|k: int| 0 <= k < ml implies #[trigger] st[k] == stack[k] by {}
    if sp {
        assert(pt(st[ml]) == (e.0 + 1, e.1));
        assert(pt(st[ml + 1]) == (e.0 - 1, e.1));
        assert(pt(st[ml + 2]) == (e.0, e.1 + 1));
        assert(pt(st[ml + 3]) == (e.0, e.1 - 1));
        assert(st.len() == ml + 4);
    } else {
        assert(st.len() == ml);
    }
    assert forall|q: (int, int)| img.in_bounds(q.0, q.1) && visited[fidx(q, w)] implies vis[fidx(q, w)] by {}
    assert forall|q: (int, int)| img.in_bounds(q.0, q.1) && region[fidx(q, w)] implies reg[fidx(q, w)] by {}
    assert forall|q: (int, int)| img.in_bounds(q.0, q.1) && !vis[fidx(q, w)] && on_stack(stack, q) implies on_stack(
        st,
        q,
    ) by {
        let k = choose|k: int| 0 <= k < stack.len() && #[trigger] pt(stack[k]) == q;
        if k == ml {
            assert(q == e);
        }
        assert(pt(st[k]) == q);
    }
    assert forall|q: (int, int)| img.in_bounds(q.0, q.1) implies (#[trigger] reg[fidx(q, w)] <==> vis[fidx(q, w)]
        && accepted(img, t, tl, q)) by {
        if q != e {
            assert(vis[fidx(q, w)] == visited[fidx(q, w)]);
            assert(reg[fidx(q, w)] == region[fidx(q, w)]);
        }
    }
    assert forall|q: (int, int)| img.in_bounds(q.0, q.1) && #[trigger] reg[fidx(q, w)] implies flood_reaches(
        img,
        s,
        tl,
        sc,
        q,
    ) by {
        if q != e {
            assert(region[fidx(q, w)]);
        }
    }
    assert forall|k: int| 0 <= k < st.len() implies -1 <= (#[trigger] st[k]).0 <= w && -1 <= st[k].1 <= h by {
        if k < ml {
            assert(st[k] == stack[k]);
        }
    }
    assert forall|k: int|
        0 <= k < st.len() implies pt(#[trigger] st[k]) == s || exists|m: (int, int)|
            img.in_bounds(m.0, m.1) && reg[fidx(m, w)] && spreads(img, t, tl, sc, m) && #[trigger] adjacent(
                m,
                pt(st[k]),
            ) by {
        if k < ml {
            assert(st[k] == stack[k]);
            if pt(st[k]) != s {
                let m = choose|m: (int, int)|
                    img.in_bounds(m.0, m.1) && region[fidx(m, w)] && spreads(img, t, tl, sc, m) && #[trigger] adjacent(
                        m,
                        pt(stack[k]),
                    );
                assert(reg[fidx(m, w)]);
            }
        } else {
            assert(adjacent(e, pt(st[k])));
        }
    }
    assert forall|m: (int, int), q: (int, int)|
        img.in_bounds(m.0, m.1) && #[trigger] reg[fidx(m, w)] && spreads(img, t, tl, sc, m) && img.in_bounds(
            q.0,
            q.1,
        ) && #[trigger] adjacent(m, q) implies vis[fidx(q, w)] || on_stack(st, q) by {
        if m == e {
            if q.0 == e.0 + 1 && q.1 == e.1 {
                assert(pt(st[ml]) == q);
            } else if q.0 + 1 == e.0 && q.1 == e.1 {
                assert(pt(st[ml + 1]) == q);
            } else if q.1 == e.1 + 1 {
                assert(pt(st[ml + 2]) == q);
            } else {
                assert(pt(st[ml + 3]) == q);
            }
        } else {
            assert(region[fidx(m, w)]);
        }
    }    assert(vis[fidx(s, w)] || on_stack(st, s));
}

/// With nothing left to visit, the region holds every pixel that a flood path from the start
/// reaches.
proof fn lemma_flood_done(img: Image, x: i32, y: i32, tl: int, sc: bool, region: Seq<bool>, visited: Seq<bool>)
    requires
        flood_inv(img, x, y, tl, sc, region, visited, Seq::empty()),
        img.in_bounds(x as int, y as int),
    ensures
        forall|q: (int, int)|
            img.in_bounds(q.0, q.1) ==> (#[trigger] region[fidx(q, img.width as int)] <==> flood_reaches(
                img,
                (x as int, y as int),
                tl,
                sc,
                q,
            )),
{
    reveal(flood_inv);
    let w = img.width as int;
    let s = (x as int, y as int);
    let t = img.px(s.0, s.1);
    assert forall|q: (int, int)| img.in_bounds(q.0, q.1) && flood_reaches(img, s, tl, sc, q) implies #[trigger] region[fidx(
        q,
        w,
    )] by {
        let p = choose|p: Seq<(int, int)>| #[trigger] flood_path(img, t, tl, sc, p) && p[0] == s && p.last() == q;
        lemma_path_in_region(img, t, tl, sc, p, region, visited, w, p.len() - 1);
    }
}

/// Along a flood path from a visited start, with every neighbour of a spreading region pixel
/// visited, each pixel of the path is in the region.
proof fn lemma_path_in_region(
    img: Image,
    t: Rgba8,
    tl: int,
    sc: bool,
    p: Seq<(int, int)>,
    region: Seq<bool>,
    visited: Seq<bool>,
    w: int,
    k: int,
)
    requires
        w == img.width,
        flood_path(img, t, tl, sc, p),
        0 <= k < p.len(),
        visited[fidx(p[0], w)],
        forall|q: (int, int)|
            img.in_bounds(q.0, q.1) ==> (#[trigger] region[fidx(q, w)] <==> visited[fidx(q, w)] && accepted(
                img,
                t,
                tl,
                q,
            )),
        forall|m: (int, int), q: (int, int)|
            img.in_bounds(m.0, m.1) && #[trigger] region[fidx(m, w)] && spreads(img, t, tl, sc, m) && img.in_bounds(
                q.0,
                q.1,
            ) && #[trigger] adjacent(m, q) ==> visited[fidx(q, w)] || on_stack(Seq::empty(), q),
    ensures
        region[fidx(p[k], w)],
    decreases k,
{
    assert(accepted(img, t, tl, p[k]));
    if k > 0 {
        lemma_path_in_region(img, t, tl, sc, p, region, visited, w, k - 1);
        assert(spreads(img, t, tl, sc, p[k - 1]));
        assert(adjacent(p[k - 1], p[k]));
    }
}

/// Every flat index below `w * h` is that of one pixel of a `w` by `h` grid.
pub proof fn lemma_unflatten(i: int, w: int, h: int)
    requires
        0 <= i < w * h,
        w > 0,
    ensures
        0 <= i % w < w,
        0 <= i / w < h,
        fidx((i % w, i / w), w) == i,
{
    vstd::arithmetic::div_mod::lemma_fundamental_div_mod(i, w);
    vstd::arithmetic::div_mod::lemma_mod_pos_bound(i, w);
    vstd::arithmetic::div_mod::lemma_div_pos_is_pos(i, w);
    assert(i / w < h) by (nonlinear_arith)
        requires
            w * (i / w) + i % w == i,
            i % w >= 0,
            i < w * h,
            w > 0,
    ;
    assert((i / w) * w == w * (i / w)) by (nonlinear_arith);
}

/// Flat index `i` is that of a pixel of `img` that a flood from `s` reaches, tolerance `tol`,
/// spreading from every accepted pixel.
pub open spec fn wand_hit(img: Image, s: (int, int), tol: int, i: int) -> bool {
    exists|q: (int, int)|
        img.in_bounds(q.0, q.1) && #[trigger] fidx(q, img.width as int) == i && flood_reaches(img, s, tol, false, q)
}

/// A flood reaches the pixel it starts from, whatever the tolerance.
pub proof fn law_flood_reaches_start(img: Image, s: (int, int), tol: int, stop_clear: bool)
    requires
        img.in_bounds(s.0, s.1),
        0 <= tol,
    ensures
        flood_reaches(img, s, tol, stop_clear, s),
{
    let p = seq![s];
    assert(flood_path(img, img.px(s.0, s.1), tol, stop_clear, p));
}

/// A larger tolerance reaches every pixel a smaller one reaches.
pub proof fn law_flood_tolerance_monotone(
    img: Image,
    s: (int, int),
    t1: int,
    t2: int,
    stop_clear: bool,
    q: (int, int),
)
    requires
        t1 <= t2,
        flood_reaches(img, s, t1, stop_clear, q),
    ensures
        flood_reaches(img, s, t2, stop_clear, q),
{
    let t = img.px(s.0, s.1);
    let p = choose|p: Seq<(int, int)>| #[trigger] flood_path(img, t, t1, stop_clear, p) && p[0] == s && p.last() == q;
    assert forall|k: int| 0 <= k < p.len() implies accepted(img, t, t2, #[trigger] p[k]) by {
        assert(accepted(img, t, t1, p[k]));
    }
    assert forall|k: int| 0 <= k < p.len() - 1 implies spreads(img, t, t2, stop_clear, #[trigger] p[k]) by {
        assert(spreads(img, t, t1, stop_clear, p[k]));
    }
    assert(flood_path(img, t, t2, stop_clear, p));
}

/// Nothing is reached from a start outside the image.
pub proof fn lemma_wand_miss(img: Image, s: (int, int), tol: int)
    requires
        !img.in_bounds(s.0, s.1),
    ensures
        forall|i: int| !#[trigger] wand_hit(img, s, tol, i),
{
    assert forall|i: int| !#[trigger] wand_hit(img, s, tol, i) by {
        if wand_hit(img, s, tol, i) {
            let q = choose|q: (int, int)|
                img.in_bounds(q.0, q.1) && #[trigger] fidx(q, img.width as int) == i && flood_reaches(img, s, tol, false, q);
            let p = choose|p: Seq<(int, int)>|
                #[trigger] flood_path(img, img.px(s.0, s.1), tol, false, p) && p[0] == s && p.last() == q;
            assert(accepted(img, img.px(s.0, s.1), tol, p[0]));
        }
    }
}

/// A region that holds exactly the reached pixels, read by flat index, holds exactly the
/// wand hits; and its marked points are the reached ones, the start among them.
pub proof fn lemma_wand_region(img: Image, s: (int, int), tol: int, region: Seq<bool>)
    requires
        img.in_bounds(s.0, s.1),
        0 <= tol,
        region.len() == img.width * img.height,
        forall|q: (int, int)|
            img.in_bounds(q.0, q.1) ==> (#[trigger] region[fidx(q, img.width as int)] <==> flood_reaches(
                img,
                s,
                tol,
                false,
                q,
            )),
    ensures
        forall|j: int| 0 <= j ==> ((j < region.len() && region[j]) == #[trigger] wand_hit(img, s, tol, j)),
        (|q: (int, int)| marked(region, img.width as int, img.height as int, q)) =~= (|q: (int, int)|
            img.in_bounds(q.0, q.1) && flood_reaches(img, s, tol, false, q)),
        marked(region, img.width as int, img.height as int, s),
{
    let w = img.width as int;
    let h = img.height as int;
    assert forall|j: int| 0 <= j implies ((j < region.len() && region[j]) == #[trigger] wand_hit(img, s, tol, j)) by {
        if j < region.len() {
            lemma_unflatten(j, w, h);
            let q = (j % w, j / w);
            assert(region[fidx(q, w)] <==> flood_reaches(img, s, tol, false, q));
            if wand_hit(img, s, tol, j) {
                let q2 = choose|q2: (int, int)|
                    img.in_bounds(q2.0, q2.1) && #[trigger] fidx(q2, w) == j && flood_reaches(img, s, tol, false, q2);
                assert(region[fidx(q2, w)]);
            }
        } else if wand_hit(img, s, tol, j) {
            let q2 = choose|q2: (int, int)|
                img.in_bounds(q2.0, q2.1) && #[trigger] fidx(q2, w) == j && flood_reaches(img, s, tol, false, q2);
            lemma_index_bounds(q2.0, q2.1, w, h);
        }
    }
    let p0 = seq![s];
    assert(flood_path(img, img.px(s.0, s.1), tol, false, p0));
    assert(flood_reaches(img, s, tol, false, s));
}

/// `q` is a pixel of a `w` by `h` grid whose entry in `region` is set.
pub open spec fn marked(region: Seq<bool>, w: int, h: int, q: (int, int)) -> bool {
    0 <= q.0 < w && 0 <= q.1 < h && region[fidx(q, w)]
}

/// `r` is the smallest rectangle holding every point of `pred`: each point lies inside, and
/// each of the four edges passes through one.
pub open spec fn bounding_box(pred: spec_fn((int, int)) -> bool, r: Rect) -> bool {
    &&& forall|q: (int, int)| #[trigger] pred(q) ==> r.x <= q.0 < r.x + r.w && r.y <= q.1 < r.y + r.h
    &&& exists|q: (int, int)| #[trigger] pred(q) && q.0 == r.x
    &&& exists|q: (int, int)| #[trigger] pred(q) && q.0 == r.x + r.w - 1
    &&& exists|q: (int, int)| #[trigger] pred(q) && q.1 == r.y
    &&& exists|q: (int, int)| #[trigger] pred(q) && q.1 == r.y + r.h - 1
}

/// `q` comes before column `x` of row `y` in row-major order.
pub open spec fn before(q: (int, int), x: int, y: int) -> bool {
    q.1 < y || (q.1 == y && q.0 < x)
}

/// The bounding rectangle of the set entries of a `w` by `h` region, or `None` when no entry
/// is set.
pub fn region_bounds(region: &Vec<bool>, w: u32, h: u32) -> (r: Option<Rect>)
    requires
        region@.len() == w * h,
        w * h <= u32::MAX,
        w <= 0x4000_0000,
        h <= 0x4000_0000,
    ensures
        r is None <==> forall|q: (int, int)| !#[trigger] marked(region@, w as int, h as int, q),
        r matches Some(b) ==> bounding_box(|q: (int, int)| marked(region@, w as int, h as int, q), b),
{
    let ghost reg = region@;
    let ghost wi = w as int;
    let ghost hi = h as int;
    let mut found = false;
    let mut min_x: i32 = i32::MAX;
    let mut min_y: i32 = i32::MAX;
    let mut max_x: i32 = i32::MIN;
    let mut max_y: i32 = i32::MIN;
    let ghost mut p_min_x: (int, int) = (0, 0);
    let ghost mut p_min_y: (int, int) = (0, 0);
    let ghost mut p_max_x: (int, int) = (0, 0);
    let ghost mut p_max_y: (int, int) = (0, 0);
    let mut y: u32 = 0;
    while y < h
        invariant
            reg == region@,
            reg.len() == w * h,
            w * h <= u32::MAX,
            wi == w,
            hi == h,
            w <= 0x4000_0000,
            h <= 0x4000_0000,
            y <= h,
            !found ==> forall|q: (int, int)| #[trigger] marked(reg, wi, hi, q) ==> !before(q, 0, y as int),
            found ==> forall|q: (int, int)|
                #[trigger] marked(reg, wi, hi, q) && before(q, 0, y as int) ==> min_x <= q.0 <= max_x && min_y <= q.1
                    <= max_y,
            found ==> marked(reg, wi, hi, p_min_x) && before(p_min_x, 0, y as int) && p_min_x.0 == min_x,
            found ==> marked(reg, wi, hi, p_max_x) && before(p_max_x, 0, y as int) && p_max_x.0 == max_x,
            found ==> marked(reg, wi, hi, p_min_y) && before(p_min_y, 0, y as int) && p_min_y.1 == min_y,
            found ==> marked(reg, wi, hi, p_max_y) && before(p_max_y, 0, y as int) && p_max_y.1 == max_y,
        decreases h - y,
    {
        let mut x: u32 = 0;
        while x < w
            invariant
                reg == region@,
                reg.len() == w * h,
                w * h <= u32::MAX,
                wi == w,
                hi == h,
                w <= 0x4000_0000,
                h <= 0x4000_0000,
                y < h,
                x <= w,
                !found ==> forall|q: (int, int)| #[trigger] marked(reg, wi, hi, q) ==> !before(q, x as int, y as int),
                found ==> forall|q: (int, int)|
                    #[trigger] marked(reg, wi, hi, q) && before(q, x as int, y as int) ==> min_x <= q.0 <= max_x
                        && min_y <= q.1 <= max_y,
                found ==> marked(reg, wi, hi, p_min_x) && before(p_min_x, x as int, y as int) && p_min_x.0 == min_x,
                found ==> marked(reg, wi, hi, p_max_x) && before(p_max_x, x as int, y as int) && p_max_x.0 == max_x,
                found ==> marked(reg, wi, hi, p_min_y) && before(p_min_y, x as int, y as int) && p_min_y.1 == min_y,
                found ==> marked(reg, wi, hi, p_max_y) && before(p_max_y, x as int, y as int) && p_max_y.1 == max_y,
            decreases w - x,
        {
            proof {
                lemma_index_bounds(x as int, y as int, w as int, h as int);
            }
            let i: usize = (y * w + x) as usize;
            let ghost c: (int, int) = (x as int, y as int);
            assert(i == fidx(c, wi));
            if region[i] {
                assert(marked(reg, wi, hi, c));
                let xi = x as i32;
                let yi = y as i32;
                if !found || xi < min_x {
                    min_x = xi;
                    proof { p_min_x = c; }
                }
                if !found || xi > max_x {
                    max_x = xi;
                    proof { p_max_x = c; }
                }
                if !found || yi < min_y {
                    min_y = yi;
                    proof { p_min_y = c; }
                }
                if !found || yi > max_y {
                    max_y = yi;
                    proof { p_max_y = c; }
                }
                found = true;
            }
            proof {
                assert forall|q: (int, int)| #[trigger] marked(reg, wi, hi, q) && before(q, x + 1, y as int)
                    implies before(q, x as int, y as int) || q == c by {}
            }
            x = x + 1;
        }
        proof {
            assert forall|q: (int, int)| #[trigger] marked(reg, wi, hi, q) implies (before(q, w as int, y as int)
                <==> before(q, 0, y + 1)) by {}
        }
        y = y + 1;
    }
    proof {
        assert forall|q: (int, int)| #[trigger] marked(reg, wi, hi, q) implies before(q, 0, h as int) by {}
    }
    if !found {
        return None;
    }
    let b = Rect { x: min_x, y: min_y, w: max_x - min_x + 1, h: max_y - min_y + 1 };
    proof {
        let pred = |q: (int, int)| marked(reg, wi, hi, q);
        assert(pred(p_min_x) && p_min_x.0 == b.x);
        assert(pred(p_max_x) && p_max_x.0 == b.x + b.w - 1);
        assert(pred(p_min_y) && p_min_y.1 == b.y);
        assert(pred(p_max_y) && p_max_y.1 == b.y + b.h - 1);
    }
    Some(b)
}

/// Marks the region a flood from `(x, y)` reaches: entry `y * width + x` of the result is set
/// exactly for the pixels reached; nothing is set when `(x, y)` is outside the buffer.
pub fn flood_region(buf: &PixelBuffer, x: i32, y: i32, tol: u8, stop_clear: bool) -> (region: Vec<bool>)
    requires
        buf.wf(),
    ensures
        region@.len() == buf.spec_width() * buf.spec_height(),
        !buf.in_bounds(x as int, y as int) ==> forall|i: int| 0 <= i < region@.len() ==> !#[trigger] region@[i],
        buf.in_bounds(x as int, y as int) ==> forall|q: (int, int)|
            buf.in_bounds(q.0, q.1) ==> (#[trigger] region@[fidx(q, buf.spec_width() as int)] <==> flood_reaches(
                buf@,
                (x as int, y as int),
                tol as int,
                stop_clear,
                q,
            )),
{
    let w = buf.width();
    let h = buf.height();
    let n: usize = (w * h) as usize;
    let mut region: Vec<bool> = vec![false; n];
    assert(region@ =~= Seq::new(n as nat, |i: int| false));
    if x < 0 || y < 0 || x as i64 >= w as i64 || y as i64 >= h as i64 {
        return region;
    }
    let ghost img = buf@;
    let ghost tl: int = tol as int;
    let ghost t: Rgba8 = img.px(x as int, y as int);
    let target = buf.get_pixel(x as u32, y as u32);
    let mut visited: Vec<bool> = vec![false; n];
    assert(visited@ =~= Seq::new(n as nat, |i: int| false));
    let mut stack: Vec<(i32, i32)> = Vec::new();
    stack.push((x, y));
    proof {
        assert(w <= 0x4000_0000) by (nonlinear_arith)
            requires w * h * 4 <= 0xffff_ffff, h >= 1;
        assert(h <= 0x4000_0000) by (nonlinear_arith)
            requires w * h * 4 <= 0xffff_ffff, w >= 1;
        lemma_count_bound(visited@);
        assert(stack@ =~= seq![(x, y)]);
        lemma_flood_init(img, x, y, tl, stop_clear, n as nat);
    }
    while stack.len() > 0
        invariant
            buf.wf(),
            buf@ == img,
            w == img.width,
            h == img.height,
            0 < w <= 0x4000_0000,
            0 < h <= 0x4000_0000,
            n == w * h,
            img.in_bounds(x as int, y as int),
            t == img.px(x as int, y as int),
            target == t,
            tl == tol as int,
            region@.len() == n,
            visited@.len() == n,
            count_true(visited@) <= n,
            flood_inv(img, x, y, tl, stop_clear, region@, visited@, stack@),
        decreases n - count_true(visited@), stack@.len(),
    {
        let ghost vis0 = visited@;
        let ghost reg0 = region@;
        let ghost st0 = stack@;
        let (cx, cy) = stack.pop().unwrap();
        let ghost e: (int, int) = (cx as int, cy as int);
        proof {
            assert(stack@ =~= st0.drop_last());
            assert(pt(st0.last()) == e);
        }
        if cx < 0 || cy < 0 || cx as i64 >= w as i64 || cy as i64 >= h as i64 {
            proof {
                lemma_flood_skip(img, x, y, tl, stop_clear, reg0, vis0, st0);
            }
            continue;
        }
        proof {
            lemma_index_bounds(cx as int, cy as int, w as int, h as int);
        }
        let i: usize = (cy as u32 * w + cx as u32) as usize;
        assert(i == fidx(e, w as int));
        if visited[i] {
            proof {
                lemma_flood_skip(img, x, y, tl, stop_clear, reg0, vis0, st0);
            }
            continue;
        }
        visited.set(i, true);
        proof {
            lemma_count_set(vis0, i as int);
            lemma_count_bound(visited@);
        }
        let p = buf.get_pixel(cx as u32, cy as u32);
        let dr: u8 = if p.r >= target.r { p.r - target.r } else { target.r - p.r };
        let dg: u8 = if p.g >= target.g { p.g - target.g } else { target.g - p.g };
        let db: u8 = if p.b >= target.b { p.b - target.b } else { target.b - p.b };
        let da: u8 = if p.a >= target.a { p.a - target.a } else { target.a - p.a };
        if dr > tol || dg > tol || db > tol || da > tol {
            proof {
                assert(!accepted(img, t, tl, e));
                lemma_flood_reject(img, x, y, tl, stop_clear, reg0, vis0, st0);
            }
            continue;
        }
        proof {
            assert(accepted(img, t, tl, e));
            lemma_flood_take(img, x, y, tl, stop_clear, reg0, vis0, st0);
        }
        region.set(i, true);
        if stop_clear && p.a == 0 {
            proof {
                assert(!spreads(img, t, tl, stop_clear, e));
                assert(stack@ =~= st0.drop_last() + Seq::empty());
            }
            continue;
        }
        stack.push((cx + 1, cy));
        stack.push((cx - 1, cy));
        stack.push((cx, cy + 1));
        stack.push((cx, cy - 1));
        proof {
            assert(spreads(img, t, tl, stop_clear, e));
            assert(stack@ =~= st0.drop_last() + neighbours(st0.last()));
        }
    }
    proof {
        assert(stack@ =~= Seq::<(i32, i32)>::empty());
        lemma_flood_done(img, x, y, tl, stop_clear, region@, visited@);
    }
    region
}

} // verus!
