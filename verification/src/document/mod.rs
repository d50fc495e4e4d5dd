//! Document / Layer / History: the editor's data model.

pub mod history;
pub mod laws;
pub mod layer;
pub mod selection;

use vstd::prelude::*;
use crate::color::Rgba8;
use crate::pixel_buffer::{Image, PixelBuffer, canvas_resized};
use crate::document::history::{HistoryStack, HistoryView, Operation, OpView, history_push, sel_view};
use crate::document::layer::{
    BlendMode, Layer, LayerId, LayerKind, LayerView, OPAQUE, clone_layers, ids_ok, layer_view_wf, layer_views, layers_ok,
};
use crate::document::selection::{Rect, Selection};

verus! {

/// `i` is the first position of a layer with id `id`.
pub open spec fn first_with_id(ls: Seq<LayerView>, id: LayerId, i: int) -> bool {
    &&& 0 <= i < ls.len()
    &&& ls[i].id == id
    &&& forall|j: int| 0 <= j < i ==> (#[trigger] ls[j]).id != id
}

/// No layer has id `id`.
pub open spec fn no_layer_with_id(ls: Seq<LayerView>, id: LayerId) -> bool {
    forall|j: int| 0 <= j < ls.len() ==> (#[trigger] ls[j]).id != id
}

/// A recorded operation can be replayed without breaking the document: a removed layer's
/// buffers are well formed, and stored layer lists, sizes and selections are those of a valid
/// document whose next layer id is at most `next`.
pub open spec fn op_ok(op: OpView, next: u32) -> bool {
    match op {
        OpView::LayerRemoved { snapshot, .. } => layer_view_wf(snapshot),
        OpView::LayersFlattened { layers, .. } => layers_ok(layers, next),
        OpView::CanvasResized { old, layers, sel, .. } => {
            &&& old.0 * old.1 * 4 <= u32::MAX
            &&& layers_ok(layers, next)
            &&& sel.2.wf()
            &&& sel.2.width == old.0
            &&& sel.2.height == old.1
            &&& sel.0 == old.0
            &&& sel.1 == old.1
        },
        _ => true,
    }
}

pub open spec fn history_ok(h: HistoryView, next: u32) -> bool {
    &&& forall|i: int| 0 <= i < h.done.len() ==> op_ok(#[trigger] h.done[i], next)
    &&& forall|i: int| 0 <= i < h.undone.len() ==> op_ok(#[trigger] h.undone[i], next)
}

/// A fresh transparent pixel layer named "Layer" of `w * h` pixels.
pub open spec fn fresh_pixel_layer(l: LayerView, w: nat, h: nat) -> bool {
    &&& l.name == "Layer"@
    &&& l.visible
    &&& !l.locked
    &&& l.opacity == OPAQUE
    &&& l.blend == BlendMode::Normal
    &&& l.mask is None
    &&& l.pixels.width == w
    &&& l.pixels.height == h
    &&& forall|x: int, y: int| l.pixels.in_bounds(x, y) ==> #[trigger] l.pixels.px(x, y) == Rgba8 { r: 0, g: 0, b: 0, a: 0 }
}

/// What a document holds, with its buffers seen as images.
pub struct DocState {
    pub name: Seq<char>,
    pub width: u32,
    pub height: u32,
    pub background: Rgba8,
    pub layers: Seq<LayerView>,
    pub active: Option<LayerId>,
    pub sel_width: u32,
    pub sel_height: u32,
    pub sel_mask: Image,
    pub sel_bounds: Option<Rect>,
    pub history: HistoryView,
    pub dirty: bool,
    pub next_id: u32,
}

/// The position of the first layer with id `id`, or -1.
pub open spec fn find_first(ls: Seq<LayerView>, id: LayerId) -> int {
    if exists|i: int| first_with_id(ls, id, i) {
        choose|i: int| first_with_id(ls, id, i)
    } else {
        -1
    }
}

/// The first position of an id is unique.
pub proof fn lemma_first_unique(ls: Seq<LayerView>, id: LayerId, i: int)
    requires
        first_with_id(ls, id, i),
    ensures
        find_first(ls, id) == i,
{
    let k = choose|k: int| first_with_id(ls, id, k);
    if k < i {
        assert(ls[k].id != id);
    } else if i < k {
        assert(ls[i].id != id);
    }
}

/// Without a layer of id `id`, `find_first` is -1.
pub proof fn lemma_first_none(ls: Seq<LayerView>, id: LayerId)
    requires
        no_layer_with_id(ls, id),
    ensures
        find_first(ls, id) == -1,
{
    if exists|i: int| first_with_id(ls, id, i) {
        let k = choose|k: int| first_with_id(ls, id, k);
        assert(ls[k].id != id);
    }
}

/// With distinct ids, a layer carrying `id` is the first one with it.
pub proof fn lemma_ids_first(ls: Seq<LayerView>, n: u32, i: int)
    requires
        ids_ok(ls, n),
        0 <= i < ls.len(),
    ensures
        first_with_id(ls, ls[i].id, i),
        find_first(ls, ls[i].id) == i,
{
    assert forall|j: int| 0 <= j < i implies (#[trigger] ls[j]).id != ls[i].id by {
        assert(ls[j].id != ls[i].id);
    }
    lemma_first_unique(ls, ls[i].id, i);
}

/// Nothing carries the next id to give.
pub proof fn lemma_ids_fresh(ls: Seq<LayerView>, n: u32)
    requires
        ids_ok(ls, n),
    ensures
        no_layer_with_id(ls, n),
{
}

/// A larger next id keeps the ids valid.
pub proof fn lemma_ids_mono(ls: Seq<LayerView>, n: u32, m: u32)
    requires
        ids_ok(ls, n),
        n <= m,
    ensures
        ids_ok(ls, m),
{
}

/// Removing a layer keeps the ids valid and leaves its id unused.
pub proof fn lemma_ids_remove(ls: Seq<LayerView>, n: u32, i: int)
    requires
        ids_ok(ls, n),
        0 <= i < ls.len(),
    ensures
        ids_ok(ls.remove(i), n),
        no_layer_with_id(ls.remove(i), ls[i].id),
{
    let r = ls.remove(i);
    assert forall|a: int, b: int| 0 <= a < b < r.len() implies (#[trigger] r[a]).id != (#[trigger] r[b]).id by {
        let a0 = if a < i { a } else { a + 1 };
        let b0 = if b < i { b } else { b + 1 };
        assert(r[a] == ls[a0] && r[b] == ls[b0]);
        assert(ls[a0].id != ls[b0].id);
    }
    assert forall|a: int| 0 <= a < r.len() implies (#[trigger] r[a]).id != ls[i].id by {
        let a0 = if a < i { a } else { a + 1 };
        assert(r[a] == ls[a0]);
        if a0 < i {
            assert(ls[a0].id != ls[i].id);
        } else {
            assert(ls[i].id != ls[a0].id);
        }
    }
    assert forall|a: int| 0 <= a < r.len() implies (#[trigger] r[a]).id < n by {
        let a0 = if a < i { a } else { a + 1 };
        assert(r[a] == ls[a0]);
    }
}

/// Inserting a layer with an unused id below `n` keeps the ids valid.
pub proof fn lemma_ids_insert(ls: Seq<LayerView>, n: u32, p: int, v: LayerView)
    requires
        ids_ok(ls, n),
        0 <= p <= ls.len(),
        no_layer_with_id(ls, v.id),
        v.id < n,
    ensures
        ids_ok(ls.insert(p, v), n),
        first_with_id(ls.insert(p, v), v.id, p),
{
    let r = ls.insert(p, v);
    ls.insert_ensures(p, v);
    assert forall|a: int, b: int| 0 <= a < b < r.len() implies (#[trigger] r[a]).id != (#[trigger] r[b]).id by {
        if a < p {
            if b < p {
                assert(ls[a].id != ls[b].id);
            } else if b > p {
                assert(ls[a].id != ls[b - 1].id);
            } else {
                assert(ls[a].id != v.id);
            }
        } else if a == p {
            assert(ls[b - 1].id != v.id);
        } else {
            assert(ls[a - 1].id != ls[b - 1].id);
        }
    }
    assert forall|a: int| 0 <= a < r.len() implies (#[trigger] r[a]).id < n by {
        if a < p {
            assert(r[a] == ls[a]);
        } else if a > p {
            assert(r[a] == ls[a - 1]);
        }
    }
    assert forall|j: int| 0 <= j < p implies (#[trigger] r[j]).id != v.id by {
        assert(r[j] == ls[j]);
    }
}

/// Layers with the same ids, position by position, keep the ids valid.
pub proof fn lemma_ids_same(a: Seq<LayerView>, b: Seq<LayerView>, n: u32)
    requires
        ids_ok(a, n),
        a.len() == b.len(),
        forall|i: int| 0 <= i < a.len() ==> (#[trigger] a[i]).id == b[i].id,
    ensures
        ids_ok(b, n),
{
    assert forall|i: int, j: int| 0 <= i < j < b.len() implies (#[trigger] b[i]).id != (#[trigger] b[j]).id by {
        assert(a[i].id != a[j].id);
    }
    assert forall|i: int| 0 <= i < b.len() implies (#[trigger] b[i]).id < n by {
        assert(a[i].id < n);
    }
}

/// A larger next id keeps a history valid.
pub proof fn lemma_history_mono(h: HistoryView, n: u32, m: u32)
    requires
        history_ok(h, n),
        n <= m,
    ensures
        history_ok(h, m),
{
    assert forall|i: int| 0 <= i < h.done.len() implies op_ok(#[trigger] h.done[i], m) by {
        assert(op_ok(h.done[i], n));
    }
    assert forall|i: int| 0 <= i < h.undone.len() implies op_ok(#[trigger] h.undone[i], m) by {
        assert(op_ok(h.undone[i], n));
    }
}

/// Recording a valid operation keeps a history valid.
pub proof fn lemma_history_push(h: HistoryView, op: OpView, n: u32)
    requires
        history_ok(h, n),
        op_ok(op, n),
    ensures
        history_ok(history_push(h, op), n),
{
    let d = h.done.push(op);
    assert forall|i: int| 0 <= i < d.len() implies op_ok(#[trigger] d[i], n) by {
        if i < h.done.len() {
            assert(d[i] == h.done[i]);
        }
    }
    if d.len() > h.cap {
        let e = d.drop_first();
        assert forall|i: int| 0 <= i < e.len() implies op_ok(#[trigger] e[i], n) by {
            assert(e[i] == d[i + 1]);
        }
    }
}

/// A layer view renamed and renumbered.
pub open spec fn renamed(v: LayerView, id: LayerId, name: Seq<char>) -> LayerView {
    LayerView { id, name, ..v }
}

/// Where `add_layer` inserts: just above the active layer, or on top.
pub open spec fn insert_pos(ls: Seq<LayerView>, active: Option<LayerId>) -> int {
    match active {
        Some(a) => if find_first(ls, a) >= 0 { find_first(ls, a) + 1 } else { ls.len() as int },
        None => ls.len() as int,
    }
}

/// `s1` is `s0` with `layer`, named `name`, added above the active layer under the next unused
/// id and made active; the addition is recorded with the previously active layer.
pub open spec fn added(s0: DocState, s1: DocState, name: Seq<char>, layer: LayerView, id: LayerId) -> bool {
    &&& id == s0.next_id
    &&& s0.next_id < u32::MAX
    &&& s1 == DocState {
        layers: s0.layers.insert(insert_pos(s0.layers, s0.active), renamed(layer, id, name)),
        active: Some(id),
        next_id: (id + 1) as u32,
        history: history_push(s0.history, OpView::LayerAdded { id, active: s0.active }),
        dirty: true,
        ..s0
    }
}

/// The active id after the layer at `i` was removed from `ls0`, leaving `ls1`.
pub open spec fn active_after_removal(ls1: Seq<LayerView>, i: int) -> Option<LayerId> {
    if i < ls1.len() {
        Some(ls1[i].id)
    } else if ls1.len() > 0 {
        Some(ls1.last().id)
    } else {
        None
    }
}

/// `s1` is `s0` without its first layer of id `id` (unchanged when there is none).
pub open spec fn deleted(s0: DocState, s1: DocState, id: LayerId) -> bool {
    let i = find_first(s0.layers, id);
    if i < 0 {
        s1 == s0
    } else {
        s1 == DocState {
            layers: s0.layers.remove(i),
            active: if s0.active == Some(id) { active_after_removal(s0.layers.remove(i), i) } else { s0.active },
            history: history_push(
                s0.history,
                OpView::LayerRemoved { id, index: i as usize, snapshot: s0.layers[i], active: s0.active },
            ),
            dirty: true,
            ..s0
        }
    }
}

/// The name a duplicate gets: the copied layer's name followed by " copy".
pub open spec fn copy_name(name: Seq<char>) -> Seq<char> {
    name + " copy"@
}

/// `s1` is `s0` with a copy of its first layer of id `id` inserted right above it, renamed,
/// numbered with the next unused id, active, and recorded (unchanged when there is no such layer).
pub open spec fn duplicated(s0: DocState, s1: DocState, id: LayerId) -> bool {
    let i = find_first(s0.layers, id);
    let new_id = s0.next_id;
    let name = copy_name(s0.layers[i].name);
    if i < 0 {
        s1 == s0
    } else {
        s1 == DocState {
            layers: s0.layers.insert(i + 1, renamed(s0.layers[i], new_id, name)),
            active: Some(new_id),
            next_id: (new_id + 1) as u32,
            history: history_push(s0.history, OpView::LayerAdded { id: new_id, active: s0.active }),
            dirty: true,
            ..s0
        }
    }
}

/// Where `move_layer` puts the layer at `i`: `i + dir` clamped to the stack.
pub open spec fn moved_pos(len: int, i: int, dir: int) -> int {
    if i + dir < 0 {
        0
    } else if i + dir > len - 1 {
        len - 1
    } else {
        i + dir
    }
}

/// `s1` is `s0` with its first layer of id `id` moved by `dir` places within the stack.
pub open spec fn moved(s0: DocState, s1: DocState, id: LayerId, dir: int) -> bool {
    let i = find_first(s0.layers, id);
    let j = moved_pos(s0.layers.len() as int, i, dir);
    if i < 0 || j == i {
        s1 == s0
    } else {
        s1 == DocState { layers: s0.layers.remove(i).insert(j, s0.layers[i]), dirty: true, ..s0 }
    }
}

/// `v1` is layer `v0` put on a `w * h` canvas: pixels padded with `bg`, mask with transparency.
pub open spec fn layer_resized(v0: LayerView, v1: LayerView, w: nat, h: nat, bg: Rgba8) -> bool {
    &&& v1 == LayerView { pixels: v1.pixels, mask: v1.mask, ..v0 }
    &&& canvas_resized(v0.pixels, v1.pixels, w, h, bg)
    &&& (v0.mask is None <==> v1.mask is None)
    &&& (v0.mask matches Some(m0) ==> (v1.mask matches Some(m1) && canvas_resized(
        m0,
        m1,
        w,
        h,
        Rgba8 { r: 0, g: 0, b: 0, a: 0 },
    )))
}

/// `s1` is `s0` on a `w * h` canvas, with the change recorded (unchanged for the same size).
pub open spec fn resized(s0: DocState, s1: DocState, w: u32, h: u32) -> bool {
    if w == s0.width && h == s0.height {
        s1 == s0
    } else {
        &&& s1.name == s0.name
        &&& s1.background == s0.background
        &&& s1.active == s0.active
        &&& s1.next_id == s0.next_id
        &&& s1.dirty
        &&& s1.width == w
        &&& s1.height == h
        &&& s1.layers.len() == s0.layers.len()
        &&& forall|i: int|
            0 <= i < s0.layers.len() ==> layer_resized(
                #[trigger] s0.layers[i],
                s1.layers[i],
                w as nat,
                h as nat,
                s0.background,
            )
        &&& s1.sel_width == w
        &&& s1.sel_height == h
        &&& canvas_resized(s0.sel_mask, s1.sel_mask, w as nat, h as nat, Rgba8 { r: 0, g: 0, b: 0, a: 0 })
        &&& s1.sel_bounds is None
        &&& s1.history == history_push(
            s0.history,
            OpView::CanvasResized {
                old: (s0.width, s0.height),
                new: (w, h),
                layers: s0.layers,
                sel: (s0.sel_width, s0.sel_height, s0.sel_mask, s0.sel_bounds),
            },
        )
    }
}

/// Layer `v` holding `pixels` as a plain layer: visible, opaque, normal blend and no mask.
pub open spec fn plain_with(v: LayerView, pixels: Image) -> LayerView {
    LayerView { pixels, visible: true, opacity: OPAQUE, blend: BlendMode::Normal, mask: None, ..v }
}

/// `s1` is `s0` flattened: with two or more layers, only the bottom one stays, as a plain layer
/// holding `composed`, and becomes active; the former layers are recorded.
pub open spec fn flattened(s0: DocState, s1: DocState, composed: Image) -> bool {
    if s0.layers.len() < 2 {
        s1 == s0
    } else {
        s1 == DocState {
            layers: seq![plain_with(s0.layers[0], composed)],
            active: Some(s0.layers[0].id),
            history: history_push(
                s0.history,
                OpView::LayersFlattened { count: s0.layers.len() as usize, layers: s0.layers, active: s0.active },
            ),
            dirty: true,
            ..s0
        }
    }
}

/// A removed layer can go back: its snapshot carries its id, its position is in range and
/// the id is unused and below the next id to give.
pub open spec fn restorable(s: DocState, id: LayerId, index: usize, snapshot: LayerView) -> bool {
    &&& snapshot.id == id
    &&& index <= s.layers.len()
    &&& no_layer_with_id(s.layers, id)
    &&& id < s.next_id
}

/// Applying the way back of `op` to `s`: the new state (history untouched) and the entry that
/// goes forward again. An entry that does not fit the state changes nothing and is kept.
pub open spec fn invert(s: DocState, op: OpView) -> (DocState, OpView) {
    match op {
        OpView::LayerAdded { id, active } => {
            let i = find_first(s.layers, id);
            if i >= 0 {
                (
                    DocState { layers: s.layers.remove(i), active, ..s },
                    OpView::LayerRemoved { id, index: i as usize, snapshot: s.layers[i], active: s.active },
                )
            } else {
                (s, op)
            }
        },
        OpView::LayerRemoved { id, index, snapshot, active } => {
            if restorable(s, id, index, snapshot) {
                (
                    DocState { layers: s.layers.insert(index as int, snapshot), active, ..s },
                    OpView::LayerAdded { id, active: s.active },
                )
            } else {
                (s, op)
            }
        },
        OpView::LayersFlattened { count, layers, active } => (
            DocState { layers, active, ..s },
            OpView::LayersFlattened { count, layers: s.layers, active: s.active },
        ),
        OpView::CanvasResized { old, new, layers, sel } => {
            if s.width == new.0 && s.height == new.1 {
                (
                    DocState {
                        width: old.0,
                        height: old.1,
                        layers,
                        sel_width: sel.0,
                        sel_height: sel.1,
                        sel_mask: sel.2,
                        sel_bounds: sel.3,
                        ..s
                    },
                    OpView::CanvasResized {
                        old: new,
                        new: old,
                        layers: s.layers,
                        sel: (s.sel_width, s.sel_height, s.sel_mask, s.sel_bounds),
                    },
                )
            } else {
                (s, op)
            }
        },
        OpView::PixelsChanged { .. } => (s, op),
    }
}

/// `s1` is `s0` after an undo: the newest done operation is taken back, the entry that redoes it
/// goes on the redo list and the document is marked dirty (nothing happens without one).
pub open spec fn undone(s0: DocState, s1: DocState) -> bool {
    if s0.history.done.len() == 0 {
        s1 == s0
    } else {
        let mid = DocState { history: HistoryView { done: s0.history.done.drop_last(), ..s0.history }, ..s0 };
        let r = invert(mid, s0.history.done.last());
        s1 == DocState {
            history: HistoryView { undone: mid.history.undone.push(r.1), ..mid.history },
            dirty: true,
            ..r.0
        }
    }
}

/// `s1` is `s0` after a redo: the newest undone operation is applied again, the entry that
/// undoes it goes back on the done list and the document is marked dirty (nothing happens
/// without one).
pub open spec fn redone(s0: DocState, s1: DocState) -> bool {
    if s0.history.undone.len() == 0 {
        s1 == s0
    } else {
        let mid = DocState { history: HistoryView { undone: s0.history.undone.drop_last(), ..s0.history }, ..s0 };
        let r = invert(mid, s0.history.undone.last());
        s1 == DocState { history: HistoryView { done: mid.history.done.push(r.1), ..mid.history }, dirty: true, ..r.0 }
    }
}

/// Top-level editable document (one open file).
#[derive(Debug)]
pub struct Document {
    /// Display name (file name without extension).
    pub name: String,
    pub width: u32,
    pub height: u32,
    /// Background fill used when the canvas grows.
    pub background: Rgba8,
    /// Ordered layers: index 0 is the bottom.
    pub layers: Vec<Layer>,
    /// Currently-selected layer id (if any).
    pub active_layer: Option<LayerId>,
    pub selection: Selection,
    pub history: HistoryStack,
    pub dirty: bool,
    /// The id the next new layer gets; every layer id is below it.
    pub next_layer_id: LayerId,
}

impl Document {
    /// Buffers and recorded sizes fit the `u32` arithmetic, the selection covers the canvas, and
    /// layer ids are distinct and below the next id to give.
    pub open spec fn wf(&self) -> bool {
        &&& self.width * self.height * 4 <= u32::MAX
        &&& self.selection.wf()
        &&& self.selection.width == self.width
        &&& self.selection.height == self.height
        &&& forall|i: int| 0 <= i < self.layers@.len() ==> (#[trigger] self.layers@[i]).wf()
        &&& ids_ok(self.lv(), self.next_layer_id)
        &&& history_ok(self.history@, self.next_layer_id)
    }

    pub open spec fn lv(&self) -> Seq<LayerView> {
        layer_views(self.layers@)
    }

    pub open spec fn state(&self) -> DocState {
        DocState {
            name: self.name@,
            width: self.width,
            height: self.height,
            background: self.background,
            layers: self.lv(),
            active: self.active_layer,
            sel_width: self.selection.width,
            sel_height: self.selection.height,
            sel_mask: self.selection.mask@,
            sel_bounds: self.selection.bounds,
            history: self.history@,
            dirty: self.dirty,
            next_id: self.next_layer_id,
        }
    }

    /// A document with one "Background" layer filled with `bg`, which is active.
    pub fn new(name: String, width: u32, height: u32, bg: Rgba8) -> (doc: Document)
        requires
            width * height * 4 <= u32::MAX,
        ensures
            doc.wf(),
            doc.name@ == name@,
            doc.width == width,
            doc.height == height,
            doc.background == bg,
            doc.layers@.len() == 1,
            doc.lv()[0].id == 0,
            doc.lv()[0].name == "Background"@,
            doc.lv()[0].visible,
            doc.lv()[0].opacity == OPAQUE,
            doc.lv()[0].mask is None,
            doc.lv()[0].pixels.width == width,
            doc.lv()[0].pixels.height == height,
            forall|x: int, y: int| doc.lv()[0].pixels.in_bounds(x, y) ==> #[trigger] doc.lv()[0].pixels.px(x, y) == bg,
            doc.active_layer == Some(0u32),
            doc.selection.bounds is None,
            doc.history@ == (HistoryView { done: Seq::empty(), undone: Seq::empty(), cap: 256 }),
            !doc.dirty,
            doc.next_layer_id == 1,
    {
        let layer = Layer::new_pixel("Background".to_string(), width, height, bg);
        let mut layers: Vec<Layer> = Vec::new();
        layers.push(layer);
        let doc = Document {
            name,
            width,
            height,
            background: bg,
            layers,
            active_layer: Some(0),
            selection: Selection::new(width, height),
            history: HistoryStack::new(),
            dirty: false,
            next_layer_id: 1,
        };
        proof {
            assert(doc.lv()[0] == doc.layers@[0]@);
        }
        doc
    }

    pub fn width(&self) -> (w: u32)
        ensures
            w == self.width,
    {
        self.width
    }

    pub fn height(&self) -> (h: u32)
        ensures
            h == self.height,
    {
        self.height
    }

    pub fn layer_count(&self) -> (n: usize)
        ensures
            n == self.layers@.len(),
    {
        self.layers.len()
    }

    /// The position of the first layer with id `id`.
    pub fn layer_index(&self, id: LayerId) -> (r: Option<usize>)
        ensures
            r matches Some(i) ==> first_with_id(self.lv(), id, i as int),
            r is None ==> no_layer_with_id(self.lv(), id),
    {
        let mut i: usize = 0;
        while i < self.layers.len()
            invariant
                i <= self.layers@.len(),
                forall|j: int| 0 <= j < i ==> (#[trigger] self.lv()[j]).id != id,
            decreases self.layers@.len() - i,
        {
            if self.layers[i].id == id {
                return Some(i);
            }
            i = i + 1;
        }
        None
    }

    /// The first layer with id `id`.
    pub fn layer(&self, id: LayerId) -> (r: Option<&Layer>)
        ensures
            r matches Some(l) ==> exists|i: int| first_with_id(self.lv(), id, i) && l@ == self.lv()[i],
            r is None ==> no_layer_with_id(self.lv(), id),
    {
        match self.layer_index(id) {
            Some(i) => Some(&self.layers[i]),
            None => None,
        }
    }

    /// The active layer, if there is one with the active id.
    pub fn active_layer(&self) -> (r: Option<&Layer>)
        ensures
            self.active_layer is None ==> r is None,
            self.active_layer matches Some(id) ==> (r matches Some(l) ==> exists|i: int|
                first_with_id(self.lv(), id, i) && l@ == self.lv()[i]),
            self.active_layer matches Some(id) ==> (r is None <==> no_layer_with_id(self.lv(), id)),
    {
        match self.active_layer {
            Some(id) => self.layer(id),
            None => None,
        }
    }

    /// The first layer with id `id`, writable in place.
    pub fn layer_mut(&mut self, id: LayerId) -> (r: Option<&mut Layer>)
        ensures
            r is None <==> no_layer_with_id(old(self).lv(), id),
            r is None ==> *final(self) == *old(self),
            r matches Some(l) ==> exists|i: int|
                first_with_id(old(self).lv(), id, i) && *l == old(self).layers@[i] && final(self).layers@
                    == old(self).layers@.update(i, *final(l)) && final(self).state() == (DocState {
                    layers: final(self).lv(),
                    ..old(self).state()
                }),
    {
        match self.layer_index(id) {
            Some(i) => {
                let r = &mut self.layers[i];
                Some(r)
            },
            None => None,
        }
    }

    /// The active layer, writable in place (see `layer_mut`).
    pub fn active_layer_mut(&mut self) -> (r: Option<&mut Layer>)
        ensures
            old(self).active_layer is None ==> r is None && *final(self) == *old(self),
            old(self).active_layer matches Some(id) ==> (r is None <==> no_layer_with_id(old(self).lv(), id)),
            r is None ==> *final(self) == *old(self),
            r matches Some(l) ==> exists|i: int|
                first_with_id(old(self).lv(), old(self).active_layer.unwrap(), i) && *l == old(self).layers@[i]
                    && final(self).layers@ == old(self).layers@.update(i, *final(l)) && final(self).state() == (
                DocState { layers: final(self).lv(), ..old(self).state() }),
    {
        match self.active_layer {
            Some(id) => self.layer_mut(id),
            None => None,
        }
    }

    /// Shows or hides the first layer with id `id`; unknown ids change nothing.
    pub fn set_layer_visible(&mut self, id: LayerId, v: bool)
        requires
            old(self).wf(),
        ensures
            final(self).wf(),
            no_layer_with_id(old(self).lv(), id) ==> *final(self) == *old(self),
            forall|i: int|
                first_with_id(old(self).lv(), id, i) ==> final(self).lv() == old(self).lv().update(
                    i,
                    LayerView { visible: v, ..old(self).lv()[i] },
                ) && final(self).dirty,
            final(self).width == old(self).width,
            final(self).height == old(self).height,
            final(self).active_layer == old(self).active_layer,
            final(self).history@ == old(self).history@,
    {
        if let Some(i) = self.layer_index(id) {
            self.layers[i].visible = v;
            self.dirty = true;
            assert(self.lv() =~= old(self).lv().update(i as int, LayerView { visible: v, ..old(self).lv()[i as int] }));
            proof {
                lemma_ids_same(old(self).lv(), self.lv(), self.next_layer_id);
            }
        }
    }

    /// Sets the opacity of the first layer with id `id`; unknown ids change nothing.
    pub fn set_layer_opacity(&mut self, id: LayerId, o: u16)
        requires
            old(self).wf(),
        ensures
            final(self).wf(),
            no_layer_with_id(old(self).lv(), id) ==> final(self).state() == old(self).state(),
            forall|i: int|
                first_with_id(old(self).lv(), id, i) ==> final(self).state() == (DocState {
                    layers: old(self).lv().update(i, LayerView { opacity: o, ..old(self).lv()[i] }),
                    dirty: true,
                    ..old(self).state()
                }),
    {
        if let Some(i) = self.layer_index(id) {
            self.layers[i].opacity = o;
            self.dirty = true;
            assert(self.lv() =~= old(self).lv().update(i as int, LayerView { opacity: o, ..old(self).lv()[i as int] }));
            proof {
                lemma_ids_same(old(self).lv(), self.lv(), self.next_layer_id);
            }
        }
    }

    /// Sets the blend mode of the first layer with id `id`; unknown ids change nothing.
    pub fn set_layer_blend(&mut self, id: LayerId, m: BlendMode)
        requires
            old(self).wf(),
        ensures
            final(self).wf(),
            no_layer_with_id(old(self).lv(), id) ==> final(self).state() == old(self).state(),
            forall|i: int|
                first_with_id(old(self).lv(), id, i) ==> final(self).state() == (DocState {
                    layers: old(self).lv().update(i, LayerView { blend: m, ..old(self).lv()[i] }),
                    dirty: true,
                    ..old(self).state()
                }),
    {
        if let Some(i) = self.layer_index(id) {
            self.layers[i].blend = m;
            self.dirty = true;
            assert(self.lv() =~= old(self).lv().update(i as int, LayerView { blend: m, ..old(self).lv()[i as int] }));
            proof {
                lemma_ids_same(old(self).lv(), self.lv(), self.next_layer_id);
            }
        }
    }

    /// Inserts `layer`, named `name`, just above the active layer (on top without one), gives it
    /// the next unused id, makes it active and records the addition.
    pub fn add_layer(&mut self, name: String, layer: Layer) -> (id: LayerId)
        requires
            old(self).wf(),
            layer.wf(),
            old(self).next_layer_id < u32::MAX,
        ensures
            final(self).wf(),
            added(old(self).state(), final(self).state(), name@, layer@, id),
    {
        let new_id: LayerId = self.next_layer_id;
        let insert_at: usize = match self.active_layer {
            Some(active) => match self.layer_index(active) {
                Some(i) => {
                    proof {
                        lemma_first_unique(self.lv(), active, i as int);
                    }
                    assert(i < self.layers.len());
                    i + 1
                },
                None => {
                    proof {
                        lemma_first_none(self.lv(), active);
                    }
                    self.layers.len()
                },
            },
            None => self.layers.len(),
        };
        let prev = self.active_layer;
        let mut layer = layer;
        layer.id = new_id;
        layer.name = name;
        self.layers.insert(insert_at, layer);
        self.active_layer = Some(new_id);
        self.next_layer_id = new_id + 1;
        self.history.push(Operation::LayerAdded { id: new_id, active: prev });
        self.dirty = true;
        proof {
            assert(self.lv() =~= old(self).lv().insert(insert_at as int, renamed(layer@, new_id, name@)));
            lemma_ids_fresh(old(self).lv(), new_id);
            lemma_ids_mono(old(self).lv(), new_id, self.next_layer_id);
            lemma_ids_insert(old(self).lv(), self.next_layer_id, insert_at as int, renamed(layer@, new_id, name@));
            lemma_history_mono(old(self).history@, new_id, self.next_layer_id);
            lemma_history_push(old(self).history@, OpView::LayerAdded { id: new_id, active: prev }, self.next_layer_id);
        }
        new_id
    }

    /// Removes the first layer with id `id` and records it with its position; if it was active,
    /// the layer that took its place (or else the top layer) becomes active.
    pub fn delete_layer(&mut self, id: LayerId)
        requires
            old(self).wf(),
        ensures
            final(self).wf(),
            deleted(old(self).state(), final(self).state(), id),
    {
        match self.layer_index(id) {
            Some(idx) => {
                proof {
                    lemma_first_unique(self.lv(), id, idx as int);
                    lemma_ids_remove(self.lv(), self.next_layer_id, idx as int);
                }
                let prev = self.active_layer;
                let layer = self.layers.remove(idx);
                let ghost snap = layer@;
                assert(self.lv() =~= old(self).lv().remove(idx as int));
                proof {
                    assert(snap == old(self).lv()[idx as int]);
                    lemma_history_push(
                        self.history@,
                        OpView::LayerRemoved { id, index: idx, snapshot: snap, active: prev },
                        self.next_layer_id,
                    );
                }
                self.history.push(Operation::LayerRemoved { id, index: idx, snapshot: layer, active: prev });
                if self.active_layer == Some(id) {
                    self.active_layer = if idx < self.layers.len() {
                        Some(self.layers[idx].id)
                    } else if self.layers.len() > 0 {
                        Some(self.layers[self.layers.len() - 1].id)
                    } else {
                        None
                    };
                }
                self.dirty = true;
            },
            None => {
                proof {
                    lemma_first_none(self.lv(), id);
                }
            },
        }
    }

    /// Inserts a copy of the first layer with id `id` right above it, named "<name> copy" with
    /// the next unused id, makes it active and records the addition.
    pub fn duplicate_layer(&mut self, id: LayerId)
        requires
            old(self).wf(),
            old(self).next_layer_id < u32::MAX,
        ensures
            final(self).wf(),
            duplicated(old(self).state(), final(self).state(), id),
    {
        match self.layer_index(id) {
            Some(idx) => {
                proof {
                    lemma_first_unique(self.lv(), id, idx as int);
                }
                assert(idx < self.layers.len());
                let mut dup = self.layers[idx].clone();
                let new_id: LayerId = self.next_layer_id;
                dup.id = new_id;
                dup.name.append(" copy");
                let prev = self.active_layer;
                self.layers.insert(idx + 1, dup);
                self.active_layer = Some(new_id);
                self.next_layer_id = new_id + 1;
                self.history.push(Operation::LayerAdded { id: new_id, active: prev });
                self.dirty = true;
                proof {
                    let v = renamed(old(self).lv()[idx as int], new_id, copy_name(old(self).lv()[idx as int].name));
                    assert(self.lv() =~= old(self).lv().insert(idx + 1, v));
                    lemma_ids_fresh(old(self).lv(), new_id);
                    lemma_ids_mono(old(self).lv(), new_id, self.next_layer_id);
                    lemma_ids_insert(old(self).lv(), self.next_layer_id, idx + 1, v);
                    lemma_history_mono(old(self).history@, new_id, self.next_layer_id);
                    lemma_history_push(
                        old(self).history@,
                        OpView::LayerAdded { id: new_id, active: prev },
                        self.next_layer_id,
                    );
                }
            },
            None => {
                proof {
                    lemma_first_none(self.lv(), id);
                }
            },
        }
    }

    /// Moves the first layer with id `id` by `dir` places (negative is down), clamped to the stack.
    pub fn move_layer(&mut self, id: LayerId, dir: i32)
        requires
            old(self).wf(),
            old(self).layers@.len() <= i32::MAX,
            forall|i: int| first_with_id(old(self).lv(), id, i) ==> i + dir <= i32::MAX,
        ensures
            final(self).wf(),
            moved(old(self).state(), final(self).state(), id, dir as int),
    {
        match self.layer_index(id) {
            Some(idx) => {
                proof {
                    lemma_first_unique(self.lv(), id, idx as int);
                }
                let len_i: i32 = self.layers.len() as i32;
                let target: i32 = idx as i32 + dir;
                let new_idx: usize = if target < 0 {
                    0
                } else if target > len_i - 1 {
                    (len_i - 1) as usize
                } else {
                    target as usize
                };
                if new_idx != idx {
                    let layer = self.layers.remove(idx);
                    self.layers.insert(new_idx, layer);
                    self.dirty = true;
                    proof {
                        let v = old(self).lv()[idx as int];
                        assert(self.lv() =~= old(self).lv().remove(idx as int).insert(new_idx as int, v));
                        lemma_ids_remove(old(self).lv(), self.next_layer_id, idx as int);
                        lemma_ids_insert(old(self).lv().remove(idx as int), self.next_layer_id, new_idx as int, v);
                    }
                }
            },
            None => {
                proof {
                    lemma_first_none(self.lv(), id);
                }
            },
        }
    }

    /// Changes the canvas to `new_w * new_h`: every layer keeps its overlapping pixels and is
    /// padded with the background (masks with transparency), the selection is resized and
    /// cleared of bounds, and the change is recorded. The same size changes nothing.
    pub fn resize_canvas(&mut self, new_w: u32, new_h: u32)
        requires
            old(self).wf(),
            new_w * new_h * 4 <= u32::MAX,
        ensures
            final(self).wf(),
            resized(old(self).state(), final(self).state(), new_w, new_h),
    {
        let old_w = self.width;
        let old_h = self.height;
        if new_w == old_w && new_h == old_h {
            return;
        }
        let bg = self.background;
        let saved_layers = clone_layers(&self.layers);
        let saved_selection = self.selection.clone();
        let mut i: usize = 0;
        while i < self.layers.len()
            invariant
                self.layers@.len() == old(self).layers@.len(),
                i <= self.layers@.len(),
                bg == old(self).background,
                new_w * new_h * 4 <= u32::MAX,
                forall|j: int| 0 <= j < self.layers@.len() ==> (#[trigger] self.layers@[j]).wf(),
                forall|j: int|
                    0 <= j < i ==> layer_resized(
                        #[trigger] old(self).lv()[j],
                        self.lv()[j],
                        new_w as nat,
                        new_h as nat,
                        bg,
                    ),
                forall|j: int| i <= j < self.layers@.len() ==> #[trigger] self.lv()[j] == old(self).lv()[j],
                self.width == old(self).width,
                self.height == old(self).height,
                self.name == old(self).name,
                self.background == old(self).background,
                self.active_layer == old(self).active_layer,
                self.selection == old(self).selection,
                self.history == old(self).history,
                self.dirty == old(self).dirty,
                self.next_layer_id == old(self).next_layer_id,
            decreases self.layers@.len() - i,
        {
            let ghost l0 = self.lv()[i as int];
            let ghost seq0 = self.layers@;
            match &mut self.layers[i].kind {
                LayerKind::Pixel(p) => p.resize_canvas(new_w, new_h, bg),
            }
            if let Some(m) = &mut self.layers[i].mask {
                m.resize_canvas(new_w, new_h, Rgba8::transparent());
            }
            proof {
                assert(layer_resized(l0, self.lv()[i as int], new_w as nat, new_h as nat, bg));
                assert forall|j: int| 0 <= j < seq0.len() && j != i implies #[trigger] self.lv()[j] == layer_views(
                    seq0,
                )[j] by {
                    assert(self.layers@[j] == seq0[j]);
                }
            }
            i = i + 1;
        }
        self.width = new_w;
        self.height = new_h;
        self.selection.resize(new_w, new_h);
        self.dirty = true;
        let ghost rec = OpView::CanvasResized {
            old: (old_w, old_h),
            new: (new_w, new_h),
            layers: old(self).lv(),
            sel: sel_view(old(self).selection),
        };
        proof {
            assert(layer_views(saved_layers@) == old(self).lv());
            lemma_ids_same(old(self).lv(), self.lv(), self.next_layer_id);
            assert forall|k: int| 0 <= k < old(self).lv().len() implies layer_view_wf(#[trigger] old(self).lv()[k]) by {
                assert(old(self).layers@[k].wf());
            }
            lemma_history_push(old(self).history@, rec, self.next_layer_id);
        }
        self.history.push(
            Operation::CanvasResized {
                old: (old_w, old_h),
                new: (new_w, new_h),
                layers: saved_layers,
                selection: saved_selection,
            },
        );
        proof {
            assert(canvas_resized(
                old(self).selection.mask@,
                self.selection.mask@,
                new_w as nat,
                new_h as nat,
                Rgba8 { r: 0, g: 0, b: 0, a: 0 },
            )) by {
                assert forall|x: int, y: int| self.selection.mask@.in_bounds(x, y) implies #[trigger] self.selection.mask@.px(
                    x,
                    y,
                ) == (if old(self).selection.mask@.in_bounds(x, y) {
                    old(self).selection.mask@.px(x, y)
                } else {
                    Rgba8 { r: 0, g: 0, b: 0, a: 0 }
                }) by {
                    assert(self.selection.mask.px(x, y) == (if old(self).selection.mask.in_bounds(x, y) {
                        old(self).selection.mask.px(x, y)
                    } else {
                        Rgba8 { r: 0, g: 0, b: 0, a: 0 }
                    }));
                }
            }
        }
    }

    /// Adds a transparent layer of the canvas size (see `add_layer`).
    pub fn add_pixel_layer(&mut self, name: String) -> (id: LayerId)
        requires
            old(self).wf(),
            old(self).next_layer_id < u32::MAX,
        ensures
            final(self).wf(),
            (exists|l: LayerView|
                #[trigger] added(old(self).state(), final(self).state(), name@, l, id) && fresh_pixel_layer(
                    l,
                    old(self).width as nat,
                    old(self).height as nat,
                )),
    {
        let layer = Layer::new_pixel("Layer".to_string(), self.width, self.height, Rgba8::transparent());
        let ghost lv = layer@;
        proof {
            assert forall|x: int, y: int| lv.pixels.in_bounds(x, y) implies #[trigger] lv.pixels.px(x, y) == Rgba8 {
                r: 0,
                g: 0,
                b: 0,
                a: 0,
            } by {}
        }
        let id = self.add_layer(name, layer);
        assert(added(old(self).state(), self.state(), name@, lv, id));
        id
    }

    /// Merges everything into the bottom layer: with two or more layers, the bottom layer becomes
    /// a plain layer (visible, opaque, normal blend, no mask) holding `composed`, the composite
    /// of the visible layers; the others are removed, the bottom layer becomes active and the
    /// former layers are recorded.
    pub fn flatten(&mut self, composed: PixelBuffer)
        requires
            old(self).wf(),
            composed.wf(),
        ensures
            final(self).wf(),
            flattened(old(self).state(), final(self).state(), composed@),
    {
        if self.layers.len() < 2 {
            return;
        }
        let count = self.layers.len();
        let bottom_id = self.layers[0].id;
        let bottom = Layer {
            id: bottom_id,
            name: self.layers[0].name.clone(),
            visible: true,
            locked: self.layers[0].locked,
            opacity: OPAQUE,
            blend: BlendMode::Normal,
            mask: None,
            kind: LayerKind::Pixel(composed),
        };
        let mut layers: Vec<Layer> = Vec::new();
        layers.push(bottom);
        std::mem::swap(&mut self.layers, &mut layers);
        let prev = self.active_layer;
        proof {
            assert(layer_views(layers@) == old(self).lv());
            assert forall|k: int| 0 <= k < old(self).lv().len() implies layer_view_wf(#[trigger] old(self).lv()[k]) by {
                assert(old(self).layers@[k].wf());
            }
            lemma_history_push(
                old(self).history@,
                OpView::LayersFlattened { count, layers: old(self).lv(), active: prev },
                self.next_layer_id,
            );
        }
        self.history.push(Operation::LayersFlattened { count, layers, active: prev });
        self.active_layer = Some(bottom_id);
        self.dirty = true;
        proof {
            assert(self.lv() =~= seq![plain_with(old(self).lv()[0], composed@)]);
        }
    }

    /// Applies the way back of `op` and returns the entry that goes forward again (see `invert`).
    fn apply_inverse(&mut self, op: Operation) -> (back: Operation)
        requires
            old(self).wf(),
            op_ok(op@, old(self).next_layer_id),
        ensures
            final(self).wf(),
            final(self).state() == invert(old(self).state(), op@).0,
            back@ == invert(old(self).state(), op@).1,
            op_ok(back@, old(self).next_layer_id),
    {
        let ghost s0 = self.state();
        let ghost n = self.next_layer_id;
        match op {
            Operation::LayerAdded { id, active } => {
                match self.layer_index(id) {
                    Some(i) => {
                        proof {
                            lemma_first_unique(self.lv(), id, i as int);
                            lemma_ids_remove(self.lv(), n, i as int);
                        }
                        let prev = self.active_layer;
                        let l = self.layers.remove(i);
                        self.active_layer = active;
                        assert(self.lv() =~= s0.layers.remove(i as int));
                        assert(l@ == s0.layers[i as int]);
                        Operation::LayerRemoved { id, index: i, snapshot: l, active: prev }
                    },
                    None => {
                        proof {
                            lemma_first_none(self.lv(), id);
                        }
                        Operation::LayerAdded { id, active }
                    },
                }
            },
            Operation::LayerRemoved { id, index, snapshot, active } => {
                let found = self.layer_index(id);
                if snapshot.id == id && index <= self.layers.len() && id < self.next_layer_id && found.is_none() {
                    let prev = self.active_layer;
                    let ghost sv = snapshot@;
                    self.layers.insert(index, snapshot);
                    self.active_layer = active;
                    proof {
                        assert(self.lv() =~= s0.layers.insert(index as int, sv));
                        lemma_ids_insert(s0.layers, n, index as int, sv);
                    }
                    Operation::LayerAdded { id, active: prev }
                } else {
                    proof {
                        if let Some(k) = found {
                            assert(s0.layers[k as int].id == id);
                        }
                    }
                    Operation::LayerRemoved { id, index, snapshot, active }
                }
            },
            Operation::LayersFlattened { count, layers, active } => {
                let mut layers = layers;
                std::mem::swap(&mut self.layers, &mut layers);
                let prev = self.active_layer;
                self.active_layer = active;
                proof {
                    assert forall|k: int| 0 <= k < self.layers@.len() implies (#[trigger] self.layers@[k]).wf() by {
                        assert(layer_view_wf(self.lv()[k]));
                    }
                    assert forall|k: int| 0 <= k < s0.layers.len() implies layer_view_wf(#[trigger] s0.layers[k]) by {
                        assert(layers@[k].wf());
                    }
                }
                Operation::LayersFlattened { count, layers, active: prev }
            },
            Operation::CanvasResized { old: o, new: nw, layers, selection } => {
                if self.width == nw.0 && self.height == nw.1 {
                    let mut layers = layers;
                    let mut selection = selection;
                    std::mem::swap(&mut self.layers, &mut layers);
                    std::mem::swap(&mut self.selection, &mut selection);
                    self.width = o.0;
                    self.height = o.1;
                    proof {
                        assert forall|k: int| 0 <= k < self.layers@.len() implies (#[trigger] self.layers@[k]).wf() by {
                            assert(layer_view_wf(self.lv()[k]));
                        }
                        assert forall|k: int| 0 <= k < s0.layers.len() implies layer_view_wf(#[trigger] s0.layers[k]) by {
                            assert(layers@[k].wf());
                        }
                    }
                    Operation::CanvasResized { old: nw, new: o, layers, selection }
                } else {
                    Operation::CanvasResized { old: o, new: nw, layers, selection }
                }
            },
            Operation::PixelsChanged { label } => Operation::PixelsChanged { label },
        }
    }

    /// Undoes the newest done operation; what redoes it goes on the redo list.
    pub fn undo(&mut self)
        requires
            old(self).wf(),
        ensures
            final(self).wf(),
            undone(old(self).state(), final(self).state()),
    {
        let op = match self.history.pop_done() {
            Some(op) => op,
            None => return,
        };
        proof {
            let h = old(self).history@;
            assert(op_ok(h.done[h.done.len() - 1], self.next_layer_id));
            assert forall|i: int| 0 <= i < self.history@.done.len() implies op_ok(
                #[trigger] self.history@.done[i],
                self.next_layer_id,
            ) by {
                assert(self.history@.done[i] == h.done[i]);
            }
        }
        let back = self.apply_inverse(op);
        self.history.push_undone(back);
        self.dirty = true;
        proof {
            let u = self.history@.undone;
            assert forall|i: int| 0 <= i < u.len() implies op_ok(#[trigger] u[i], self.next_layer_id) by {
                if i < u.len() - 1 {
                    assert(u[i] == old(self).history@.undone[i]);
                }
            }
        }
    }

    /// Redoes the newest undone operation; what undoes it goes back on the done list.
    pub fn redo(&mut self)
        requires
            old(self).wf(),
        ensures
            final(self).wf(),
            redone(old(self).state(), final(self).state()),
    {
        let op = match self.history.pop_undone() {
            Some(op) => op,
            None => return,
        };
        proof {
            let h = old(self).history@;
            assert(op_ok(h.undone[h.undone.len() - 1], self.next_layer_id));
            assert forall|i: int| 0 <= i < self.history@.undone.len() implies op_ok(
                #[trigger] self.history@.undone[i],
                self.next_layer_id,
            ) by {
                assert(self.history@.undone[i] == h.undone[i]);
            }
        }
        let back = self.apply_inverse(op);
        self.history.push_redone(back);
        self.dirty = true;
        proof {
            let d = self.history@.done;
            assert forall|i: int| 0 <= i < d.len() implies op_ok(#[trigger] d[i], self.next_layer_id) by {
                if i < d.len() - 1 {
                    assert(d[i] == old(self).history@.done[i]);
                }
            }
        }
    }
}

/// Every open document.
#[derive(Debug)]
pub struct DocumentStore {
    docs: Vec<Document>,
    next_id: u64,
}

impl Default for DocumentStore {
    fn default() -> (s: Self)
        ensures
            s.docs() == Seq::<Document>::empty(),
            s.next_id() == 0,
    {
        DocumentStore { docs: Vec::new(), next_id: 0 }
    }
}

impl DocumentStore {
    pub closed spec fn docs(&self) -> Seq<Document> {
        self.docs@
    }

    pub closed spec fn next_id(&self) -> u64 {
        self.next_id
    }

    /// Stores `doc` and returns its id: the count of documents ever pushed before it.
    pub fn push(&mut self, doc: Document) -> (id: u64)
        requires
            old(self).next_id() < u64::MAX,
        ensures
            id == old(self).next_id(),
            final(self).next_id() == old(self).next_id() + 1,
            final(self).docs() == old(self).docs().push(doc),
    {
        let id = self.next_id;
        self.next_id = self.next_id + 1;
        self.docs.push(doc);
        id
    }

    /// The document at position `id`, as `get_mut` finds it (ids are positions while nothing
    /// was closed).
    pub fn get(&self, id: u64) -> (r: Option<&Document>)
        ensures
            (id as usize) < self.docs().len() ==> (r matches Some(d) && *d == self.docs()[(id as usize) as int]),
            (id as usize) >= self.docs().len() ==> r is None,
    {
        if (id as usize) < self.docs.len() {
            Some(&self.docs[id as usize])
        } else {
            None
        }
    }

    /// The open documents in order.
    pub fn iter(&self) -> (it: std::slice::Iter<'_, Document>)
        ensures
            vstd::std_specs::slice::into_iter_elts(it) == self.docs(),
    {
        self.docs.iter()
    }

    /// Every stored document, mutably, in push order: a slice whose `iter_mut` walks them.
    pub fn iter_mut(&mut self) -> (s: &mut [Document])
        ensures
            s@ == old(self).docs(),
            final(self).docs() == final(s)@,
            final(self).next_id() == old(self).next_id(),
    {
        self.docs.as_mut_slice()
    }

    /// Closes the document at position `id`.
    pub fn close(&mut self, id: u64)
        requires
            (id as usize) < old(self).docs().len(),
        ensures
            final(self).docs() == old(self).docs().remove((id as usize) as int),
            final(self).next_id() == old(self).next_id(),
    {
        let _ = self.docs.remove(id as usize);
    }

    pub fn count(&self) -> (n: usize)
        ensures
            n == self.docs().len(),
    {
        self.docs.len()
    }

    /// The document at position `id` (ids are positions while nothing was closed).
    pub fn get_mut(&mut self, id: u64) -> (r: Option<&mut Document>)
        ensures
            (id as usize) < old(self).docs().len() ==> (r matches Some(d) && *d == old(self).docs()[(id as usize) as int]
                && final(self).docs() == old(self).docs().update((id as usize) as int, *final(d))),
            (id as usize) >= old(self).docs().len() ==> (r is None && final(self).docs() == old(self).docs()),
            final(self).next_id() == old(self).next_id(),
    {
        if (id as usize) < self.docs.len() {
            Some(&mut self.docs[id as usize])
        } else {
            None
        }
    }
}

} // verus!
