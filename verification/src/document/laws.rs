//! What the document operations promise together: an undo and a redo take each other back,
//! undo takes back an addition, a deletion, a canvas resize and a flattening, and reordering
//! keeps the same layers.

use vstd::prelude::*;
use crate::document::history::{HistoryView, OpView};
use crate::document::layer::ids_ok;
use crate::document::{
    DocState, added, deleted, find_first, first_with_id, flattened, insert_pos, invert, lemma_first_unique,
    lemma_ids_fresh, lemma_ids_insert, lemma_ids_remove, moved, moved_pos, redone, renamed, resized, restorable,
    undone,
};

verus! {

/// The way back of an entry does not look at the history or the dirty flag.
proof fn lemma_invert_frame(s: DocState, op: OpView, h: HistoryView, d: bool)
    ensures
        invert(DocState { history: h, dirty: d, ..s }, op) == (
            DocState { history: h, dirty: d, ..invert(s, op).0 },
            invert(s, op).1,
        ),
{
    let s2 = DocState { history: h, dirty: d, ..s };
    assert(s2.layers == s.layers);
    match op {
        OpView::LayerRemoved { id, index, snapshot, .. } => {
            assert(restorable(s2, id, index, snapshot) == restorable(s, id, index, snapshot));
        },
        _ => {},
    }
}

/// Taking an entry back and then taking back the entry this gives restores the state and the
/// entry.
proof fn lemma_invert_twice(s: DocState, op: OpView)
    requires
        ids_ok(s.layers, s.next_id),
        s.layers.len() <= usize::MAX,
    ensures
        invert(invert(s, op).0, invert(s, op).1) == (s, op),
{
    match op {
        OpView::LayerAdded { id, active } => {
            let i = find_first(s.layers, id);
            if i >= 0 {
                assert(first_with_id(s.layers, id, i));
                lemma_ids_remove(s.layers, s.next_id, i);
                let t = invert(s, op).0;
                assert(t.layers == s.layers.remove(i));
                assert(restorable(t, id, i as usize, s.layers[i]));
                assert(t.layers.insert(i, s.layers[i]) =~= s.layers);
            }
        },
        OpView::LayerRemoved { id, index, snapshot, active } => {
            if restorable(s, id, index, snapshot) {
                let tl = s.layers.insert(index as int, snapshot);
                lemma_ids_insert(s.layers, s.next_id, index as int, snapshot);
                lemma_first_unique(tl, id, index as int);
                assert(tl.remove(index as int) =~= s.layers);
                assert(tl[index as int] == snapshot);
            }
        },
        _ => {},
    }
}

/// Undo and then redo gives back the document as it was (only marked dirty).
pub proof fn law_undo_then_redo(s0: DocState, s1: DocState, s2: DocState)
    requires
        ids_ok(s0.layers, s0.next_id),
        s0.layers.len() <= usize::MAX,
        s0.history.done.len() > 0,
        undone(s0, s1),
        redone(s1, s2),
    ensures
        s2 == (DocState { dirty: true, ..s0 }),
{
    let op = s0.history.done.last();
    let mid = DocState { history: HistoryView { done: s0.history.done.drop_last(), ..s0.history }, ..s0 };
    let r = invert(mid, op);
    lemma_invert_twice(mid, op);
    assert(s1.history.undone.drop_last() =~= s0.history.undone);
    let h1 = HistoryView { undone: s1.history.undone.drop_last(), ..s1.history };
    lemma_invert_frame(r.0, r.1, h1, true);
    lemma_invert_frame(mid, op, mid.history, true);
    assert(s0.history.done.drop_last().push(op) =~= s0.history.done);
}

/// Redo and then undo gives back the document as it was (only marked dirty).
pub proof fn law_redo_then_undo(s0: DocState, s1: DocState, s2: DocState)
    requires
        ids_ok(s0.layers, s0.next_id),
        s0.layers.len() <= usize::MAX,
        s0.history.undone.len() > 0,
        redone(s0, s1),
        undone(s1, s2),
    ensures
        s2 == (DocState { dirty: true, ..s0 }),
{
    let op = s0.history.undone.last();
    let mid = DocState { history: HistoryView { undone: s0.history.undone.drop_last(), ..s0.history }, ..s0 };
    let r = invert(mid, op);
    lemma_invert_twice(mid, op);
    assert(s1.history.done.drop_last() =~= s0.history.done);
    let h1 = HistoryView { done: s1.history.done.drop_last(), ..s1.history };
    lemma_invert_frame(r.0, r.1, h1, true);
    lemma_invert_frame(mid, op, mid.history, true);
    assert(s0.history.undone.drop_last().push(op) =~= s0.history.undone);
}

/// Undoing `add_layer` removes the added layer again: the layers and the active layer are what
/// they were before.
pub proof fn law_undo_add_layer(
    s0: DocState,
    s1: DocState,
    s2: DocState,
    name: Seq<char>,
    layer: crate::document::layer::LayerView,
    id: u32,
)
    requires
        ids_ok(s0.layers, s0.next_id),
        s0.history.cap > 0,
        added(s0, s1, name, layer, id),
        undone(s1, s2),
    ensures
        s2.layers == s0.layers,
        s2.active == s0.active,
{
    let p = insert_pos(s0.layers, s0.active);
    assert(0 <= p <= s0.layers.len()) by {
        if let Some(a) = s0.active {
            if find_first(s0.layers, a) >= 0 {
                assert(first_with_id(s0.layers, a, find_first(s0.layers, a)));
            }
        }
    }
    let v = renamed(layer, id, name);
    lemma_ids_fresh(s0.layers, s0.next_id);
    crate::document::lemma_ids_mono(s0.layers, s0.next_id, (s0.next_id + 1) as u32);
    lemma_ids_insert(s0.layers, (s0.next_id + 1) as u32, p, v);
    assert(s1.history.done.last() == OpView::LayerAdded { id, active: s0.active });
    assert(v.id == id);
    assert(s1.layers == s0.layers.insert(p, v));
    assert(first_with_id(s1.layers, id, p));
    lemma_first_unique(s1.layers, id, p);
    assert(s0.layers.insert(p, v).remove(p) =~= s0.layers);
}

/// Undoing `delete_layer` puts the deleted layer back where it was: the layers and the active
/// layer are what they were before.
pub proof fn law_undo_delete_layer(s0: DocState, s1: DocState, s2: DocState, id: u32, i: int)
    requires
        ids_ok(s0.layers, s0.next_id),
        s0.layers.len() <= usize::MAX,
        s0.history.cap > 0,
        first_with_id(s0.layers, id, i),
        deleted(s0, s1, id),
        undone(s1, s2),
    ensures
        s2.layers == s0.layers,
        s2.active == s0.active,
{
    lemma_first_unique(s0.layers, id, i);
    lemma_ids_remove(s0.layers, s0.next_id, i);
    let op = OpView::LayerRemoved { id, index: i as usize, snapshot: s0.layers[i], active: s0.active };
    assert(s1.history.done.last() == op);
    assert(s0.layers.remove(i).insert(i, s0.layers[i]) =~= s0.layers);
}

/// Undoing `resize_canvas` gives back the canvas size, the layers and the selection.
pub proof fn law_undo_resize(s0: DocState, s1: DocState, s2: DocState, w: u32, h: u32)
    requires
        s0.history.cap > 0,
        resized(s0, s1, w, h),
        !(w == s0.width && h == s0.height),
        undone(s1, s2),
    ensures
        s2.width == s0.width,
        s2.height == s0.height,
        s2.layers == s0.layers,
        s2.sel_width == s0.sel_width,
        s2.sel_height == s0.sel_height,
        s2.sel_mask == s0.sel_mask,
        s2.sel_bounds == s0.sel_bounds,
        s2.active == s0.active,
{
}

/// Undoing `flatten` gives back the layers and the active layer.
pub proof fn law_undo_flatten(s0: DocState, s1: DocState, s2: DocState, composed: crate::pixel_buffer::Image)
    requires
        s0.history.cap > 0,
        s0.layers.len() >= 2,
        flattened(s0, s1, composed),
        undone(s1, s2),
    ensures
        s2.layers == s0.layers,
        s2.active == s0.active,
{
}

/// Moving a layer keeps the same layers, and the moved layer lands at its clamped target.
pub proof fn law_move_layer_permutes(s0: DocState, s1: DocState, id: u32, dir: int, i: int)
    requires
        first_with_id(s0.layers, id, i),
        moved(s0, s1, id, dir),
    ensures
        s1.layers.len() == s0.layers.len(),
        s1.layers.to_multiset() == s0.layers.to_multiset(),
        s1.layers[moved_pos(s0.layers.len() as int, i, dir)] == s0.layers[i],
{
    lemma_first_unique(s0.layers, id, i);
    let j = moved_pos(s0.layers.len() as int, i, dir);
    if j != i {
        broadcast use vstd::seq_lib::group_to_multiset_ensures;
        s0.layers.remove(i).insert_ensures(j, s0.layers[i]);
        assert(s0.layers.remove(i).insert(j, s0.layers[i]).to_multiset() =~= s0.layers.to_multiset());
    }
}

} // verus!
