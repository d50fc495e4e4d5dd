//! Undo / redo stack: a coarse log of document operations, the newest last.

use vstd::prelude::*;
use crate::document::layer::{Layer, LayerId, LayerView, clone_layers, layer_views};
use crate::document::selection::{Rect, Selection};
use crate::pixel_buffer::Image;

verus! {

/// One undoable operation, holding what it takes to go back. Applying an entry's inverse gives
/// the entry that goes forward again, so the same data serves undo and redo.
#[derive(Debug)]
pub enum Operation {
    /// Layer `id` was added; going back removes it and makes `active` the active layer.
    LayerAdded { id: LayerId, active: Option<LayerId> },
    /// Layer `id` was removed from position `index`; going back re-inserts `snapshot` there and
    /// makes `active` the active layer.
    LayerRemoved { id: LayerId, index: usize, snapshot: Layer, active: Option<LayerId> },
    /// `count` layers were flattened; going back restores `layers` and `active`.
    LayersFlattened { count: usize, layers: Vec<Layer>, active: Option<LayerId> },
    /// The canvas went from `old` to `new`; going back restores the size `old` with `layers` and
    /// `selection`.
    CanvasResized { old: (u32, u32), new: (u32, u32), layers: Vec<Layer>, selection: Selection },
    /// Marker for a region of pixel changes.
    PixelsChanged { label: String },
}

/// A selection seen as its size, mask image and bounds.
pub type SelView = (u32, u32, Image, Option<Rect>);

pub open spec fn sel_view(s: Selection) -> SelView {
    (s.width, s.height, s.mask@, s.bounds)
}

/// An operation with its layers and selection seen as views.
pub enum OpView {
    LayerAdded { id: LayerId, active: Option<LayerId> },
    LayerRemoved { id: LayerId, index: usize, snapshot: LayerView, active: Option<LayerId> },
    LayersFlattened { count: usize, layers: Seq<LayerView>, active: Option<LayerId> },
    CanvasResized { old: (u32, u32), new: (u32, u32), layers: Seq<LayerView>, sel: SelView },
    PixelsChanged { label: Seq<char> },
}

impl View for Operation {
    type V = OpView;

    open spec fn view(&self) -> OpView {
        match self {
            Operation::LayerAdded { id, active } => OpView::LayerAdded { id: *id, active: *active },
            Operation::LayerRemoved { id, index, snapshot, active } => OpView::LayerRemoved {
                id: *id,
                index: *index,
                snapshot: snapshot@,
                active: *active,
            },
            Operation::LayersFlattened { count, layers, active } => OpView::LayersFlattened {
                count: *count,
                layers: layer_views(layers@),
                active: *active,
            },
            Operation::CanvasResized { old, new, layers, selection } => OpView::CanvasResized {
                old: *old,
                new: *new,
                layers: layer_views(layers@),
                sel: sel_view(*selection),
            },
            Operation::PixelsChanged { label } => OpView::PixelsChanged { label: label@ },
        }
    }
}

impl Clone for Operation {
    fn clone(&self) -> (res: Self)
        ensures
            res@ == self@,
    {
        match self {
            Operation::LayerAdded { id, active } => Operation::LayerAdded { id: *id, active: *active },
            Operation::LayerRemoved { id, index, snapshot, active } => Operation::LayerRemoved {
                id: *id,
                index: *index,
                snapshot: snapshot.clone(),
                active: *active,
            },
            Operation::LayersFlattened { count, layers, active } => Operation::LayersFlattened {
                count: *count,
                layers: clone_layers(layers),
                active: *active,
            },
            Operation::CanvasResized { old, new, layers, selection } => Operation::CanvasResized {
                old: *old,
                new: *new,
                layers: clone_layers(layers),
                selection: selection.clone(),
            },
            Operation::PixelsChanged { label } => Operation::PixelsChanged { label: label.clone() },
        }
    }
}

/// The views of a sequence of operations.
pub open spec fn op_views(ops: Seq<Operation>) -> Seq<OpView> {
    ops.map_values(|o: Operation| o@)
}

/// A history: the operations done (newest last), those undone (next to redo last), and the
/// number of done operations it keeps.
pub struct HistoryView {
    pub done: Seq<OpView>,
    pub undone: Seq<OpView>,
    pub cap: nat,
}

/// Recording `op`: it goes on top of the done list, the oldest entry is dropped once the list
/// exceeds the cap, and the redo list is emptied.
pub open spec fn history_push(h: HistoryView, op: OpView) -> HistoryView {
    let d = h.done.push(op);
    HistoryView { done: if d.len() > h.cap { d.drop_first() } else { d }, undone: Seq::empty(), cap: h.cap }
}

/// Undoing: the newest done operation moves onto the redo list (nothing happens on an empty list).
pub open spec fn history_undo(h: HistoryView) -> HistoryView {
    if h.done.len() == 0 {
        h
    } else {
        HistoryView { done: h.done.drop_last(), undone: h.undone.push(h.done.last()), cap: h.cap }
    }
}

/// Redoing: the newest undone operation moves back onto the done list.
pub open spec fn history_redo(h: HistoryView) -> HistoryView {
    if h.undone.len() == 0 {
        h
    } else {
        HistoryView { done: h.done.push(h.undone.last()), undone: h.undone.drop_last(), cap: h.cap }
    }
}

/// Undo / redo stack.
#[derive(Debug)]
pub struct HistoryStack {
    done: Vec<Operation>,
    undone: Vec<Operation>,
    cap: usize,
}

impl View for HistoryStack {
    type V = HistoryView;

    closed spec fn view(&self) -> HistoryView {
        HistoryView { done: op_views(self.done@), undone: op_views(self.undone@), cap: self.cap as nat }
    }
}

impl Default for HistoryStack {
    /// An empty history that keeps no operation.
    fn default() -> (h: Self)
        ensures
            h@ == (HistoryView { done: Seq::empty(), undone: Seq::empty(), cap: 0 }),
    {
        let h = HistoryStack { done: Vec::new(), undone: Vec::new(), cap: 0 };
        assert(h@.done =~= Seq::empty());
        assert(h@.undone =~= Seq::empty());
        h
    }
}

impl HistoryStack {
    /// An empty history that keeps the latest 256 operations.
    pub fn new() -> (h: Self)
        ensures
            h@ == (HistoryView { done: Seq::empty(), undone: Seq::empty(), cap: 256 }),
    {
        let h = HistoryStack { done: Vec::new(), undone: Vec::new(), cap: 256 };
        assert(h@.done =~= Seq::empty());
        assert(h@.undone =~= Seq::empty());
        h
    }

    pub fn push(&mut self, op: Operation)
        ensures
            final(self)@ == history_push(old(self)@, op@),
    {
        let ghost v0 = self@;
        self.done.push(op);
        assert(op_views(self.done@) =~= v0.done.push(op@));
        if self.done.len() > self.cap {
            let _ = self.done.remove(0);
            assert(op_views(self.done@) =~= v0.done.push(op@).drop_first());
        }
        self.undone.clear();
        assert(op_views(self.undone@) =~= Seq::empty());
    }

    pub fn undo(&mut self) -> (r: Option<Operation>)
        ensures
            final(self)@ == history_undo(old(self)@),
            old(self)@.done.len() == 0 <==> r is None,
            r matches Some(op) ==> op@ == old(self)@.done.last(),
    {
        let ghost v0 = self@;
        match self.done.pop() {
            None => {
                assert(self@ == v0);
                None
            },
            Some(op) => {
                self.undone.push(op.clone());
                assert(op_views(self.done@) =~= v0.done.drop_last());
                assert(op_views(self.undone@) =~= v0.undone.push(v0.done.last()));
                Some(op)
            },
        }
    }

    pub fn redo(&mut self) -> (r: Option<Operation>)
        ensures
            final(self)@ == history_redo(old(self)@),
            old(self)@.undone.len() == 0 <==> r is None,
            r matches Some(op) ==> op@ == old(self)@.undone.last(),
    {
        let ghost v0 = self@;
        match self.undone.pop() {
            None => {
                assert(self@ == v0);
                None
            },
            Some(op) => {
                self.done.push(op.clone());
                assert(op_views(self.undone@) =~= v0.undone.drop_last());
                assert(op_views(self.done@) =~= v0.done.push(v0.undone.last()));
                Some(op)
            },
        }
    }

    /// Takes the newest done operation off the done list.
    pub fn pop_done(&mut self) -> (r: Option<Operation>)
        ensures
            old(self)@.done.len() == 0 <==> r is None,
            r is None ==> final(self)@ == old(self)@,
            r matches Some(op) ==> op@ == old(self)@.done.last() && final(self)@ == (HistoryView {
                done: old(self)@.done.drop_last(),
                ..old(self)@
            }),
    {
        let ghost v0 = self@;
        let r = self.done.pop();
        proof {
            if r is Some {
                assert(op_views(self.done@) =~= v0.done.drop_last());
            } else {
                assert(self@ == v0);
            }
        }
        r
    }

    /// Takes the newest undone operation off the redo list.
    pub fn pop_undone(&mut self) -> (r: Option<Operation>)
        ensures
            old(self)@.undone.len() == 0 <==> r is None,
            r is None ==> final(self)@ == old(self)@,
            r matches Some(op) ==> op@ == old(self)@.undone.last() && final(self)@ == (HistoryView {
                undone: old(self)@.undone.drop_last(),
                ..old(self)@
            }),
    {
        let ghost v0 = self@;
        let r = self.undone.pop();
        proof {
            if r is Some {
                assert(op_views(self.undone@) =~= v0.undone.drop_last());
            } else {
                assert(self@ == v0);
            }
        }
        r
    }

    /// Puts `op` on top of the redo list.
    pub fn push_undone(&mut self, op: Operation)
        ensures
            final(self)@ == (HistoryView { undone: old(self)@.undone.push(op@), ..old(self)@ }),
    {
        let ghost v0 = self@;
        self.undone.push(op);
        assert(op_views(self.undone@) =~= v0.undone.push(op@));
    }

    /// Puts `op` on top of the done list, keeping the redo list.
    pub fn push_redone(&mut self, op: Operation)
        ensures
            final(self)@ == (HistoryView { done: old(self)@.done.push(op@), ..old(self)@ }),
    {
        let ghost v0 = self@;
        self.done.push(op);
        assert(op_views(self.done@) =~= v0.done.push(op@));
    }

    pub fn can_undo(&self) -> (b: bool)
        ensures
            b == (self@.done.len() > 0),
    {
        !self.done.is_empty()
    }

    pub fn can_redo(&self) -> (b: bool)
        ensures
            b == (self@.undone.len() > 0),
    {
        !self.undone.is_empty()
    }

    pub fn clear(&mut self)
        ensures
            final(self)@ == (HistoryView { done: Seq::empty(), undone: Seq::empty(), cap: old(self)@.cap }),
    {
        self.done.clear();
        self.undone.clear();
        assert(op_views(self.done@) =~= Seq::empty());
        assert(op_views(self.undone@) =~= Seq::empty());
    }
}

/// Undoing an operation that was just recorded gives it back: the done list returns to what it
/// was (when it was below the cap) and the operation is the only one to redo.
pub proof fn law_undo_after_push(h: HistoryView, op: OpView)
    requires
        h.done.len() < h.cap,
    ensures
        history_undo(history_push(h, op)).done == h.done,
        history_undo(history_push(h, op)).undone == seq![op],
{
    assert(h.done.push(op).drop_last() =~= h.done);
    assert(Seq::<OpView>::empty().push(op) =~= seq![op]);
}

/// Redo undoes an undo: the history comes back exactly.
pub proof fn law_redo_after_undo(h: HistoryView)
    requires
        h.done.len() > 0,
    ensures
        history_redo(history_undo(h)) == h,
{
    assert(h.done.drop_last().push(h.done.last()) =~= h.done);
    assert(h.undone.push(h.done.last()).drop_last() =~= h.undone);
}

/// Undo undoes a redo: the history comes back exactly.
pub proof fn law_undo_after_redo(h: HistoryView)
    requires
        h.undone.len() > 0,
    ensures
        history_undo(history_redo(h)) == h,
{
    assert(h.undone.drop_last().push(h.undone.last()) =~= h.undone);
    assert(h.done.push(h.undone.last()).drop_last() =~= h.done);
}

/// Recording never lets the done list grow past the cap, and always empties the redo list.
pub proof fn law_push_respects_cap(h: HistoryView, op: OpView)
    requires
        h.done.len() <= h.cap,
    ensures
        history_push(h, op).done.len() <= h.cap,
        history_push(h, op).undone.len() == 0,
        history_push(h, op).done.len() > 0 ==> history_push(h, op).done.last() == op,
{
}

} // verus!
