//! Tool system: tool identifiers, per-tool drag state and the registry.

pub mod eyedropper;
pub mod flood;
pub mod selection;
pub mod shape;
pub mod text;
pub mod transform;

use vstd::prelude::*;
use crate::document::Document;
use crate::document::selection::{rect_fits, span_ok, spanned};
use crate::keymap::{Key, Modifiers};
use crate::tools::shape::{fits_i32, line_fits, line_fits_exec};
use crate::tools::transform::crop_rect;

verus! {

/// Tool identifier.
#[derive(Debug, Clone, Copy, PartialEq, Eq, Hash, Structural)]
pub enum ToolId {
    Brush,
    Eraser,
    Pencil,
    Move,
    MarqueeRect,
    MarqueeEllipse,
    Lasso,
    MagicWand,
    Crop,
    Eyedropper,
    Gradient,
    Text,
    ShapeRect,
    ShapeEllipse,
    ShapeLine,
    Fill,
}

/// The name of each tool.
pub open spec fn tool_label(t: ToolId) -> Seq<char> {
    match t {
        ToolId::Brush => "Brush"@,
        ToolId::Eraser => "Eraser"@,
        ToolId::Pencil => "Pencil"@,
        ToolId::Move => "Move"@,
        ToolId::MarqueeRect => "Rect Select"@,
        ToolId::MarqueeEllipse => "Ellipse Select"@,
        ToolId::Lasso => "Lasso"@,
        ToolId::MagicWand => "Magic Wand"@,
        ToolId::Crop => "Crop"@,
        ToolId::Eyedropper => "Eyedropper"@,
        ToolId::Gradient => "Gradient"@,
        ToolId::Text => "Text"@,
        ToolId::ShapeRect => "Rectangle"@,
        ToolId::ShapeEllipse => "Ellipse"@,
        ToolId::ShapeLine => "Line"@,
        ToolId::Fill => "Fill"@,
    }
}

/// The toolbar glyph of each tool.
pub open spec fn tool_icon(t: ToolId) -> Seq<char> {
    match t {
        ToolId::Brush => "🖌"@,
        ToolId::Eraser => "⌫"@,
        ToolId::Pencil => "✏"@,
        ToolId::Move => "✥"@,
        ToolId::MarqueeRect => "▭"@,
        ToolId::MarqueeEllipse => "◯"@,
        ToolId::Lasso => "⌒"@,
        ToolId::MagicWand => "✦"@,
        ToolId::Crop => "⤢"@,
        ToolId::Eyedropper => "◉"@,
        ToolId::Gradient => "▤"@,
        ToolId::Text => "T"@,
        ToolId::ShapeRect => "▢"@,
        ToolId::ShapeEllipse => "⬭"@,
        ToolId::ShapeLine => "╱"@,
        ToolId::Fill => "⏍"@,
    }
}

/// The keyboard shortcut of each tool.
pub open spec fn tool_shortcut(t: ToolId) -> Seq<char> {
    match t {
        ToolId::Brush => "B"@,
        ToolId::Eraser => "E"@,
        ToolId::Pencil => "P"@,
        ToolId::Move => "V"@,
        ToolId::MarqueeRect => "M"@,
        ToolId::MarqueeEllipse => "L"@,
        ToolId::Lasso => "Shift+L"@,
        ToolId::MagicWand => "W"@,
        ToolId::Crop => "C"@,
        ToolId::Eyedropper => "I"@,
        ToolId::Gradient => "G"@,
        ToolId::Text => "T"@,
        ToolId::ShapeRect => "U"@,
        ToolId::ShapeEllipse => "O"@,
        ToolId::ShapeLine => "Shift+U"@,
        ToolId::Fill => "Shift+F"@,
    }
}

impl ToolId {
    /// The tool's name.
    pub fn label(&self) -> (s: &'static str)
        ensures
            s@ == tool_label(*self),
    {
        match self {
            ToolId::Brush => "Brush",
            ToolId::Eraser => "Eraser",
            ToolId::Pencil => "Pencil",
            ToolId::Move => "Move",
            ToolId::MarqueeRect => "Rect Select",
            ToolId::MarqueeEllipse => "Ellipse Select",
            ToolId::Lasso => "Lasso",
            ToolId::MagicWand => "Magic Wand",
            ToolId::Crop => "Crop",
            ToolId::Eyedropper => "Eyedropper",
            ToolId::Gradient => "Gradient",
            ToolId::Text => "Text",
            ToolId::ShapeRect => "Rectangle",
            ToolId::ShapeEllipse => "Ellipse",
            ToolId::ShapeLine => "Line",
            ToolId::Fill => "Fill",
        }
    }

    /// The tool's toolbar glyph.
    pub fn icon(&self) -> (s: &'static str)
        ensures
            s@ == tool_icon(*self),
    {
        match self {
            ToolId::Brush => "🖌",
            ToolId::Eraser => "⌫",
            ToolId::Pencil => "✏",
            ToolId::Move => "✥",
            ToolId::MarqueeRect => "▭",
            ToolId::MarqueeEllipse => "◯",
            ToolId::Lasso => "⌒",
            ToolId::MagicWand => "✦",
            ToolId::Crop => "⤢",
            ToolId::Eyedropper => "◉",
            ToolId::Gradient => "▤",
            ToolId::Text => "T",
            ToolId::ShapeRect => "▢",
            ToolId::ShapeEllipse => "⬭",
            ToolId::ShapeLine => "╱",
            ToolId::Fill => "⏍",
        }
    }

    /// The tool's keyboard shortcut.
    pub fn shortcut(&self) -> (s: &'static str)
        ensures
            s@ == tool_shortcut(*self),
    {
        match self {
            ToolId::Brush => "B",
            ToolId::Eraser => "E",
            ToolId::Pencil => "P",
            ToolId::Move => "V",
            ToolId::MarqueeRect => "M",
            ToolId::MarqueeEllipse => "L",
            ToolId::Lasso => "Shift+L",
            ToolId::MagicWand => "W",
            ToolId::Crop => "C",
            ToolId::Eyedropper => "I",
            ToolId::Gradient => "G",
            ToolId::Text => "T",
            ToolId::ShapeRect => "U",
            ToolId::ShapeEllipse => "O",
            ToolId::ShapeLine => "Shift+U",
            ToolId::Fill => "Shift+F",
        }
    }
}

/// Brush tip shape.
#[derive(Debug, Clone, Copy, PartialEq, Eq, Structural)]
pub enum BrushKind {
    Round,
    Square,
}

/// What happened to the pointer on the canvas during one frame.
#[derive(Debug, Clone, Copy, PartialEq, Eq, Structural)]
pub struct PointerEvent {
    pub clicked: bool,
    pub drag_started: bool,
    pub dragged: bool,
    pub drag_stopped: bool,
}

/// Per-tool runtime state: the current drag and the last brush stamp.
#[derive(Debug, Clone, Copy)]
pub struct ToolState {
    pub drag_start: Option<(i32, i32)>,
    pub drag_cur: Option<(i32, i32)>,
    pub last_stamp: Option<(i32, i32)>,
}

impl Default for ToolState {
    fn default() -> (s: Self)
        ensures
            s.drag_start is None,
            s.drag_cur is None,
            s.last_stamp is None,
    {
        ToolState { drag_start: None, drag_cur: None, last_stamp: None }
    }
}

/// A drag that ended this frame: the start and the last point, when both were recorded.
pub open spec fn finished_drag(s: ToolState) -> Option<((i32, i32), (i32, i32))> {
    match (s.drag_start, s.drag_cur) {
        (Some(a), Some(b)) => Some((a, b)),
        _ => None,
    }
}

/// The drag state after a frame where a drag may start (at `pt`), continue (to `pt`) and stop.
pub open spec fn drag_step(s: ToolState, pt: (i32, i32), ev: PointerEvent) -> ToolState {
    let s1 = if ev.drag_started { ToolState { drag_start: Some(pt), drag_cur: Some(pt), ..s } } else { s };
    let s2 = if ev.dragged { ToolState { drag_cur: Some(pt), ..s1 } } else { s1 };
    if ev.drag_stopped { ToolState { drag_start: None, drag_cur: None, ..s2 } } else { s2 }
}

/// The drag that a frame completes: the one recorded once start and move are applied.
pub open spec fn drag_done(s: ToolState, pt: (i32, i32), ev: PointerEvent) -> Option<((i32, i32), (i32, i32))> {
    let s1 = if ev.drag_started { ToolState { drag_start: Some(pt), drag_cur: Some(pt), ..s } } else { s };
    let s2 = if ev.dragged { ToolState { drag_cur: Some(pt), ..s1 } } else { s1 };
    if ev.drag_stopped { finished_drag(s2) } else { None }
}

impl ToolState {
    /// Records a frame of a start / move / release drag and returns the drag it completes.
    pub fn track_drag(&mut self, pt: (i32, i32), ev: PointerEvent) -> (done: Option<((i32, i32), (i32, i32))>)
        ensures
            *final(self) == drag_step(*old(self), pt, ev),
            done == drag_done(*old(self), pt, ev),
    {
        if ev.drag_started {
            self.drag_start = Some(pt);
            self.drag_cur = Some(pt);
        }
        if ev.dragged {
            self.drag_cur = Some(pt);
        }
        let mut done = None;
        if ev.drag_stopped {
            done = match (self.drag_start, self.drag_cur) {
                (Some(a), Some(b)) => Some((a, b)),
                _ => None,
            };
            self.drag_start = None;
            self.drag_cur = None;
        }
        done
    }
}

/// What the active tool asks of the drag that this frame completes before it can take the
/// frame: the marquees a rectangle that fits the mask's `i32` and `u32` indexing on a canvas
/// `width` wide, the crop a top-left corner on the canvas, the line an `i32` Bresenham walk, the
/// move `i32` offsets. Frames that complete no drag, and the other tools, ask nothing.
pub open spec fn drag_acceptable(
    tool: ToolId,
    s: ToolState,
    pt: (i32, i32),
    ev: PointerEvent,
    width: u32,
    height: u32,
) -> bool {
    match drag_done(s, pt, ev) {
        None => true,
        Some((a, b)) => match tool {
            ToolId::MarqueeRect | ToolId::MarqueeEllipse => span_ok(a, b) && rect_fits(spanned(a, b), width as int),
            ToolId::Crop => span_ok(a, b) && crop_rect(a, b).0 <= width && crop_rect(a, b).1 <= height,
            ToolId::ShapeLine => line_fits(a.0 as int, a.1 as int, b.0 as int, b.1 as int),
            ToolId::Move => fits_i32(b.0 - a.0) && fits_i32(b.1 - a.1),
            _ => true,
        },
    }
}

fn span_ok_exec(a: (i32, i32), b: (i32, i32)) -> (ok: bool)
    ensures
        ok == span_ok(a, b),
{
    let dx: i64 = b.0 as i64 - a.0 as i64;
    let dy: i64 = b.1 as i64 - a.1 as i64;
    (i32::MIN as i64) < dx && dx <= i32::MAX as i64 && (i32::MIN as i64) < dy && dy <= i32::MAX as i64
}

fn marquee_fits(a: (i32, i32), b: (i32, i32), width: u32) -> (ok: bool)
    requires
        span_ok(a, b),
    ensures
        ok == rect_fits(spanned(a, b), width as int),
{
    let x: i64 = if a.0 <= b.0 { a.0 as i64 } else { b.0 as i64 };
    let y: i64 = if a.1 <= b.1 { a.1 as i64 } else { b.1 as i64 };
    let rw: i64 = if b.0 >= a.0 { b.0 as i64 - a.0 as i64 } else { a.0 as i64 - b.0 as i64 };
    let rh: i64 = if b.1 >= a.1 { b.1 as i64 - a.1 as i64 } else { a.1 as i64 - b.1 as i64 };
    let nx: i64 = if x < 0 { 0 } else { x };
    let ny: i64 = if y < 0 { 0 } else { y };
    if ny + rh > i32::MAX as i64 || nx + rw > i32::MAX as i64 {
        return false;
    }
    if rw == 0 || rh == 0 {
        return true;
    }
    let last_y: u64 = (ny + rh - 1) as u64;
    let last_x: u64 = (nx + rw - 1) as u64;
    proof {
        assert(last_y * width <= 0x7fff_ffff * 0xffff_ffff) by (nonlinear_arith)
            requires last_y <= 0x7fff_ffff, width <= 0xffff_ffff;
    }
    last_y * (width as u64) + last_x <= u32::MAX as u64
}

/// Whether the active tool can take the drag that this frame completes (see
/// `drag_acceptable`); the drag state itself is not changed.
pub fn drag_accepted(tool: ToolId, state: &ToolState, pt: (i32, i32), ev: PointerEvent, width: u32, height: u32) -> (ok:
    bool)
    ensures
        ok == drag_acceptable(tool, *state, pt, ev, width, height),
{
    let mut s = *state;
    match s.track_drag(pt, ev) {
        None => true,
        Some((a, b)) => match tool {
            ToolId::MarqueeRect | ToolId::MarqueeEllipse => span_ok_exec(a, b) && marquee_fits(a, b, width),
            ToolId::Crop => {
                if !span_ok_exec(a, b) {
                    return false;
                }
                let x0: i32 = if a.0 <= b.0 { a.0 } else { b.0 };
                let y0: i32 = if a.1 <= b.1 { a.1 } else { b.1 };
                let x: u32 = if x0 < 0 { 0 } else { x0 as u32 };
                let y: u32 = if y0 < 0 { 0 } else { y0 as u32 };
                x <= width && y <= height
            },
            ToolId::ShapeLine => line_fits_exec(a.0, a.1, b.0, b.1),
            ToolId::Move => {
                let dx: i64 = b.0 as i64 - a.0 as i64;
                let dy: i64 = b.1 as i64 - a.1 as i64;
                i32::MIN as i64 <= dx && dx <= i32::MAX as i64 && i32::MIN as i64 <= dy && dy <= i32::MAX as i64
            },
            _ => true,
        },
    }
}

/// Registry holding tool state.
#[derive(Debug)]
pub struct ToolRegistry {
    pub state: ToolState,
}

impl ToolRegistry {
    /// A registry with no drag in progress.
    pub fn new() -> (r: Self)
        ensures
            r.state.drag_start is None,
            r.state.drag_cur is None,
            r.state.last_stamp is None,
    {
        ToolRegistry { state: ToolState::default() }
    }

    /// Every tool is built in; there is nothing to register.
    pub fn register_defaults(&mut self)
        ensures
            *final(self) == *old(self),
    {
    }

    /// Offers a key press to the active tool. No tool takes keys: the press is never consumed
    /// and nothing changes.
    pub fn handle_key(&mut self, doc: &mut Document, tool: ToolId, key: Key, modifiers: Modifiers) -> (used: bool)
        ensures
            !used,
            *final(self) == *old(self),
            *final(doc) == *old(doc),
    {
        false
    }
}

} // verus!
