//! Global keyboard shortcuts: which action a key press asks for.

use vstd::prelude::*;
use crate::tools::{ToolId, tool_shortcut};

verus! {

/// The keys the editor reacts to; any other key is `Other`.
#[derive(Debug, Clone, Copy, PartialEq, Eq, Structural)]
pub enum Key {
    B,
    C,
    E,
    F,
    G,
    I,
    L,
    M,
    N,
    O,
    P,
    S,
    T,
    U,
    V,
    W,
    Y,
    Z,
    Equals,
    Plus,
    Minus,
    Num0,
    Num1,
    Tab,
    Escape,
    Other,
}

/// The modifier keys held with a key press.
#[derive(Debug, Clone, Copy, PartialEq, Eq, Structural)]
pub struct Modifiers {
    pub alt: bool,
    pub ctrl: bool,
    pub shift: bool,
    pub command: bool,
}

/// What a shortcut asks the editor to do.
#[derive(Debug, Clone, Copy, PartialEq, Eq, Structural)]
pub enum ShortcutAction {
    SelectTool(ToolId),
    Undo,
    Redo,
    Save,
    Open,
    NewDocument,
    ExportFlat,
    ZoomIn,
    ZoomOut,
    ZoomReset,
    FitToView,
    TogglePanels,
    /// Clear the selection and drop any move in progress.
    Cancel,
    /// The key press is not a shortcut: it is left to the active tool.
    Ignored,
}

/// The tool a bare key selects.
pub open spec fn tool_for_key(k: Key) -> Option<ToolId> {
    match k {
        Key::B => Some(ToolId::Brush),
        Key::E => Some(ToolId::Eraser),
        Key::V => Some(ToolId::Move),
        Key::M => Some(ToolId::MarqueeRect),
        Key::L => Some(ToolId::MarqueeEllipse),
        Key::W => Some(ToolId::MagicWand),
        Key::P => Some(ToolId::Pencil),
        Key::G => Some(ToolId::Gradient),
        Key::I => Some(ToolId::Eyedropper),
        Key::T => Some(ToolId::Text),
        Key::U => Some(ToolId::ShapeRect),
        Key::O => Some(ToolId::ShapeEllipse),
        Key::C => Some(ToolId::Crop),
        _ => None,
    }
}

/// The action of key `k` with modifiers `m`, the rules tried in order: a bare tool key;
/// Shift+F for the fill tool; with Ctrl (or Command): Z undoes (without Shift or Alt), Y or Shift+Z redoes, S, O, N and E
/// save, open, create and export, `=` or `+`, `-`, 0 and 1 zoom in, out, to 100% and to fit;
/// Tab without Ctrl toggles the panels; Escape cancels. Rules that act on a document apply
/// only when one is open.
pub open spec fn shortcut(k: Key, m: Modifiers, has_doc: bool) -> ShortcutAction {
    let ctrl = m.ctrl || m.command;
    if !ctrl && !m.alt && !m.shift && tool_for_key(k) is Some {
        ShortcutAction::SelectTool(tool_for_key(k)->0)
    } else if !ctrl && !m.alt && m.shift && k == Key::F {
        ShortcutAction::SelectTool(ToolId::Fill)
    } else if ctrl && k == Key::Z && !m.shift && !m.alt && has_doc {
        ShortcutAction::Undo
    } else if ((ctrl && k == Key::Y) || (ctrl && m.shift && k == Key::Z)) && has_doc {
        ShortcutAction::Redo
    } else if ctrl && k == Key::S {
        ShortcutAction::Save
    } else if ctrl && k == Key::O {
        ShortcutAction::Open
    } else if ctrl && k == Key::N {
        ShortcutAction::NewDocument
    } else if ctrl && k == Key::E {
        ShortcutAction::ExportFlat
    } else if ctrl && (k == Key::Equals || k == Key::Plus) && has_doc {
        ShortcutAction::ZoomIn
    } else if ctrl && k == Key::Minus && has_doc {
        ShortcutAction::ZoomOut
    } else if ctrl && k == Key::Num0 && has_doc {
        ShortcutAction::ZoomReset
    } else if ctrl && k == Key::Num1 && has_doc {
        ShortcutAction::FitToView
    } else if k == Key::Tab && !ctrl {
        ShortcutAction::TogglePanels
    } else if k == Key::Escape && has_doc {
        ShortcutAction::Cancel
    } else {
        ShortcutAction::Ignored
    }
}

fn tool_for_key_exec(k: Key) -> (t: Option<ToolId>)
    ensures
        t == tool_for_key(k),
{
    match k {
        Key::B => Some(ToolId::Brush),
        Key::E => Some(ToolId::Eraser),
        Key::V => Some(ToolId::Move),
        Key::M => Some(ToolId::MarqueeRect),
        Key::L => Some(ToolId::MarqueeEllipse),
        Key::W => Some(ToolId::MagicWand),
        Key::P => Some(ToolId::Pencil),
        Key::G => Some(ToolId::Gradient),
        Key::I => Some(ToolId::Eyedropper),
        Key::T => Some(ToolId::Text),
        Key::U => Some(ToolId::ShapeRect),
        Key::O => Some(ToolId::ShapeEllipse),
        Key::C => Some(ToolId::Crop),
        _ => None,
    }
}

/// Decides what a key press does; `has_doc` tells whether a document is open. The press is
/// consumed unless the result is `Ignored`.
pub fn shortcut_action(k: Key, m: Modifiers, has_doc: bool) -> (a: ShortcutAction)
    ensures
        a == shortcut(k, m, has_doc),
{
    let ctrl = m.ctrl || m.command;
    if !ctrl && !m.alt && !m.shift {
        if let Some(t) = tool_for_key_exec(k) {
            return ShortcutAction::SelectTool(t);
        }
    }
    if !ctrl && !m.alt && m.shift && k == Key::F {
        return ShortcutAction::SelectTool(ToolId::Fill);
    }
    if ctrl && k == Key::Z && !m.shift && !m.alt && has_doc {
        return ShortcutAction::Undo;
    }
    if ((ctrl && k == Key::Y) || (ctrl && m.shift && k == Key::Z)) && has_doc {
        return ShortcutAction::Redo;
    }
    if ctrl && k == Key::S {
        return ShortcutAction::Save;
    }
    if ctrl && k == Key::O {
        return ShortcutAction::Open;
    }
    if ctrl && k == Key::N {
        return ShortcutAction::NewDocument;
    }
    if ctrl && k == Key::E {
        return ShortcutAction::ExportFlat;
    }
    if ctrl && (k == Key::Equals || k == Key::Plus) && has_doc {
        return ShortcutAction::ZoomIn;
    }
    if ctrl && k == Key::Minus && has_doc {
        return ShortcutAction::ZoomOut;
    }
    if ctrl && k == Key::Num0 && has_doc {
        return ShortcutAction::ZoomReset;
    }
    if ctrl && k == Key::Num1 && has_doc {
        return ShortcutAction::FitToView;
    }
    if k == Key::Tab && !ctrl {
        return ShortcutAction::TogglePanels;
    }
    if k == Key::Escape && has_doc {
        return ShortcutAction::Cancel;
    }
    ShortcutAction::Ignored
}

/// A bare tool key always selects its tool, with or without an open document.
pub proof fn law_tool_keys_need_no_document(k: Key, has_doc: bool)
    requires
        tool_for_key(k) is Some,
    ensures
        shortcut(k, Modifiers { alt: false, ctrl: false, shift: false, command: false }, has_doc)
            == ShortcutAction::SelectTool(tool_for_key(k)->0),
{
}

/// Without an open document no shortcut undoes, redoes, zooms or cancels.
pub proof fn law_document_actions_need_document(k: Key, m: Modifiers)
    ensures
        ({
            let a = shortcut(k, m, false);
            a != ShortcutAction::Undo && a != ShortcutAction::Redo && a != ShortcutAction::ZoomIn
                && a != ShortcutAction::ZoomOut && a != ShortcutAction::ZoomReset && a
                != ShortcutAction::FitToView && a != ShortcutAction::Cancel
        }),
{
}


/// The letter printed on key `k`, for the letter keys.
pub open spec fn key_letter(k: Key) -> Option<char> {
    match k {
        Key::B => Some('B'),
        Key::C => Some('C'),
        Key::E => Some('E'),
        Key::F => Some('F'),
        Key::G => Some('G'),
        Key::I => Some('I'),
        Key::L => Some('L'),
        Key::M => Some('M'),
        Key::N => Some('N'),
        Key::O => Some('O'),
        Key::P => Some('P'),
        Key::S => Some('S'),
        Key::T => Some('T'),
        Key::U => Some('U'),
        Key::V => Some('V'),
        Key::W => Some('W'),
        Key::Y => Some('Y'),
        Key::Z => Some('Z'),
        _ => None,
    }
}

/// Pressing, without modifiers, the key whose letter is a tool's one-letter shortcut (the one
/// the toolbar shows for it) selects that tool, with or without an open document.
pub proof fn law_tool_shortcut_selects_its_tool(t: ToolId, k: Key, has_doc: bool)
    requires
        key_letter(k) matches Some(ch) && tool_shortcut(t) == seq![ch],
    ensures
        shortcut(k, Modifiers { alt: false, ctrl: false, shift: false, command: false }, has_doc)
            == ShortcutAction::SelectTool(t),
{
    reveal_strlit("B");
    reveal_strlit("E");
    reveal_strlit("P");
    reveal_strlit("V");
    reveal_strlit("M");
    reveal_strlit("L");
    reveal_strlit("Shift+L");
    reveal_strlit("W");
    reveal_strlit("C");
    reveal_strlit("I");
    reveal_strlit("G");
    reveal_strlit("T");
    reveal_strlit("U");
    reveal_strlit("O");
    reveal_strlit("Shift+U");
    reveal_strlit("Shift+F");
    let ch = key_letter(k)->0;
    assert(tool_shortcut(t).len() == 1);
    assert(tool_shortcut(t)[0] == ch);
}

} // verus!
