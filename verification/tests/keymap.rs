use artflow::keymap::{shortcut_action, Key, Modifiers, ShortcutAction};
use artflow::tools::ToolId;

fn m(ctrl: bool, shift: bool, alt: bool) -> Modifiers {
    Modifiers { alt, ctrl, shift, command: false }
}

#[test]
fn bare_letters_select_tools() {
    assert_eq!(shortcut_action(Key::B, m(false, false, false), false), ShortcutAction::SelectTool(ToolId::Brush));
    assert_eq!(shortcut_action(Key::W, m(false, false, false), true), ShortcutAction::SelectTool(ToolId::MagicWand));
    assert_eq!(shortcut_action(Key::C, m(false, false, false), true), ShortcutAction::SelectTool(ToolId::Crop));
    assert_eq!(shortcut_action(Key::B, m(false, true, false), true), ShortcutAction::Ignored);
}

#[test]
fn undo_and_redo_need_a_document() {
    assert_eq!(shortcut_action(Key::Z, m(true, false, false), true), ShortcutAction::Undo);
    assert_eq!(shortcut_action(Key::Z, m(true, false, false), false), ShortcutAction::Ignored);
    assert_eq!(shortcut_action(Key::Z, m(true, true, false), true), ShortcutAction::Redo);
    assert_eq!(shortcut_action(Key::Y, m(true, false, false), true), ShortcutAction::Redo);
    assert_eq!(shortcut_action(Key::Z, m(true, false, true), true), ShortcutAction::Ignored);
}

#[test]
fn command_counts_as_ctrl() {
    let cmd = Modifiers { alt: false, ctrl: false, shift: false, command: true };
    assert_eq!(shortcut_action(Key::S, cmd, false), ShortcutAction::Save);
}

#[test]
fn file_shortcuts_work_without_document() {
    assert_eq!(shortcut_action(Key::S, m(true, false, false), false), ShortcutAction::Save);
    assert_eq!(shortcut_action(Key::O, m(true, false, false), false), ShortcutAction::Open);
    assert_eq!(shortcut_action(Key::N, m(true, false, false), false), ShortcutAction::NewDocument);
    assert_eq!(shortcut_action(Key::E, m(true, false, false), false), ShortcutAction::ExportFlat);
}

#[test]
fn zoom_shortcuts() {
    assert_eq!(shortcut_action(Key::Plus, m(true, false, false), true), ShortcutAction::ZoomIn);
    assert_eq!(shortcut_action(Key::Equals, m(true, false, false), true), ShortcutAction::ZoomIn);
    assert_eq!(shortcut_action(Key::Minus, m(true, false, false), true), ShortcutAction::ZoomOut);
    assert_eq!(shortcut_action(Key::Num0, m(true, false, false), true), ShortcutAction::ZoomReset);
    assert_eq!(shortcut_action(Key::Num1, m(true, false, false), true), ShortcutAction::FitToView);
    assert_eq!(shortcut_action(Key::Num1, m(true, false, false), false), ShortcutAction::Ignored);
}

#[test]
fn tab_and_escape() {
    assert_eq!(shortcut_action(Key::Tab, m(false, false, false), false), ShortcutAction::TogglePanels);
    assert_eq!(shortcut_action(Key::Tab, m(true, false, false), false), ShortcutAction::Ignored);
    assert_eq!(shortcut_action(Key::Escape, m(false, false, false), true), ShortcutAction::Cancel);
    assert_eq!(shortcut_action(Key::Escape, m(false, false, false), false), ShortcutAction::Ignored);
    assert_eq!(shortcut_action(Key::Other, m(false, false, false), true), ShortcutAction::Ignored);
}

#[test]
fn shift_f_selects_fill() {
    assert_eq!(shortcut_action(Key::F, m(false, true, false), false), ShortcutAction::SelectTool(ToolId::Fill));
    assert_eq!(shortcut_action(Key::F, m(false, false, false), false), ShortcutAction::Ignored);
    assert_eq!(shortcut_action(Key::F, m(true, true, false), true), ShortcutAction::Ignored);
}
