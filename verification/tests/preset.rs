#![allow(unused_imports, dead_code, unused_mut)]
use roam_tui::keymap::{emacs_preset, get_preset, vim_preset, vscode_preset, KeybindingMap};
use roam_tui::keys::{KeyCode, KeyEvent, KeyModifiers};
use roam_tui::preset::Action;

fn key(code: KeyCode) -> KeyEvent {
    KeyEvent::new(code, KeyModifiers::none())
}

fn ctrl(code: KeyCode) -> KeyEvent {
    KeyEvent::new(code, KeyModifiers::control())
}

fn alt(code: KeyCode) -> KeyEvent {
    KeyEvent::new(code, KeyModifiers::alt())
}

fn shift(code: KeyCode) -> KeyEvent {
    KeyEvent::new(code, KeyModifiers::shift())
}

fn has_essential_actions(preset: KeybindingMap) {
    let actions: Vec<&Action> = preset.bindings.iter().map(|b| &b.1).collect();
    assert!(actions.contains(&&Action::MoveUp), "Missing MoveUp");
    assert!(actions.contains(&&Action::MoveDown), "Missing MoveDown");
    assert!(actions.contains(&&Action::EditBlock), "Missing EditBlock");
    assert!(actions.contains(&&Action::Quit), "Missing Quit");
    assert!(actions.contains(&&Action::Search), "Missing Search");
}

#[test]
fn vim_preset_has_essential_actions() {
    has_essential_actions(vim_preset());
}

#[test]
fn emacs_preset_has_essential_actions() {
    has_essential_actions(emacs_preset());
}

#[test]
fn vscode_preset_has_essential_actions() {
    has_essential_actions(vscode_preset());
}

#[test]
fn vim_j_maps_to_move_down() {
    let preset = vim_preset();
    assert_eq!(
        preset.resolve(&key(KeyCode::Char('j'))),
        Some(&Action::MoveDown)
    );
}

#[test]
fn vim_k_maps_to_move_up() {
    let preset = vim_preset();
    assert_eq!(preset.resolve(&key(KeyCode::Char('k'))), Some(&Action::MoveUp));
}

#[test]
fn vim_q_maps_to_quit() {
    let preset = vim_preset();
    assert_eq!(preset.resolve(&key(KeyCode::Char('q'))), Some(&Action::Quit));
}

#[test]
fn emacs_ctrl_p_maps_to_move_up() {
    let preset = emacs_preset();
    assert_eq!(preset.resolve(&ctrl(KeyCode::Char('p'))), Some(&Action::MoveUp));
}

#[test]
fn vscode_arrows_for_navigation() {
    let preset = vscode_preset();
    assert_eq!(preset.resolve(&key(KeyCode::Up)), Some(&Action::MoveUp));
    assert_eq!(preset.resolve(&key(KeyCode::Down)), Some(&Action::MoveDown));
}

#[test]
fn get_preset_returns_none_for_unknown() {
    assert!(get_preset("unknown").is_none());
}

#[test]
fn get_preset_case_insensitive() {
    assert!(get_preset("Vim").is_some());
    assert!(get_preset("VIM").is_some());
    assert!(get_preset("Emacs").is_some());
    assert!(get_preset("VSCode").is_some());
}

#[test]
fn action_from_str_roundtrip() {
    assert_eq!(Action::from_str("move_up"), Some(Action::MoveUp));
    assert_eq!(Action::from_str("quit"), Some(Action::Quit));
    assert_eq!(Action::from_str("search"), Some(Action::Search));
    assert_eq!(Action::from_str("MOVE_DOWN"), Some(Action::MoveDown));
    assert_eq!(Action::from_str("nonexistent"), None);
}

#[test]
fn vim_i_maps_to_edit_block() {
    let preset = vim_preset();
    assert_eq!(
        preset.resolve(&key(KeyCode::Char('i'))),
        Some(&Action::EditBlock)
    );
}

#[test]
fn vim_o_maps_to_create_block() {
    let preset = vim_preset();
    assert_eq!(
        preset.resolve(&key(KeyCode::Char('o'))),
        Some(&Action::CreateBlock)
    );
}

#[test]
fn action_from_str_edit_create() {
    assert_eq!(Action::from_str("edit_block"), Some(Action::EditBlock));
    assert_eq!(Action::from_str("create_block"), Some(Action::CreateBlock));
}

#[test]
fn action_hint_text_returns_non_empty() {
    let actions = [
        Action::MoveUp,
        Action::MoveDown,
        Action::Quit,
        Action::Search,
        Action::Help,
    ];
    for action in &actions {
        assert!(!action.hint_text().is_empty());
    }
}

#[test]
fn vim_u_maps_to_undo() {
    let preset = vim_preset();
    assert_eq!(preset.resolve(&key(KeyCode::Char('u'))), Some(&Action::Undo));
}

#[test]
fn action_from_str_undo() {
    assert_eq!(Action::from_str("undo"), Some(Action::Undo));
}

#[test]
fn vscode_ctrl_z_maps_to_undo() {
    let preset = vscode_preset();
    assert_eq!(preset.resolve(&ctrl(KeyCode::Char('z'))), Some(&Action::Undo));
}

#[test]
fn emacs_ctrl_slash_maps_to_undo() {
    let preset = emacs_preset();
    assert_eq!(preset.resolve(&ctrl(KeyCode::Char('/'))), Some(&Action::Undo));
}

#[test]
fn vim_pagedown_maps_to_next_day() {
    let preset = vim_preset();
    assert_eq!(preset.resolve(&key(KeyCode::PageDown)), Some(&Action::NextDay));
}

#[test]
fn vim_pageup_maps_to_prev_day() {
    let preset = vim_preset();
    assert_eq!(preset.resolve(&key(KeyCode::PageUp)), Some(&Action::PrevDay));
}

#[test]
fn emacs_pagedown_maps_to_next_day() {
    let preset = emacs_preset();
    assert_eq!(preset.resolve(&key(KeyCode::PageDown)), Some(&Action::NextDay));
}

#[test]
fn emacs_pageup_maps_to_prev_day() {
    let preset = emacs_preset();
    assert_eq!(preset.resolve(&key(KeyCode::PageUp)), Some(&Action::PrevDay));
}

#[test]
fn vscode_pagedown_maps_to_next_day() {
    let preset = vscode_preset();
    assert_eq!(preset.resolve(&key(KeyCode::PageDown)), Some(&Action::NextDay));
}

#[test]
fn vscode_pageup_maps_to_prev_day() {
    let preset = vscode_preset();
    assert_eq!(preset.resolve(&key(KeyCode::PageUp)), Some(&Action::PrevDay));
}

#[test]
fn vim_left_maps_to_cursor_left() {
    let preset = vim_preset();
    assert_eq!(preset.resolve(&key(KeyCode::Left)), Some(&Action::CursorLeft));
}

#[test]
fn vim_right_maps_to_cursor_right() {
    let preset = vim_preset();
    assert_eq!(preset.resolve(&key(KeyCode::Right)), Some(&Action::CursorRight));
}

#[test]
fn vscode_left_maps_to_cursor_left_not_collapse() {
    let preset = vscode_preset();
    assert_eq!(preset.resolve(&key(KeyCode::Left)), Some(&Action::CursorLeft));
    assert_ne!(preset.resolve(&key(KeyCode::Left)), Some(&Action::Collapse));
}

#[test]
fn vscode_right_maps_to_cursor_right_not_expand() {
    let preset = vscode_preset();
    assert_eq!(preset.resolve(&key(KeyCode::Right)), Some(&Action::CursorRight));
    assert_ne!(preset.resolve(&key(KeyCode::Right)), Some(&Action::Expand));
}

#[test]
fn vscode_ctrl_left_maps_to_collapse() {
    let preset = vscode_preset();
    assert_eq!(preset.resolve(&ctrl(KeyCode::Left)), Some(&Action::Collapse));
}

#[test]
fn vscode_ctrl_right_maps_to_expand() {
    let preset = vscode_preset();
    assert_eq!(preset.resolve(&ctrl(KeyCode::Right)), Some(&Action::Expand));
}

#[test]
fn action_from_str_cursor_left_right() {
    assert_eq!(Action::from_str("cursor_left"), Some(Action::CursorLeft));
    assert_eq!(Action::from_str("cursor_right"), Some(Action::CursorRight));
}

#[test]
fn action_hint_text_cursor_left_right() {
    assert!(!Action::CursorLeft.hint_text().is_empty());
    assert!(!Action::CursorRight.hint_text().is_empty());
}
