use mdedit::input::{
    map_app_key_event, map_key_event, AppCommand, EditorCommand, KeyCode, KeyEvent, KeyEventKind, KeyModifiers,
};

fn mods(ctrl: bool, shift: bool) -> KeyModifiers {
    KeyModifiers { shift, control: ctrl, alt: false, super_key: false, hyper: false, meta: false }
}

fn press(code: KeyCode, ctrl: bool, shift: bool) -> KeyEvent {
    KeyEvent { code, modifiers: mods(ctrl, shift), kind: KeyEventKind::Press }
}

#[test]
fn releases_are_ignored() {
    let ev = KeyEvent { code: KeyCode::Char('a'), modifiers: mods(false, false), kind: KeyEventKind::Release };
    assert_eq!(map_key_event(ev), None);
    assert_eq!(map_app_key_event(ev), None);
}

#[test]
fn plain_chars_insert() {
    assert_eq!(map_key_event(press(KeyCode::Char('x'), false, false)), Some(EditorCommand::InsertChar('x')));
    assert_eq!(map_key_event(press(KeyCode::Char('X'), false, true)), Some(EditorCommand::InsertChar('X')));
    assert_eq!(map_key_event(press(KeyCode::Tab, false, false)), Some(EditorCommand::InsertChar('\t')));
}

#[test]
fn control_bindings() {
    assert_eq!(map_key_event(press(KeyCode::Char('z'), true, false)), Some(EditorCommand::Undo));
    assert_eq!(map_key_event(press(KeyCode::Char('z'), true, true)), Some(EditorCommand::Redo));
    assert_eq!(map_key_event(press(KeyCode::Char('y'), true, false)), Some(EditorCommand::Redo));
    assert_eq!(map_key_event(press(KeyCode::Char('c'), true, false)), Some(EditorCommand::Copy));
    assert_eq!(map_key_event(press(KeyCode::Char('k'), true, false)), None);
}

#[test]
fn arrows_carry_shift() {
    assert_eq!(map_key_event(press(KeyCode::Left, true, true)), Some(EditorCommand::MoveWordLeft { shift: true }));
    assert_eq!(map_key_event(press(KeyCode::Right, false, true)), Some(EditorCommand::MoveRight { shift: true }));
    assert_eq!(map_key_event(press(KeyCode::Up, true, false)), None);
    assert_eq!(map_key_event(press(KeyCode::Home, true, false)), Some(EditorCommand::MoveHome { shift: false }));
}

#[test]
fn editing_keys() {
    assert_eq!(map_key_event(press(KeyCode::Enter, false, false)), Some(EditorCommand::InsertNewline));
    assert_eq!(map_key_event(press(KeyCode::Enter, false, true)), None);
    assert_eq!(map_key_event(press(KeyCode::Backspace, true, false)), Some(EditorCommand::DeleteBackward));
    assert_eq!(map_key_event(press(KeyCode::Delete, false, true)), None);
}

#[test]
fn app_bindings_come_first() {
    assert_eq!(map_app_key_event(press(KeyCode::Char('b'), true, false)), Some(AppCommand::ToggleSidebar));
    assert_eq!(map_app_key_event(press(KeyCode::Char('q'), true, false)), Some(AppCommand::Quit));
    assert_eq!(map_app_key_event(press(KeyCode::PageDown, true, false)), Some(AppCommand::NextTab));
    assert_eq!(map_app_key_event(press(KeyCode::BackTab, true, true)), Some(AppCommand::PrevTab));
    assert_eq!(
        map_app_key_event(press(KeyCode::Char('z'), true, false)),
        Some(AppCommand::Editor(EditorCommand::Undo))
    );
    assert_eq!(map_app_key_event(press(KeyCode::Esc, false, false)), None);
}
