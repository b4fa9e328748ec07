//! Key bindings: from a key press to an editor or application command.
use vstd::prelude::*;

verus! {

/// The key that was pressed.
#[derive(Debug, Clone, Copy, PartialEq, Eq, Structural)]
pub enum KeyCode {
    Backspace,
    Enter,
    Left,
    Right,
    Up,
    Down,
    Home,
    End,
    PageUp,
    PageDown,
    Tab,
    BackTab,
    Delete,
    Insert,
    F(u8),
    Char(char),
    Null,
    Esc,
    /// Any other key (media keys, lone modifiers, lock keys).
    Other,
}

/// Whether the key went down, repeats, or was released.
#[derive(Debug, Clone, Copy, PartialEq, Eq, Structural)]
pub enum KeyEventKind {
    Press,
    Repeat,
    Release,
}

/// The modifier keys held with the key.
#[derive(Debug, Clone, Copy, PartialEq, Eq, Structural)]
pub struct KeyModifiers {
    pub shift: bool,
    pub control: bool,
    pub alt: bool,
    pub super_key: bool,
    pub hyper: bool,
    pub meta: bool,
}

/// A key event as the terminal reports it.
#[derive(Debug, Clone, Copy, PartialEq, Eq, Structural)]
pub struct KeyEvent {
    pub code: KeyCode,
    pub modifiers: KeyModifiers,
    pub kind: KeyEventKind,
}

#[derive(Debug, PartialEq, Eq, Structural)]
pub enum EditorCommand {
    InsertChar(char),
    InsertNewline,
    DeleteForward,
    DeleteBackward,
    MoveLeft { shift: bool },
    MoveRight { shift: bool },
    MoveUp { shift: bool },
    MoveDown { shift: bool },
    MoveHome { shift: bool },
    MoveEnd { shift: bool },
    MoveWordLeft { shift: bool },
    MoveWordRight { shift: bool },
    SelectAll,
    Copy,
    Cut,
    Paste,
    Undo,
    Redo,
    Save,
    Quit,
}

/// App-level commands intercepted before editor dispatch.
#[derive(Debug, PartialEq, Eq, Structural)]
pub enum AppCommand {
    ToggleSidebar,
    OpenFinder,
    NextTab,
    PrevTab,
    CloseTab,
    Quit,
    Save,
    Editor(EditorCommand),
}

/// The editor binding of a pressed key with the given Ctrl and Shift state.
pub open spec fn editor_binding(code: KeyCode, ctrl: bool, shift: bool) -> Option<EditorCommand> {
    match code {
        KeyCode::Char(c) => if ctrl {
            if shift {
                if c == 'z' { Some(EditorCommand::Redo) } else { None }
            } else if c == 'q' {
                Some(EditorCommand::Quit)
            } else if c == 's' {
                Some(EditorCommand::Save)
            } else if c == 'z' {
                Some(EditorCommand::Undo)
            } else if c == 'y' {
                Some(EditorCommand::Redo)
            } else if c == 'c' {
                Some(EditorCommand::Copy)
            } else if c == 'x' {
                Some(EditorCommand::Cut)
            } else if c == 'v' {
                Some(EditorCommand::Paste)
            } else if c == 'a' {
                Some(EditorCommand::SelectAll)
            } else {
                None
            }
        } else {
            Some(EditorCommand::InsertChar(c))
        },
        KeyCode::Left => if ctrl {
            Some(EditorCommand::MoveWordLeft { shift })
        } else {
            Some(EditorCommand::MoveLeft { shift })
        },
        KeyCode::Right => if ctrl {
            Some(EditorCommand::MoveWordRight { shift })
        } else {
            Some(EditorCommand::MoveRight { shift })
        },
        KeyCode::Up => if ctrl { None } else { Some(EditorCommand::MoveUp { shift }) },
        KeyCode::Down => if ctrl { None } else { Some(EditorCommand::MoveDown { shift }) },
        KeyCode::Home => Some(EditorCommand::MoveHome { shift }),
        KeyCode::End => Some(EditorCommand::MoveEnd { shift }),
        KeyCode::Enter => if !ctrl && !shift { Some(EditorCommand::InsertNewline) } else { None },
        KeyCode::Backspace => if !shift { Some(EditorCommand::DeleteBackward) } else { None },
        KeyCode::Delete => if !shift { Some(EditorCommand::DeleteForward) } else { None },
        KeyCode::Tab => if !ctrl && !shift { Some(EditorCommand::InsertChar('\t')) } else { None },
        _ => None,
    }
}

/// The application binding of a pressed key with the given Ctrl and Shift
/// state, before the editor bindings are consulted.
pub open spec fn app_binding(code: KeyCode, ctrl: bool, shift: bool) -> Option<AppCommand> {
    match code {
        KeyCode::Char(c) => if ctrl && !shift {
            if c == 'b' {
                Some(AppCommand::ToggleSidebar)
            } else if c == 'p' {
                Some(AppCommand::OpenFinder)
            } else if c == 'w' {
                Some(AppCommand::CloseTab)
            } else if c == 'q' {
                Some(AppCommand::Quit)
            } else if c == 's' {
                Some(AppCommand::Save)
            } else {
                None
            }
        } else {
            None
        },
        KeyCode::PageDown => if ctrl && !shift { Some(AppCommand::NextTab) } else { None },
        KeyCode::PageUp => if ctrl && !shift { Some(AppCommand::PrevTab) } else { None },
        KeyCode::BackTab => if ctrl { Some(AppCommand::PrevTab) } else { None },
        _ => None,
    }
}

/// The Shift flag a cursor movement command carries, or `None` for a
/// command that does not move the cursor.
pub open spec fn movement_shift(c: EditorCommand) -> Option<bool> {
    match c {
        EditorCommand::MoveLeft { shift } => Some(shift),
        EditorCommand::MoveRight { shift } => Some(shift),
        EditorCommand::MoveUp { shift } => Some(shift),
        EditorCommand::MoveDown { shift } => Some(shift),
        EditorCommand::MoveHome { shift } => Some(shift),
        EditorCommand::MoveEnd { shift } => Some(shift),
        EditorCommand::MoveWordLeft { shift } => Some(shift),
        EditorCommand::MoveWordRight { shift } => Some(shift),
        _ => None,
    }
}

/// Shift extends the selection on every movement key: a press of an
/// arrow, Home or End key that is bound (all of them, but Up and Down
/// with Ctrl) moves the cursor, and the command's Shift flag is the Shift
/// modifier of the event, in the editor bindings and in the application
/// bindings alike. Holding Shift changes nothing else: the same key with
/// Shift toggled gives a command of the same kind.
pub proof fn law_movement_shift_follows_modifier(event: KeyEvent)
    requires
        event.kind == KeyEventKind::Press,
        event.code == KeyCode::Left || event.code == KeyCode::Right || event.code == KeyCode::Up
            || event.code == KeyCode::Down || event.code == KeyCode::Home || event.code == KeyCode::End,
    ensures
        ({
            let ctrl = event.modifiers.control;
            let shift = event.modifiers.shift;
            match editor_binding(event.code, ctrl, shift) {
                Some(c) => movement_shift(c) == Some(shift) && app_command(event) == Some(
                    AppCommand::Editor(c),
                ) && (match editor_binding(event.code, ctrl, !shift) {
                    Some(d) => movement_shift(d) == Some(!shift) && d == (match c {
                        EditorCommand::MoveLeft { .. } => EditorCommand::MoveLeft { shift: !shift },
                        EditorCommand::MoveRight { .. } => EditorCommand::MoveRight { shift: !shift },
                        EditorCommand::MoveUp { .. } => EditorCommand::MoveUp { shift: !shift },
                        EditorCommand::MoveDown { .. } => EditorCommand::MoveDown { shift: !shift },
                        EditorCommand::MoveHome { .. } => EditorCommand::MoveHome { shift: !shift },
                        EditorCommand::MoveEnd { .. } => EditorCommand::MoveEnd { shift: !shift },
                        EditorCommand::MoveWordLeft { .. } => EditorCommand::MoveWordLeft { shift: !shift },
                        EditorCommand::MoveWordRight { .. } => EditorCommand::MoveWordRight { shift: !shift },
                        _ => c,
                    }),
                    None => false,
                }),
                None => ctrl && (event.code == KeyCode::Up || event.code == KeyCode::Down),
            }
        }),
{
}

/// Maps a key event to an editor command: only presses count.
pub fn map_key_event(event: KeyEvent) -> (cmd: Option<EditorCommand>)
    ensures
        cmd == (if event.kind == KeyEventKind::Press {
            editor_binding(event.code, event.modifiers.control, event.modifiers.shift)
        } else {
            None
        }),
{
    if event.kind != KeyEventKind::Press {
        return None;
    }
    let ctrl = event.modifiers.control;
    let shift = event.modifiers.shift;
    match event.code {
        KeyCode::Char(c) => {
            if ctrl {
                if shift {
                    if c == 'z' { Some(EditorCommand::Redo) } else { None }
                } else if c == 'q' {
                    Some(EditorCommand::Quit)
                } else if c == 's' {
                    Some(EditorCommand::Save)
                } else if c == 'z' {
                    Some(EditorCommand::Undo)
                } else if c == 'y' {
                    Some(EditorCommand::Redo)
                } else if c == 'c' {
                    Some(EditorCommand::Copy)
                } else if c == 'x' {
                    Some(EditorCommand::Cut)
                } else if c == 'v' {
                    Some(EditorCommand::Paste)
                } else if c == 'a' {
                    Some(EditorCommand::SelectAll)
                } else {
                    None
                }
            } else {
                Some(EditorCommand::InsertChar(c))
            }
        },
        KeyCode::Left => if ctrl {
            Some(EditorCommand::MoveWordLeft { shift })
        } else {
            Some(EditorCommand::MoveLeft { shift })
        },
        KeyCode::Right => if ctrl {
            Some(EditorCommand::MoveWordRight { shift })
        } else {
            Some(EditorCommand::MoveRight { shift })
        },
        KeyCode::Up => if ctrl { None } else { Some(EditorCommand::MoveUp { shift }) },
        KeyCode::Down => if ctrl { None } else { Some(EditorCommand::MoveDown { shift }) },
        KeyCode::Home => Some(EditorCommand::MoveHome { shift }),
        KeyCode::End => Some(EditorCommand::MoveEnd { shift }),
        KeyCode::Enter => if !ctrl && !shift { Some(EditorCommand::InsertNewline) } else { None },
        KeyCode::Backspace => if !shift { Some(EditorCommand::DeleteBackward) } else { None },
        KeyCode::Delete => if !shift { Some(EditorCommand::DeleteForward) } else { None },
        KeyCode::Tab => if !ctrl && !shift { Some(EditorCommand::InsertChar('\t')) } else { None },
        _ => None,
    }
}

/// The command of a key event: an application binding first, then an
/// editor binding; only presses count.
pub open spec fn app_command(event: KeyEvent) -> Option<AppCommand> {
    if event.kind != KeyEventKind::Press {
        None
    } else {
        match app_binding(event.code, event.modifiers.control, event.modifiers.shift) {
            Some(a) => Some(a),
            None => match editor_binding(event.code, event.modifiers.control, event.modifiers.shift) {
                Some(e) => Some(AppCommand::Editor(e)),
                None => None,
            },
        }
    }
}

/// Maps a key event to an application command first, then falls back to
/// the editor bindings.
pub fn map_app_key_event(event: KeyEvent) -> (cmd: Option<AppCommand>)
    ensures
        cmd == app_command(event),
{
    if event.kind != KeyEventKind::Press {
        return None;
    }
    let ctrl = event.modifiers.control;
    let shift = event.modifiers.shift;
    let app: Option<AppCommand> = match event.code {
        KeyCode::Char(c) => if ctrl && !shift {
            if c == 'b' {
                Some(AppCommand::ToggleSidebar)
            } else if c == 'p' {
                Some(AppCommand::OpenFinder)
            } else if c == 'w' {
                Some(AppCommand::CloseTab)
            } else if c == 'q' {
                Some(AppCommand::Quit)
            } else if c == 's' {
                Some(AppCommand::Save)
            } else {
                None
            }
        } else {
            None
        },
        KeyCode::PageDown => if ctrl && !shift { Some(AppCommand::NextTab) } else { None },
        KeyCode::PageUp => if ctrl && !shift { Some(AppCommand::PrevTab) } else { None },
        KeyCode::BackTab => if ctrl { Some(AppCommand::PrevTab) } else { None },
        _ => None,
    };
    match app {
        Some(a) => Some(a),
        None => match map_key_event(event) {
            Some(e) => Some(AppCommand::Editor(e)),
            None => None,
        },
    }
}

} // verus!
