use mdedit::editor::Editor;
use mdedit::filetree::{FileTree, NodeKind, TreeNode};
use mdedit::finder::FinderState;
use mdedit::input::{EditorCommand, KeyCode, KeyEvent, KeyEventKind, KeyModifiers};
use mdedit::session::{FocusZone, Request, Session};
use mdedit::sidebar::SidebarState;

fn mods(ctrl: bool, shift: bool) -> KeyModifiers {
    KeyModifiers { shift, control: ctrl, alt: false, super_key: false, hyper: false, meta: false }
}

fn press(code: KeyCode, ctrl: bool) -> KeyEvent {
    KeyEvent { code, modifiers: mods(ctrl, false), kind: KeyEventKind::Press }
}

fn file(name: &str, path: &str) -> TreeNode {
    TreeNode { name: name.to_string(), path: path.to_string(), kind: NodeKind::File, children: vec![], expanded: false }
}

fn tree() -> FileTree {
    let root = TreeNode {
        name: "r".to_string(),
        path: "/r".to_string(),
        kind: NodeKind::Directory,
        children: vec![
            TreeNode {
                name: "docs".to_string(),
                path: "/r/docs".to_string(),
                kind: NodeKind::Directory,
                children: vec![file("a.md", "/r/docs/a.md")],
                expanded: false,
            },
            file("readme.md", "/r/readme.md"),
        ],
        expanded: true,
    };
    let mut t = FileTree { root, flat_view: Vec::new(), selected_index: 0 };
    t.rebuild_flat_view();
    t
}

fn session(text: &str) -> Session {
    Session::new(Editor::from_contents(text, None), Some(SidebarState::new(tree())))
}

fn text_of(s: &Session) -> String {
    s.tabs[s.active_tab].editor.buffer.contents()
}

#[test]
fn typing_edits_the_active_document() {
    let mut s = session("");
    assert_eq!(s.handle_key(press(KeyCode::Char('h'), false)), Request::Nothing);
    assert_eq!(s.handle_key(press(KeyCode::Char('i'), false)), Request::Nothing);
    assert_eq!(text_of(&s), "hi");
    s.handle_key(press(KeyCode::Enter, false));
    assert_eq!(text_of(&s), "hi\n");
    s.handle_key(press(KeyCode::Backspace, false));
    assert_eq!(text_of(&s), "hi");
}

#[test]
fn key_releases_do_nothing() {
    let mut s = session("x");
    let ev = KeyEvent { code: KeyCode::Char('a'), modifiers: mods(false, false), kind: KeyEventKind::Release };
    assert_eq!(s.handle_key(ev), Request::Nothing);
    assert_eq!(text_of(&s), "x");
}

#[test]
fn ctrl_b_shows_and_focuses_the_sidebar() {
    let mut s = session("");
    s.handle_key(press(KeyCode::Char('b'), true));
    assert!(s.sidebar_visible);
    assert_eq!(s.focus, FocusZone::Sidebar);
    // Esc goes back to the document and leaves the sidebar shown.
    s.handle_key(press(KeyCode::Esc, false));
    assert_eq!(s.focus, FocusZone::Editor);
    assert!(s.sidebar_visible);
    // Ctrl-b from the document hides it again.
    s.handle_key(press(KeyCode::Char('b'), true));
    assert!(!s.sidebar_visible);
    assert_eq!(s.focus, FocusZone::Editor);
}

#[test]
fn sidebar_ctrl_b_hides_it() {
    let mut s = session("");
    s.handle_key(press(KeyCode::Char('b'), true));
    s.handle_key(press(KeyCode::Char('b'), true));
    assert!(!s.sidebar_visible);
    assert_eq!(s.focus, FocusZone::Editor);
}

#[test]
fn sidebar_arrows_expand_and_open() {
    let mut s = session("");
    s.handle_key(press(KeyCode::Char('b'), true));
    // Right expands the selected directory.
    assert_eq!(s.handle_key(press(KeyCode::Right, false)), Request::Nothing);
    assert_eq!(s.sidebar.as_ref().unwrap().file_tree.flat_view.len(), 3);
    // Right on an expanded directory moves down into it.
    s.handle_key(press(KeyCode::Right, false));
    assert_eq!(s.sidebar.as_ref().unwrap().file_tree.selected_index, 1);
    // Enter on a file asks to open it and focuses the document.
    assert_eq!(s.handle_key(press(KeyCode::Enter, false)), Request::OpenFile("/r/docs/a.md".to_string()));
    assert_eq!(s.focus, FocusZone::Editor);
}

#[test]
fn sidebar_left_collapses_then_moves_up() {
    let mut s = session("");
    s.handle_key(press(KeyCode::Char('b'), true));
    s.handle_key(press(KeyCode::Enter, false));
    assert_eq!(s.sidebar.as_ref().unwrap().file_tree.flat_view.len(), 3);
    s.handle_key(press(KeyCode::Left, false));
    assert_eq!(s.sidebar.as_ref().unwrap().file_tree.flat_view.len(), 2);
    s.handle_key(press(KeyCode::Down, false));
    assert_eq!(s.sidebar.as_ref().unwrap().file_tree.selected_index, 1);
    s.handle_key(press(KeyCode::Left, false));
    assert_eq!(s.sidebar.as_ref().unwrap().file_tree.selected_index, 0);
}

#[test]
fn ctrl_p_asks_for_the_finder() {
    let mut s = session("");
    assert_eq!(s.handle_key(press(KeyCode::Char('p'), true)), Request::OpenFinder);
    s.open_finder(FinderState::new("/r".to_string(), vec!["/r/a.md".to_string(), "/r/b.md".to_string()]));
    assert_eq!(s.focus, FocusZone::Finder);
    s.handle_key(press(KeyCode::Char('b'), false));
    assert_eq!(s.finder.as_ref().unwrap().query, "b");
    assert_eq!(s.handle_key(press(KeyCode::Enter, false)), Request::OpenFile("/r/b.md".to_string()));
    assert!(s.finder.is_none());
    assert_eq!(s.focus, FocusZone::Editor);
}

#[test]
fn finder_escape_closes_it() {
    let mut s = session("");
    s.open_finder(FinderState::new("/r".to_string(), vec!["/r/a.md".to_string()]));
    s.handle_key(press(KeyCode::Down, false));
    assert_eq!(s.handle_key(press(KeyCode::Esc, false)), Request::Nothing);
    assert!(s.finder.is_none());
    assert_eq!(s.focus, FocusZone::Editor);
}

#[test]
fn ctrl_q_quits_from_every_zone() {
    let mut s = session("");
    s.handle_key(press(KeyCode::Char('q'), true));
    assert!(s.should_quit);
    let mut s = session("");
    s.handle_key(press(KeyCode::Char('b'), true));
    s.handle_key(press(KeyCode::Char('q'), true));
    assert!(s.should_quit);
    let mut s = session("");
    s.open_finder(FinderState::new("/r".to_string(), vec![]));
    s.handle_key(press(KeyCode::Char('q'), true));
    assert!(s.should_quit);
}

#[test]
fn save_and_clipboard_are_requests() {
    let mut s = session("hello");
    assert_eq!(s.handle_key(press(KeyCode::Char('s'), true)), Request::SaveActive);
    assert_eq!(s.handle_key(press(KeyCode::Char('a'), true)), Request::Nothing);
    assert_eq!(s.handle_key(press(KeyCode::Char('c'), true)), Request::SetClipboard("hello".to_string()));
    assert_eq!(s.handle_key(press(KeyCode::Char('x'), true)), Request::SetClipboard("hello".to_string()));
    assert_eq!(text_of(&s), "");
    assert_eq!(s.handle_key(press(KeyCode::Char('v'), true)), Request::Paste);
    s.paste("again");
    assert_eq!(text_of(&s), "again");
}

#[test]
fn copy_without_selection_asks_nothing() {
    let mut s = session("hello");
    assert_eq!(s.handle_editor_command(EditorCommand::Copy), Request::Nothing);
}

#[test]
fn tabs_cycle_and_close() {
    let mut s = session("one");
    s.push_tab(Editor::from_contents("two", Some("/r/two.md".to_string())));
    s.push_tab(Editor::from_contents("three", None));
    assert_eq!(s.active_tab, 2);
    s.handle_key(press(KeyCode::PageDown, true));
    assert_eq!(s.active_tab, 0);
    s.handle_key(press(KeyCode::PageUp, true));
    assert_eq!(s.active_tab, 2);
    s.handle_key(press(KeyCode::Char('w'), true));
    assert_eq!(s.tabs.len(), 2);
    assert_eq!(s.active_tab, 1);
    assert_eq!(text_of(&s), "two");
    s.handle_key(press(KeyCode::Char('w'), true));
    s.handle_key(press(KeyCode::Char('w'), true));
    assert_eq!(s.tabs.len(), 1);
}

#[test]
fn tab_showing_finds_the_first_match() {
    let mut s = session("one");
    s.push_tab(Editor::from_contents("two", Some("/r/two.md".to_string())));
    let resolved = vec![None, Some("/r/two.md".to_string())];
    assert_eq!(s.tab_showing(&resolved, &"/r/two.md".to_string()), Some(1));
    assert_eq!(s.tab_showing(&resolved, &"/r/three.md".to_string()), None);
}
