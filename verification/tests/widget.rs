use mdedit::editor::Editor;
use mdedit::filetree::FileTree;
use mdedit::finder::{FinderState, FinderWidget, Rect};
use mdedit::markdown::MarkdownState;
use mdedit::render::code_block::CodeHighlighter;
use mdedit::render::engine::compute_render_lines;
use mdedit::render::widget::{render_text_line, status_line, EditorWidget, Paint};
use mdedit::sidebar::{SidebarState, SidebarWidget};

fn lines_for(e: &Editor) -> Vec<mdedit::render::plan::RenderLine> {
    let mut state = MarkdownState::new();
    state.parse_full(&e.buffer);
    let n = e.buffer.len_lines();
    compute_render_lines(&CodeHighlighter::new(), &state, &e.buffer, 999_999, 0, n)
}

fn row_text(paints: &[Paint], y: usize) -> String {
    let mut row: Vec<(usize, &str)> = paints.iter().filter(|p| p.y == y).map(|p| (p.x, p.text.as_str())).collect();
    row.sort_by_key(|r| r.0);
    row.iter().map(|r| r.1).collect()
}

#[test]
fn status_line_names_file_and_position() {
    let e = Editor::from_contents("hello\nworld", Some("/tmp/dir/notes.md".to_string()));
    let s = status_line(&e, 40);
    assert_eq!(s, " notes.md            Ln 1, Col 1  UTF-8 ");
    assert_eq!(s.chars().count(), 40);
}

#[test]
fn status_line_marks_unsaved_and_untitled() {
    let mut e = Editor::from_contents("", None);
    e.insert_char('x');
    let s = status_line(&e, 10);
    assert_eq!(s, " [untitled] [+]Ln 1, Col 2  UTF-8 ");
}

#[test]
fn long_line_wraps_over_rows() {
    let e = Editor::from_contents("abcdefghij\n", None);
    let lines = lines_for(&e);
    let mut out = Vec::new();
    let rows = render_text_line(&lines[0], 0, 4, 10, &e, &mut out);
    assert_eq!(rows, 3);
    assert_eq!(row_text(&out, 0), "abcd");
    assert_eq!(row_text(&out, 1), "efgh");
    assert_eq!(row_text(&out, 2), "ij");
}

#[test]
fn zero_width_viewport_paints_nothing() {
    let e = Editor::from_contents("abc\n", None);
    let lines = lines_for(&e);
    let mut out = Vec::new();
    assert_eq!(render_text_line(&lines[0], 0, 0, 10, &e, &mut out), 1);
    assert!(out.is_empty());
}

#[test]
fn layout_marks_rows_below_text() {
    let e = Editor::from_contents("one\ntwo", None);
    let lines = lines_for(&e);
    let w = EditorWidget { editor: &e, render_lines: &lines, images: false, skip_unchanged_images: false };
    let (paints, slots) = w.layout(20, 4);
    assert!(slots.is_empty());
    assert_eq!(row_text(&paints, 0), "one");
    assert_eq!(row_text(&paints, 1), "two");
    assert_eq!(row_text(&paints, 2), "~");
    assert_eq!(row_text(&paints, 3), "~");
}

#[test]
fn sidebar_draws_entries_with_dirty_marker() {
    let tree = FileTree::scan(&"/r".to_string(), vec!["/r/docs/a.md".to_string(), "/r/b.md".to_string()]);
    let state = SidebarState::new(tree);
    let dirty = vec![Some("/r/b.md".to_string())];
    let w = SidebarWidget { state: &state, focused: true, dirty_paths: &dirty };
    let paints = w.draw(Rect { x: 0, y: 0, width: 12, height: 3 });
    assert!(paints.iter().any(|p| p.y == 0 && p.x == 0 && p.text == "▶ docs"));
    assert!(paints.iter().any(|p| p.y == 1 && p.x == 0 && p.text == "  b.md ●"));
    assert!(paints.iter().all(|p| p.x + p.text.chars().count() <= 11));
}

#[test]
fn finder_popup_shows_query_and_count() {
    let mut f = FinderState::new("/r".to_string(), vec!["/r/b.md".to_string(), "/r/a.md".to_string()]);
    f.insert_char('a');
    let paints = FinderWidget { state: &f }.draw(Rect { x: 0, y: 0, width: 50, height: 20 });
    assert!(paints.iter().any(|p| p.text == " > a"));
    assert!(paints.iter().any(|p| p.text == "1 files"));
    assert!(paints.iter().any(|p| p.text.starts_with('┌') && p.text.ends_with('┐')));
}
