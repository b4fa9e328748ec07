use mdedit::editor::{Editor, LineRows};
use mdedit::markdown::MarkdownState;
use mdedit::render::code_block::CodeHighlighter;
use mdedit::render::engine::compute_render_lines_with_width;
use mdedit::render::plan::RenderLine;
use mdedit::session::Session;
use mdedit::finder::Rect;
use mdedit::view::{cursor_cell, prefetch_range, screen_layout, tab_bar, total_rows, visible_end};

fn rendered(text: &str, width: usize) -> (Editor, Vec<RenderLine>) {
    let e = Editor::from_contents(text, None);
    let mut state = MarkdownState::new();
    state.parse_full(&e.buffer);
    let n = e.buffer.len_lines();
    let lines = compute_render_lines_with_width(&CodeHighlighter::new(), &state, &e.buffer, 999_999, 0, n, width, false);
    (e, lines)
}

#[test]
fn prefetch_keeps_a_margin_around_the_cursor() {
    assert_eq!(prefetch_range(50, 20, 100), (20, 80));
    assert_eq!(prefetch_range(5, 20, 100), (0, 35));
    assert_eq!(prefetch_range(90, 20, 100), (60, 100));
    assert_eq!(prefetch_range(0, 0, 0), (0, 0));
}

#[test]
fn visible_lines_fill_the_viewport_plus_five_rows() {
    let (_, lines) = rendered("abcdefghij\nb\nc\nd\ne\nf\ng\nh\n", 4);
    assert_eq!(lines[0].screen_rows(4), 3);
    // five rows wanted: three from the first line, then one each
    assert_eq!(visible_end(&lines, 0, 9, 0, 4, 0), 3);
    assert_eq!(visible_end(&lines, 0, 9, 1, 4, 0), 6);
    // lines outside the rendered ones count one row each
    assert_eq!(visible_end(&lines[1..3], 1, 9, 0, 4, 0), 5);
    assert_eq!(visible_end(&lines, 0, 9, 7, 4, 10), 9);
}

#[test]
fn cursor_row_counts_wrapped_lines_above() {
    let (_, lines) = rendered("abcdefghij\nb\nc\n", 4);
    assert_eq!(total_rows(&lines, 4), Some(6));
    let (row, images) = screen_layout(&lines, 4, 2);
    assert_eq!(row, 4);
    assert!(images.is_empty());
    let (row, _) = screen_layout(&lines, 4, 99);
    assert_eq!(row, 6);
}

#[test]
fn cursor_cell_wraps_and_stays_in_the_area() {
    assert_eq!(cursor_cell(10, 2, 4, 24), (2, 4));
    assert_eq!(cursor_cell(10, 30, 4, 24), (2, 23));
    assert_eq!(cursor_cell(10, 2, 0, 24), (10, 2));
    assert_eq!(cursor_cell(3, 5, 8, 0), (3, 0));
}

#[test]
fn line_rows_follow_the_rendered_lines() {
    let (_, lines) = rendered("abcdefghij\nb\n\n", 4);
    let rows = LineRows::for_lines(7, &lines, 4);
    assert_eq!(rows.first, 7);
    assert_eq!(rows.rows, vec![3, 1, 1, 1]);
    assert_eq!(rows.get(7), 3);
    assert_eq!(rows.get(100), 1);
    assert!(rows.scroll_fits(20));
    assert!(!LineRows { first: 0, rows: vec![usize::MAX - 2] }.scroll_fits(1));
}

#[test]
fn dirty_paths_lists_unsaved_tabs() {
    let mut s = Session::new(Editor::from_contents("a", Some("/r/a.md".to_string())), None);
    assert!(s.dirty_paths().is_empty());
    s.push_tab(Editor::from_contents("b", None));
    s.tabs[1].editor.insert_char('x');
    s.push_tab(Editor::from_contents("c", Some("/r/c.md".to_string())));
    s.tabs[2].editor.insert_char('y');
    assert_eq!(s.dirty_paths(), vec![None, Some("/r/c.md".to_string())]);
}

#[test]
fn tab_bar_titles_each_tab_and_cuts_at_the_edge() {
    let mut s = Session::new(Editor::from_contents("a", Some("/r/notes.md".to_string())), None);
    s.push_tab(Editor::from_contents("b", None));
    s.tabs[1].editor.insert_char('x');
    let paints = tab_bar(&s.tabs, 1, Rect { x: 2, y: 5, width: 20, height: 1 });
    let texts: Vec<(usize, usize, &str)> = paints.iter().map(|p| (p.x, p.y, p.text.as_str())).collect();
    assert_eq!(texts[0], (2, 5, "                    "));
    assert_eq!(texts[1], (2, 5, " notes.md "));
    assert_eq!(texts[2], (12, 5, " [untitled"));
    assert_eq!(texts.len(), 3);
    assert_ne!(paints[1].style, paints[2].style);
}

#[test]
fn finder_cursor_follows_the_query_inside_the_box() {
    let popup = Rect { x: 10, y: 3, width: 30, height: 10 };
    assert_eq!(mdedit::view::finder_cursor(popup, 0), (14, 4));
    assert_eq!(mdedit::view::finder_cursor(popup, 5), (19, 4));
    assert_eq!(mdedit::view::finder_cursor(popup, 100), (38, 4));
}
