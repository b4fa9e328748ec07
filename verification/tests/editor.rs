use mdedit::editor::{Editor, LineRows};

fn editor(text: &str) -> Editor {
    Editor::from_contents(text, None)
}

#[test]
fn typing_then_undo_restores_text_and_cursor() {
    let mut e = editor("hello");
    e.move_end(false);
    e.insert_char('!');
    assert_eq!(e.buffer.contents(), "hello!");
    assert_eq!(e.cursor.position(), (0, 6));
    assert!(e.dirty);
    e.undo();
    assert_eq!(e.buffer.contents(), "hello");
    assert_eq!(e.cursor.position(), (0, 5));
    e.redo();
    assert_eq!(e.buffer.contents(), "hello!");
    assert_eq!(e.cursor.position(), (0, 6));
}

#[test]
fn quick_typing_undoes_as_one_group() {
    let mut e = editor("");
    e.insert_char('a');
    e.insert_char('b');
    e.insert_char('c');
    assert_eq!(e.buffer.contents(), "abc");
    e.undo();
    assert_eq!(e.buffer.contents(), "");
    assert_eq!(e.cursor.position(), (0, 0));
}

#[test]
fn newline_moves_cursor_to_next_line() {
    let mut e = editor("ab");
    e.move_right(false);
    e.insert_newline();
    assert_eq!(e.buffer.contents(), "a\nb");
    assert_eq!(e.cursor.position(), (1, 0));
}

#[test]
fn backspace_at_line_start_joins_lines() {
    let mut e = editor("ab\ncd");
    e.move_down(false);
    e.move_home(false);
    e.delete_backward();
    assert_eq!(e.buffer.contents(), "abcd");
    assert_eq!(e.cursor.position(), (0, 2));
    e.undo();
    assert_eq!(e.buffer.contents(), "ab\ncd");
    assert_eq!(e.cursor.position(), (1, 0));
}

#[test]
fn backspace_at_start_does_nothing() {
    let mut e = editor("ab");
    e.delete_backward();
    assert_eq!(e.buffer.contents(), "ab");
    assert!(!e.dirty);
}

#[test]
fn delete_forward_keeps_cursor() {
    let mut e = editor("abc");
    e.move_right(false);
    e.delete_forward();
    assert_eq!(e.buffer.contents(), "ac");
    assert_eq!(e.cursor.position(), (0, 1));
}

#[test]
fn delete_forward_of_only_char_empties_text() {
    let mut e = editor("x");
    e.delete_forward();
    assert_eq!(e.buffer.contents(), "");
    assert_eq!(e.cursor.position(), (0, 0));
}

#[test]
fn shift_moves_extend_selection_and_typing_replaces_it() {
    let mut e = editor("hello world");
    e.move_right(true);
    e.move_right(true);
    let sel = e.selection.unwrap();
    assert_eq!(sel.anchor, (0, 0));
    assert_eq!(sel.head, (0, 2));
    assert_eq!(e.copy(), Some("he".to_string()));
    e.insert_char('J');
    assert_eq!(e.buffer.contents(), "Jllo world");
    assert!(e.selection.is_none());
    e.undo();
    assert_eq!(e.buffer.contents(), "llo world");
    e.undo();
    assert_eq!(e.buffer.contents(), "hello world");
}

#[test]
fn move_left_collapses_selection_to_start() {
    let mut e = editor("hello");
    e.move_end(false);
    e.move_left(true);
    e.move_left(true);
    e.move_left(false);
    assert_eq!(e.cursor.position(), (0, 3));
    assert!(e.selection.is_none());
}

#[test]
fn move_right_collapses_selection_to_end() {
    let mut e = editor("hello");
    e.move_end(false);
    e.move_left(true);
    e.move_left(true);
    e.move_right(false);
    assert_eq!(e.cursor.position(), (0, 5));
}

#[test]
fn select_all_then_cut_empties_text() {
    let mut e = editor("ab\ncd");
    e.select_all();
    assert_eq!(e.cursor.position(), (1, 2));
    let cut = e.cut();
    assert_eq!(cut, Some("ab\ncd".to_string()));
    assert_eq!(e.buffer.contents(), "");
    assert_eq!(e.cursor.position(), (0, 0));
    e.undo();
    assert_eq!(e.buffer.contents(), "ab\ncd");
}

#[test]
fn copy_without_selection_gives_nothing() {
    let e = editor("abc");
    assert_eq!(e.copy(), None);
}

#[test]
fn paste_moves_cursor_past_text() {
    let mut e = editor("ab");
    e.move_right(false);
    e.paste("x\nyz");
    assert_eq!(e.buffer.contents(), "ax\nyzb");
    assert_eq!(e.cursor.position(), (1, 2));
    e.undo();
    assert_eq!(e.buffer.contents(), "ab");
    assert_eq!(e.cursor.position(), (0, 1));
}

#[test]
fn paste_of_empty_text_changes_nothing() {
    let mut e = editor("ab");
    e.paste("");
    assert_eq!(e.buffer.contents(), "ab");
    assert!(!e.dirty);
}

#[test]
fn undo_with_nothing_to_undo_keeps_text() {
    let mut e = editor("ab");
    e.undo();
    assert_eq!(e.buffer.contents(), "ab");
    e.redo();
    assert_eq!(e.buffer.contents(), "ab");
}

#[test]
fn new_edit_clears_redo() {
    let mut e = editor("");
    e.insert_char('a');
    e.undo();
    e.insert_char('b');
    e.redo();
    assert_eq!(e.buffer.contents(), "b");
}

#[test]
fn cursor_byte_offset_counts_bytes() {
    let mut e = editor("é\nab");
    e.move_down(false);
    e.move_right(false);
    assert_eq!(e.cursor_byte_offset(), 4);
}

#[test]
fn scroll_follows_cursor_down_with_margin() {
    let text = "l\n".repeat(30);
    let mut e = editor(&text);
    for _ in 0..20 {
        e.move_down(false);
    }
    e.adjust_scroll(10);
    assert_eq!(e.scroll_offset, 14);
    let range = e.visible_lines(10);
    assert_eq!(range, 14..24);
}

#[test]
fn scroll_keeps_margin_above_cursor() {
    let text = "l\n".repeat(30);
    let mut e = editor(&text);
    e.scroll_offset = 20;
    for _ in 0..21 {
        e.move_down(false);
    }
    e.adjust_scroll(10);
    assert_eq!(e.scroll_offset, 18);
}

#[test]
fn wrapped_lines_count_their_rows() {
    let text = "l\n".repeat(30);
    let mut e = editor(&text);
    for _ in 0..5 {
        e.move_down(false);
    }
    let rows = LineRows { first: 0, rows: vec![1, 1, 1, 1, 4, 4, 1, 1] };
    e.adjust_scroll_wrapped(8, &rows);
    assert_eq!(e.scroll_offset, 5);
}

#[test]
fn saving_clears_dirty() {
    let mut e = editor("a");
    e.insert_char('b');
    assert!(e.dirty);
    e.mark_saved();
    assert!(!e.dirty);
}
