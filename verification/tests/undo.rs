use mdedit::editor::undo::{Operation, UndoStack};

fn insert_op(pos: usize, text: &str) -> Operation {
    Operation::Insert { pos, text: text.to_string() }
}

fn delete_op(pos: usize, text: &str) -> Operation {
    Operation::Delete { pos, text: text.to_string() }
}

#[test]
fn undo_single_insert() {
    let mut stack = UndoStack::new();
    stack.record(insert_op(0, "hello"), (0, 0), (0, 5));
    stack.seal();
    let group = stack.undo().unwrap();
    assert_eq!(group.ops.len(), 1);
    assert_eq!(group.cursor_before, (0, 0));
}

#[test]
fn undo_restores_cursor_position() {
    let mut stack = UndoStack::new();
    stack.record(insert_op(0, "a"), (0, 0), (0, 1));
    stack.seal();
    let group = stack.undo().unwrap();
    assert_eq!(group.cursor_before, (0, 0));
    assert_eq!(group.cursor_after, (0, 1));
}

#[test]
fn redo_after_undo() {
    let mut stack = UndoStack::new();
    stack.record(insert_op(0, "hello"), (0, 0), (0, 5));
    stack.seal();
    stack.undo();
    let group = stack.redo().unwrap();
    assert_eq!(group.ops.len(), 1);
    assert_eq!(group.cursor_after, (0, 5));
}

#[test]
fn redo_cleared_on_new_edit() {
    let mut stack = UndoStack::new();
    stack.record(insert_op(0, "hello"), (0, 0), (0, 5));
    stack.seal();
    stack.undo();
    stack.record(insert_op(0, "x"), (0, 0), (0, 1));
    assert!(stack.redo().is_none());
}

#[test]
fn whitespace_breaks_coalescing() {
    let mut stack = UndoStack::new();
    stack.record(insert_op(0, "a"), (0, 0), (0, 1));
    stack.record(insert_op(1, " "), (0, 1), (0, 2));
    stack.seal();
    let g1 = stack.undo().unwrap();
    assert_eq!(g1.ops.len(), 1);
    let g2 = stack.undo().unwrap();
    assert_eq!(g2.ops.len(), 1);
}

#[test]
fn undo_multiline_paste() {
    let mut stack = UndoStack::new();
    stack.record(insert_op(0, "line1\nline2\nline3"), (0, 0), (2, 5));
    stack.seal();
    let group = stack.undo().unwrap();
    assert_eq!(group.ops.len(), 1);
}

#[test]
fn undo_delete_range() {
    let mut stack = UndoStack::new();
    stack.record(delete_op(5, " world"), (0, 11), (0, 5));
    stack.seal();
    let group = stack.undo().unwrap();
    assert_eq!(group.ops.len(), 1);
    match &group.ops[0] {
        Operation::Delete { pos, text } => {
            assert_eq!(*pos, 5);
            assert_eq!(text, " world");
        }
        _ => panic!("Expected Delete op"),
    }
}

#[test]
fn multiple_undo_redo_cycles() {
    let mut stack = UndoStack::new();
    stack.record(insert_op(0, "a"), (0, 0), (0, 1));
    stack.seal();
    stack.record(insert_op(1, "b"), (0, 1), (0, 2));
    stack.seal();
    stack.undo().unwrap();
    stack.undo().unwrap();
    let g1 = stack.redo().unwrap();
    assert_eq!(g1.cursor_after, (0, 1));
    let g2 = stack.redo().unwrap();
    assert_eq!(g2.cursor_after, (0, 2));
    assert!(stack.redo().is_none());
}

#[test]
fn undo_returns_none_when_empty() {
    let mut stack = UndoStack::new();
    assert!(stack.undo().is_none());
}

#[test]
fn typing_coalesces_within_timeout() {
    let mut stack = UndoStack::new();
    stack.record_at(insert_op(0, "a"), (0, 0), (0, 1), false);
    stack.record_at(insert_op(1, "b"), (0, 1), (0, 2), false);
    let g = stack.undo().unwrap();
    assert_eq!(g.ops.len(), 2);
    assert_eq!(g.cursor_before, (0, 0));
    assert_eq!(g.cursor_after, (0, 2));
}

#[test]
fn typing_after_timeout_starts_new_group() {
    let mut stack = UndoStack::new();
    stack.record_at(insert_op(0, "a"), (0, 0), (0, 1), false);
    stack.record_at(insert_op(1, "b"), (0, 1), (0, 2), true);
    let g = stack.undo().unwrap();
    assert_eq!(g.ops.len(), 1);
    let g2 = stack.undo().unwrap();
    assert_eq!(g2.ops.len(), 1);
}
