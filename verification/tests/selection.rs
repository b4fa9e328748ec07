use mdedit::editor::buffer::Buffer;
use mdedit::editor::selection::Selection;

fn buf(s: &str) -> Buffer {
    Buffer::from_str(s)
}

#[test]
fn ordered_forward_selection() {
    let sel = Selection::new((0, 2), (0, 5));
    assert_eq!(sel.ordered(), ((0, 2), (0, 5)));
}

#[test]
fn ordered_backward_selection() {
    let sel = Selection::new((1, 3), (0, 2));
    assert_eq!(sel.ordered(), ((0, 2), (1, 3)));
}

#[test]
fn selected_text_single_line() {
    let b = buf("hello world");
    let sel = Selection::new((0, 6), (0, 11));
    assert_eq!(sel.selected_text(&b), "world");
}

#[test]
fn selected_text_multiline() {
    let b = buf("hello\nworld\nfoo");
    let sel = Selection::new((0, 3), (2, 2));
    assert_eq!(sel.selected_text(&b), "lo\nworld\nfo");
}

#[test]
fn contains_point_inside() {
    let b = buf("hello world");
    let sel = Selection::new((0, 2), (0, 7));
    assert!(sel.contains(0, 3, &b));
    assert!(sel.contains(0, 2, &b));
}

#[test]
fn contains_point_outside() {
    let b = buf("hello world");
    let sel = Selection::new((0, 2), (0, 7));
    assert!(!sel.contains(0, 7, &b));
    assert!(!sel.contains(0, 0, &b));
}

#[test]
fn is_empty_when_anchor_equals_head() {
    let sel = Selection::new((1, 5), (1, 5));
    assert!(sel.is_empty());
}

#[test]
fn is_not_empty() {
    let sel = Selection::new((0, 0), (0, 1));
    assert!(!sel.is_empty());
}

#[test]
fn selected_text_backward_is_same() {
    let b = buf("hello world");
    let sel = Selection::new((0, 11), (0, 6));
    assert_eq!(sel.selected_text(&b), "world");
}
