use mdedit::editor::buffer::Buffer;
use mdedit::markdown::highlight::{style_for_node, HighlightMap};
use mdedit::style::{Color, Modifier, Style};
use mdedit::markdown::{input_edit_for_delete, input_edit_for_insert, InputEdit, MarkdownState, Point};

fn collect_node_kinds(cursor: &mut tree_sitter_md::MarkdownCursor<'_>) -> Vec<String> {
    let mut kinds = Vec::new();
    loop {
        let node = cursor.node();
        if node.is_named() {
            kinds.push(node.kind().to_string());
        }
        if cursor.goto_first_child() {
            kinds.extend(collect_node_kinds(cursor));
            cursor.goto_parent();
        }
        if !cursor.goto_next_sibling() {
            break;
        }
    }
    kinds
}

#[test]
fn parse_full_produces_tree() {
    let buffer = Buffer::from_str("# Hello\n\nSome **bold** text.\n");
    let mut state = MarkdownState::new();
    state.parse_full(&buffer);
    assert!(state.tree().is_some());
    let tree = state.tree().unwrap();
    let mut cursor = tree.walk();
    let kinds = collect_node_kinds(&mut cursor);
    assert!(kinds.contains(&"atx_heading".to_string()));
    assert!(kinds.contains(&"strong_emphasis".to_string()));
}

#[test]
fn incremental_reparse_after_insert() {
    let mut buffer = Buffer::from_str("# Hello\n");
    let mut state = MarkdownState::new();
    state.parse_full(&buffer);
    buffer.insert_str(0, 7, " world");
    let edit = input_edit_for_insert(&buffer, 7, " world");
    state.apply_edit(edit, &buffer);
    assert!(state.tree().is_some());
    let tree = state.tree().unwrap();
    let mut cursor = tree.walk();
    let kinds = collect_node_kinds(&mut cursor);
    assert!(kinds.contains(&"atx_heading".to_string()));
}

#[test]
fn new_state_has_no_tree() {
    let state = MarkdownState::new();
    assert!(state.tree().is_none());
}

#[test]
fn insert_edit_spans_new_lines() {
    let mut buffer = Buffer::from_str("aé\nb");
    buffer.insert_str(0, 2, "x\nyz");
    let edit = input_edit_for_insert(&buffer, 2, "x\nyz");
    assert_eq!(
        edit,
        InputEdit {
            start_byte: 3,
            old_end_byte: 3,
            new_end_byte: 7,
            start_position: Point { row: 0, column: 3 },
            old_end_position: Point { row: 0, column: 3 },
            new_end_position: Point { row: 1, column: 2 },
        }
    );
}

#[test]
fn delete_edit_walks_deleted_bytes() {
    let buffer = Buffer::from_str("ab");
    let edit = input_edit_for_delete(&buffer, 1, "é\nxy\nz");
    assert_eq!(edit.start_byte, 1);
    assert_eq!(edit.old_end_byte, 1 + 7);
    assert_eq!(edit.new_end_byte, 1);
    assert_eq!(edit.start_position, Point { row: 0, column: 1 });
    assert_eq!(edit.new_end_position, Point { row: 0, column: 1 });
    assert_eq!(edit.old_end_position, Point { row: 2, column: 1 });
}

#[test]
fn highlights_cover_visible_range() {
    let buffer = Buffer::from_str("# Heading\n\nSome **bold** text.\n");
    let mut state = MarkdownState::new();
    state.parse_full(&buffer);
    let highlights = state.compute_highlights(&buffer, 0, buffer.len_lines(), 0);
    let style_at_hash = highlights.style_at(0);
    assert_ne!(style_at_hash, Style::new());
}

#[test]
fn highlight_layers_in_start_order() {
    let mut map = HighlightMap::new();
    map.push(5, 9, Style::new().fg(Color::Red));
    map.push(0, 10, Style::new().fg(Color::Blue).add_modifier(Modifier::bold()));
    map.push(3, 3, Style::new().fg(Color::Green));
    map.finalize();
    let starts: Vec<usize> = map.spans().iter().map(|s| s.start_byte).collect();
    assert_eq!(starts, vec![0, 5]);
    let s = map.style_at(6);
    assert_eq!(s.fg, Some(Color::Red));
    assert!(s.add_modifier.bold);
    assert_eq!(map.style_at(2).fg, Some(Color::Blue));
    assert_eq!(map.style_at(10), Style::new());
}

#[test]
fn node_kinds_have_their_styles() {
    assert_eq!(style_for_node("atx_h1_marker").unwrap().fg, Some(Color::Cyan));
    assert!(style_for_node("emphasis").unwrap().add_modifier.italic);
    assert_eq!(style_for_node("code_span").unwrap().bg, Some(Color::Indexed(236)));
    assert_eq!(style_for_node("paragraph"), None);
}
