use mdedit::markdown::reveal_set::{NodeInfo, RevealSet};
use tree_sitter_md::{MarkdownParser, MarkdownTree};

fn parse(text: &str) -> MarkdownTree {
    let mut parser = MarkdownParser::default();
    parser.parse(text.as_bytes(), None).unwrap()
}

#[test]
fn cursor_in_plain_text_reveals_nothing() {
    let tree = parse("Hello world\n");
    let reveal = RevealSet::from_cursor(&tree, 3);
    assert!(reveal.ranges().is_empty());
}

#[test]
fn cursor_in_bold_reveals_strong_emphasis() {
    let text = "This is **bold** text\n";
    let tree = parse(text);
    let reveal = RevealSet::from_cursor(&tree, 11);
    assert!(!reveal.ranges().is_empty());
    assert!(reveal.is_revealed(&(8..16)));
    assert!(!reveal.is_revealed(&(0..8)));
}

#[test]
fn cursor_in_italic_reveals_emphasis() {
    let text = "This is *italic* text\n";
    let tree = parse(text);
    let reveal = RevealSet::from_cursor(&tree, 10);
    assert!(reveal.is_revealed(&(8..16)));
}

#[test]
fn cursor_outside_bold_reveals_nothing_for_bold() {
    let text = "This is **bold** text\n";
    let tree = parse(text);
    let reveal = RevealSet::from_cursor(&tree, 3);
    assert!(!reveal.is_revealed(&(8..16)));
}

#[test]
fn cursor_in_code_span_reveals_it() {
    let text = "Use `code` here\n";
    let tree = parse(text);
    let reveal = RevealSet::from_cursor(&tree, 5);
    assert!(reveal.is_revealed(&(4..10)));
}

#[test]
fn cursor_in_heading_reveals_it() {
    let text = "# Hello World\n";
    let tree = parse(text);
    let reveal = RevealSet::from_cursor(&tree, 5);
    assert!(reveal.is_revealed(&(0..14)));
}

#[test]
fn cursor_in_fenced_code_block_reveals_entire_block() {
    let text = "```rust\nfn main() {}\n```\n";
    let tree = parse(text);
    let reveal = RevealSet::from_cursor(&tree, 10);
    assert!(reveal.is_revealed(&(0..23)));
}

#[test]
fn cursor_outside_formatting_reveals_nothing() {
    let text = "Plain text **bold** more text\n";
    let tree = parse(text);
    let reveal = RevealSet::from_cursor(&tree, 25);
    assert!(!reveal.is_revealed(&(11..19)));
}

fn node(kind: &str, start: usize, end: usize) -> NodeInfo {
    NodeInfo { kind: kind.to_string(), start_byte: start, end_byte: end }
}

#[test]
fn descent_stops_at_first_node_without_the_byte() {
    let path = vec![
        node("document", 0, 30),
        node("emphasis", 4, 12),
        node("code_span", 20, 25),
    ];
    let set = RevealSet::from_path(&path, 6);
    assert_eq!(set.ranges(), vec![(4, 12)]);
    assert!(set.is_byte_revealed(4));
    assert!(!set.is_byte_revealed(12));
    assert!(set.is_revealed(&(11..13)));
    assert!(!set.is_revealed(&(12..20)));
}

#[test]
fn nested_revealing_nodes_all_count() {
    let path = vec![
        node("paragraph", 0, 20),
        node("strong_emphasis", 2, 18),
        node("emphasis", 4, 10),
        node("text", 5, 7),
    ];
    let set = RevealSet::from_path(&path, 5);
    assert_eq!(set.ranges(), vec![(2, 18), (4, 10)]);
}
