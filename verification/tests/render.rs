use mdedit::editor::buffer::Buffer;
use mdedit::markdown::reveal_set::RevealSet;
use mdedit::markdown::syntax::{syntax_tree, SyntaxNode};
use mdedit::markdown::MarkdownState;
use mdedit::render::code_block::{highlight_code_lines, CodeHighlighter};
use mdedit::render::engine::{compute_render_lines, compute_render_lines_with_width};
use mdedit::render::inline::{descend_to_inline_node, render_inline};
use mdedit::render::plan::{RenderLine, RenderSpan};
use mdedit::render::spans::text_span;
use mdedit::render::table::{format_content_row, format_delimiter_row, trim};
use mdedit::style::Style;
use tree_sitter_md::MarkdownParser;

fn make_state(text: &str) -> (Buffer, MarkdownState) {
    let buffer = Buffer::from_str(text);
    let mut state = MarkdownState::new();
    state.parse_full(&buffer);
    (buffer, state)
}

fn display_text(line: &RenderLine) -> String {
    line.spans.iter().map(|s| s.display_text.as_str()).collect()
}

fn lines_of(text: &str, cursor: usize, start: usize, end: usize) -> Vec<RenderLine> {
    let (buffer, state) = make_state(text);
    compute_render_lines(&CodeHighlighter::new(), &state, &buffer, cursor, start, end)
}

fn wide_lines_of(text: &str, cursor: usize, start: usize, end: usize, width: usize) -> Vec<RenderLine> {
    let (buffer, state) = make_state(text);
    compute_render_lines_with_width(&CodeHighlighter::new(), &state, &buffer, cursor, start, end, width, false)
}

fn render_test(text: &str, cursor_byte: usize) -> Vec<RenderSpan> {
    let buffer = Buffer::from_str(text);
    let mut parser = MarkdownParser::default();
    let tree = parser.parse(text.as_bytes(), None).unwrap();
    let reveal_set = RevealSet::from_cursor(&tree, cursor_byte);
    let root: SyntaxNode = syntax_tree(&tree, text.len());
    let line_start = 0usize;
    let line_end = text.find('\n').unwrap_or(text.len());
    let mut spans = Vec::new();
    match descend_to_inline_node(&root, line_start) {
        Some(inline) => render_inline(inline, &buffer, &reveal_set, line_start, line_end, Style::new(), &mut spans),
        None => spans.push(text_span(line_start, line_end, &buffer, Style::new())),
    }
    spans
}

fn span_text(spans: &[RenderSpan]) -> String {
    spans.iter().map(|s| s.display_text.as_str()).collect()
}

fn total_raw_chars(spans: &[RenderSpan]) -> usize {
    spans.iter().map(|s| s.raw_char_count).sum()
}

// --- headings, breaks, block quotes ---

#[test]
fn h1_concealed_hides_marker() {
    let lines = lines_of("# Hello World\n", 999, 0, 1);
    assert_eq!(display_text(&lines[0]), "Hello World");
}

#[test]
fn h1_revealed_shows_marker() {
    let lines = lines_of("# Hello World\n", 5, 0, 1);
    let text = display_text(&lines[0]);
    assert!(text.contains("# "), "Expected '# ' in '{}'", text);
}

#[test]
fn h2_concealed() {
    let lines = lines_of("## Section\n", 999, 0, 1);
    assert_eq!(display_text(&lines[0]), "Section");
}

#[test]
fn h3_concealed() {
    let lines = lines_of("### Subsection\n", 999, 0, 1);
    assert_eq!(display_text(&lines[0]), "Subsection");
}

#[test]
fn heading_with_inline_formatting() {
    let lines = lines_of("# Hello **World**\n", 999, 0, 1);
    assert_eq!(display_text(&lines[0]), "Hello World");
}

#[test]
fn thematic_break_concealed() {
    let lines = lines_of("---\n", 999, 0, 1);
    let text = display_text(&lines[0]);
    assert!(text.contains('─'), "Expected ─ in '{}'", text);
}

#[test]
fn blockquote_concealed_shows_border() {
    let lines = lines_of("> quoted text\n", 999, 0, 1);
    let text = display_text(&lines[0]);
    assert!(text.contains('│'), "Expected │ in '{}'", text);
    assert!(text.contains("quoted text"), "Expected content in '{}'", text);
}

#[test]
fn blockquote_hides_marker() {
    let lines = lines_of("> hello\n", 999, 0, 1);
    let text = display_text(&lines[0]);
    assert!(!text.contains('>'), "Should not contain raw > in '{}'", text);
}

#[test]
fn thematic_break_fills_the_width() {
    let lines = wide_lines_of("---\n", 999, 0, 1, 12);
    assert_eq!(display_text(&lines[0]), "─".repeat(12));
    assert_eq!(lines[0].spans[0].raw_char_count, 3);
}

#[test]
fn concealed_heading_reports_its_tier_as_an_image_header() {
    let (buffer, state) = make_state("## Section\n");
    let lines = compute_render_lines_with_width(&CodeHighlighter::new(), &state, &buffer, 999, 0, 1, 80, true);
    let img = lines[0].image_header.as_ref().unwrap();
    assert_eq!(img.tier, 2);
    assert_eq!(img.text, "Section");
    assert_eq!(img.display_rows, 2);
    let revealed = compute_render_lines_with_width(&CodeHighlighter::new(), &state, &buffer, 4, 0, 1, 80, true);
    assert!(revealed[0].image_header.is_none());
}

// --- code blocks ---

#[test]
fn code_block_top_border() {
    let lines = wide_lines_of("```rust\nfn main() {}\n```\n", 999, 0, 3, 40);
    let top = display_text(&lines[0]);
    assert!(top.starts_with("┌─"), "Expected top border, got '{}'", top);
    assert!(top.contains("rust"), "Expected language label, got '{}'", top);
    assert!(top.ends_with('┐'), "Expected ┐ at end, got '{}'", top);
}

#[test]
fn code_block_content_line() {
    let lines = wide_lines_of("```rust\nfn main() {}\n```\n", 999, 0, 3, 40);
    let content = display_text(&lines[1]);
    assert!(content.starts_with("│ "), "Expected left border, got '{}'", content);
    assert!(content.contains("fn main()"), "Expected content, got '{}'", content);
    assert!(content.ends_with(" │"), "Expected right border, got '{}'", content);
}

#[test]
fn code_block_bottom_border() {
    let lines = wide_lines_of("```rust\nfn main() {}\n```\n", 999, 0, 3, 40);
    let bottom = display_text(&lines[2]);
    assert!(bottom.starts_with("└"), "Expected bottom border, got '{}'", bottom);
    assert!(bottom.ends_with('┘'), "Expected ┘ at end, got '{}'", bottom);
}

#[test]
fn code_block_revealed() {
    let lines = wide_lines_of("```rust\nfn main() {}\n```\n", 10, 0, 3, 40);
    let top = display_text(&lines[0]);
    assert!(top.contains("```"), "Expected raw fence, got '{}'", top);
}

#[test]
fn code_block_syntax_highlighted_has_multiple_spans() {
    let lines = wide_lines_of("```rust\nfn main() {}\n```\n", 999, 0, 3, 40);
    let content_line = &lines[1];
    assert!(
        content_line.spans.len() > 3,
        "Expected multiple spans from syntax highlighting, got {}",
        content_line.spans.len()
    );
    let dt = display_text(content_line);
    assert!(dt.contains("fn main()"), "Expected content, got '{}'", dt);
}

#[test]
fn code_block_unknown_lang_falls_back() {
    let lines = wide_lines_of("```unknownlang123\nsome code\n```\n", 999, 0, 3, 40);
    assert_eq!(lines[1].spans.len(), 3, "Expected 3 spans for unknown lang, got {}", lines[1].spans.len());
}

#[test]
fn code_block_no_lang_falls_back() {
    let lines = wide_lines_of("```\nsome code\n```\n", 999, 0, 3, 40);
    assert_eq!(lines[1].spans.len(), 3, "Expected 3 spans for no lang, got {}", lines[1].spans.len());
}

#[test]
fn code_block_borders_have_exact_width() {
    let lines = wide_lines_of("```rust\nx\n```\n", 999, 0, 3, 20);
    assert_eq!(display_text(&lines[0]), format!("┌─ rust {}┐", "─".repeat(11)));
    assert_eq!(display_text(&lines[2]), format!("└{}┘", "─".repeat(18)));
}

#[test]
fn code_block_plain_content_is_padded() {
    let lines = wide_lines_of("```\nab\n```\n", 999, 0, 3, 10);
    assert_eq!(display_text(&lines[1]), "│ ab     │");
}

// --- engine ---

#[test]
fn plain_text_line() {
    let lines = lines_of("Hello world\n", 0, 0, 1);
    assert_eq!(lines.len(), 1);
    assert_eq!(display_text(&lines[0]), "Hello world");
}

#[test]
fn bold_concealed_in_paragraph() {
    let lines = lines_of("This is **bold** text\n", 0, 0, 1);
    assert_eq!(display_text(&lines[0]), "This is bold text");
}

#[test]
fn bold_revealed_in_paragraph() {
    let lines = lines_of("This is **bold** text\n", 11, 0, 1);
    assert_eq!(display_text(&lines[0]), "This is **bold** text");
}

#[test]
fn position_map_concealed_bold() {
    let lines = lines_of("This is **bold** text\n", 0, 0, 1);
    let map = &lines[0].position_map;
    assert_eq!(map.raw_to_display_col(0), 0);
    assert_eq!(map.raw_to_display_col(7), 7);
    assert_eq!(map.raw_to_display_col(8), 8);
    assert_eq!(map.raw_to_display_col(9), 8);
    assert_eq!(map.raw_to_display_col(10), 8);
    assert_eq!(map.raw_to_display_col(13), 11);
    assert_eq!(map.raw_to_display_col(14), 12);
    assert_eq!(map.raw_to_display_col(16), 12);
    assert_eq!(map.raw_to_display_col(20), 16);
    assert_eq!(map.raw_to_display_col(21), 17);
}

#[test]
fn position_map_revealed_bold() {
    let lines = lines_of("This is **bold** text\n", 11, 0, 1);
    let map = &lines[0].position_map;
    assert_eq!(map.raw_to_display_col(0), 0);
    assert_eq!(map.raw_to_display_col(8), 8);
    assert_eq!(map.raw_to_display_col(10), 10);
    assert_eq!(map.raw_to_display_col(20), 20);
    assert_eq!(map.raw_to_display_col(21), 21);
}

#[test]
fn engine_empty_line() {
    let lines = lines_of("Hello\n\nWorld\n", 0, 0, 3);
    assert_eq!(lines.len(), 3);
    assert_eq!(display_text(&lines[0]), "Hello");
    assert_eq!(display_text(&lines[1]), "");
    assert_eq!(display_text(&lines[2]), "World");
}

#[test]
fn multiple_inline_elements() {
    let lines = lines_of("Normal **bold** and *italic* end\n", 999, 0, 1);
    assert_eq!(display_text(&lines[0]), "Normal bold and italic end");
}

#[test]
fn engine_code_span_concealed() {
    let lines = lines_of("Use `code` here\n", 0, 0, 1);
    assert_eq!(display_text(&lines[0]), "Use code here");
}

#[test]
fn link_concealed() {
    let lines = lines_of("Click [here](http://example.com) now\n", 999, 0, 1);
    assert_eq!(display_text(&lines[0]), "Click here now");
}

#[test]
fn lines_without_a_tree_are_plain() {
    let buffer = Buffer::from_str("**a**\nb\n");
    let state = MarkdownState::new();
    let lines = compute_render_lines(&CodeHighlighter::new(), &state, &buffer, 0, 0, 3);
    assert_eq!(display_text(&lines[0]), "**a**");
    assert_eq!(display_text(&lines[1]), "b");
    assert!(lines[2].spans.is_empty());
    assert_eq!(lines[1].line_idx, 1);
}

// --- inline ---

#[test]
fn plain_text_unchanged() {
    let spans = render_test("Hello world\n", 999);
    assert_eq!(span_text(&spans), "Hello world");
}

#[test]
fn bold_concealed_hides_markers() {
    let spans = render_test("This is **bold** text\n", 0);
    assert_eq!(span_text(&spans), "This is bold text");
    assert_eq!(total_raw_chars(&spans), 21);
}

#[test]
fn bold_revealed_shows_markers() {
    let spans = render_test("This is **bold** text\n", 11);
    let text = span_text(&spans);
    assert!(text.contains("**"));
    assert_eq!(text, "This is **bold** text");
}

#[test]
fn italic_concealed() {
    let spans = render_test("This is *italic* text\n", 0);
    assert_eq!(span_text(&spans), "This is italic text");
    let italic_span = spans.iter().find(|s| s.display_text == "italic").unwrap();
    assert!(italic_span.style.add_modifier.italic);
}

#[test]
fn inline_code_span_concealed() {
    let spans = render_test("Use `code` here\n", 0);
    assert_eq!(span_text(&spans), "Use code here");
    let code_span_s = spans.iter().find(|s| s.display_text == "code").unwrap();
    assert!(code_span_s.style.bg.is_some());
}

#[test]
fn link_concealed_shows_text_only() {
    let spans = render_test("[link text](http://example.com)\n", 999);
    assert_eq!(span_text(&spans), "link text");
}

#[test]
fn mixed_inline_concealed() {
    let spans = render_test("Normal **bold** and *italic* end\n", 999);
    assert_eq!(span_text(&spans), "Normal bold and italic end");
}

#[test]
fn raw_chars_preserved() {
    let spans = render_test("This is **bold** text\n", 0);
    assert_eq!(total_raw_chars(&spans), 21);
}

// --- lists ---

#[test]
fn unordered_list_bullet_replacement() {
    let lines = lines_of("- item one\n", 999, 0, 1);
    assert_eq!(display_text(&lines[0]), "• item one");
}

#[test]
fn unordered_list_star_marker() {
    let lines = lines_of("* item\n", 999, 0, 1);
    assert_eq!(display_text(&lines[0]), "• item");
}

#[test]
fn task_list_checked() {
    let lines = lines_of("- [x] done\n", 999, 0, 1);
    let text = display_text(&lines[0]);
    assert!(text.contains('☑'), "Expected ☑ in '{}'", text);
    assert!(text.contains("done"), "Expected 'done' in '{}'", text);
}

#[test]
fn task_list_unchecked() {
    let lines = lines_of("- [ ] todo\n", 999, 0, 1);
    let text = display_text(&lines[0]);
    assert!(text.contains('☐'), "Expected ☐ in '{}'", text);
    assert!(text.contains("todo"), "Expected 'todo' in '{}'", text);
}

#[test]
fn list_with_inline_formatting() {
    let lines = lines_of("- **bold item**\n", 999, 0, 1);
    assert_eq!(display_text(&lines[0]), "• bold item");
}

// --- syntax highlighting ---

fn owned(lines: &[&str]) -> Vec<String> {
    lines.iter().map(|s| s.to_string()).collect()
}

#[test]
fn highlight_rust_produces_tokens() {
    let h = CodeHighlighter::new();
    let lines = owned(&["fn main() {\n", "    println!(\"hello\");\n", "}\n"]);
    let result = highlight_code_lines(&h, "rust", &lines);
    assert!(result.is_some());
    let highlighted = result.unwrap();
    assert_eq!(highlighted.len(), 3);
    for line_tokens in &highlighted {
        assert!(!line_tokens.is_empty());
    }
    let first_line_text: String = highlighted[0].iter().map(|t| t.text.as_str()).collect();
    assert_eq!(first_line_text, "fn main() {\n");
}

#[test]
fn unknown_language_returns_none() {
    let h = CodeHighlighter::new();
    let result = highlight_code_lines(&h, "not_a_real_language_xyz", &owned(&["some code\n"]));
    assert!(result.is_none());
}

#[test]
fn empty_lang_returns_none() {
    let h = CodeHighlighter::new();
    let result = highlight_code_lines(&h, "", &owned(&["some code\n"]));
    assert!(result.is_none());
}

#[test]
fn tokens_cover_full_line() {
    let h = CodeHighlighter::new();
    let result = highlight_code_lines(&h, "rust", &owned(&["let x = 42;\n"])).unwrap();
    let total: String = result[0].iter().map(|t| t.text.as_str()).collect();
    assert_eq!(total, "let x = 42;\n");
}

// --- tables ---

const TABLE: &str = "| Name | Age |\n| --- | --- |\n| Alice | 30 |\n";
const TABLE4: &str = "| Name | Age |\n| --- | --- |\n| Alice | 30 |\n| Bob | 25 |\n";

#[test]
fn table_header_with_box_borders() {
    let lines = lines_of(TABLE, 999, 0, 3);
    let header = display_text(&lines[0]);
    assert!(header.contains('│'), "Expected │ in header '{}'", header);
    assert!(!header.contains('|'), "Should not contain raw | in '{}'", header);
    assert!(header.contains("Name"), "Expected Name in header '{}'", header);
    assert!(header.contains("Age"), "Expected Age in header '{}'", header);
}

#[test]
fn table_delimiter_row_renders_as_separator() {
    let lines = lines_of(TABLE, 999, 0, 3);
    let delim = display_text(&lines[1]);
    assert!(delim.starts_with('├'), "Expected ├ at start: '{}'", delim);
    assert!(delim.ends_with('┤'), "Expected ┤ at end: '{}'", delim);
    assert!(delim.contains('┼'), "Expected ┼ in delimiter: '{}'", delim);
    assert!(delim.contains('─'), "Expected ─ in delimiter: '{}'", delim);
}

#[test]
fn table_data_row_aligned() {
    let lines = lines_of(TABLE, 999, 0, 3);
    let row = display_text(&lines[2]);
    assert!(row.contains('│'), "Expected │ in row '{}'", row);
    assert!(row.contains("Alice"), "Expected Alice in row '{}'", row);
}

#[test]
fn table_columns_aligned_across_rows() {
    let lines = lines_of(TABLE4, 999, 0, 4);
    let header = display_text(&lines[0]);
    let delim = display_text(&lines[1]);
    let row1 = display_text(&lines[2]);
    let row2 = display_text(&lines[3]);
    assert_eq!(header.chars().count(), delim.chars().count());
    assert_eq!(header.chars().count(), row1.chars().count());
    assert_eq!(header.chars().count(), row2.chars().count());
}

#[test]
fn table_revealed_shows_raw() {
    let lines = lines_of(TABLE, 5, 0, 3);
    let header = display_text(&lines[0]);
    assert!(header.contains('|'), "Expected raw | when revealed: '{}'", header);
}

#[test]
fn table_proper_formatting() {
    let lines = lines_of(TABLE4, 999, 0, 4);
    assert_eq!(display_text(&lines[0]), "│ Name  │ Age │");
    assert_eq!(display_text(&lines[1]), "├───────┼─────┤");
    assert_eq!(display_text(&lines[2]), "│ Alice │ 30  │");
    assert_eq!(display_text(&lines[3]), "│ Bob   │ 25  │");
}

#[test]
fn table_rows_format_exactly() {
    let cells = vec!["a".to_string(), "bcd".to_string()];
    assert_eq!(format_content_row(&cells, &[3, 4]), "│ a   │ bcd  │");
    assert_eq!(format_content_row(&cells[..1], &[3, 4]), "│ a   │      │");
    assert_eq!(format_delimiter_row(&[3, 4]), "├─────┼──────┤");
    assert_eq!(format_delimiter_row(&[]), "├┤");
}

#[test]
fn trim_drops_surrounding_white_space() {
    assert_eq!(trim("  a b \t"), "a b");
    assert_eq!(trim("   "), "");
    assert_eq!(trim("x"), "x");
}

#[test]
fn hidden_markup_still_counts_every_raw_char() {
    for (text, chars) in [
        ("a *b* `c` [d](e) ~~f~~ **g**\n", 28),
        ("日本 **語** x\n", 10),
        ("[link](http://x.y) end\n", 22),
    ] {
        for cursor in [0usize, 3, 999] {
            let spans = render_test(text, cursor);
            assert_eq!(total_raw_chars(&spans), chars, "{text:?} at {cursor}");
            for w in spans.windows(2) {
                assert_eq!(w[0].raw_byte_range.end, w[1].raw_byte_range.start);
            }
        }
    }
}

#[test]
fn table_rows_as_long_as_delimiter_row() {
    let widths = [5usize, 3, 0];
    let cells = vec!["Alice".to_string(), "30".to_string()];
    let row = format_content_row(&cells, &widths);
    let delim = format_delimiter_row(&widths);
    assert_eq!(row, "│ Alice │ 30  │  │");
    assert_eq!(row.chars().count(), delim.chars().count());
}
