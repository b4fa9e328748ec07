use mdedit::render::plan::{PositionMap, RenderLine, RenderSpan};
use mdedit::style::Style;

fn span(display: &str, raw_chars: usize, byte_start: usize, byte_end: usize) -> RenderSpan {
    RenderSpan {
        display_text: display.to_string(),
        style: Style::new(),
        raw_byte_range: byte_start..byte_end,
        raw_char_count: raw_chars,
        is_decoration: false,
    }
}

fn hidden(raw_chars: usize, byte_start: usize, byte_end: usize) -> RenderSpan {
    RenderSpan {
        display_text: String::new(),
        style: Style::new(),
        raw_byte_range: byte_start..byte_end,
        raw_char_count: raw_chars,
        is_decoration: false,
    }
}

fn decoration(display: &str) -> RenderSpan {
    RenderSpan {
        display_text: display.to_string(),
        style: Style::new(),
        raw_byte_range: 0..0,
        raw_char_count: 0,
        is_decoration: true,
    }
}

#[test]
fn plain_text_identity_mapping() {
    let spans = vec![span("hello", 5, 0, 5)];
    let map = PositionMap::build(&spans, 5);
    assert_eq!(map.raw_to_display, vec![0, 1, 2, 3, 4, 5]);
    assert_eq!(map.display_to_raw, vec![0, 1, 2, 3, 4, 5]);
}

#[test]
fn hidden_markers_shift_mapping() {
    let spans = vec![hidden(2, 0, 2), span("bold", 4, 2, 6), hidden(2, 6, 8)];
    let map = PositionMap::build(&spans, 8);
    assert_eq!(map.raw_to_display, vec![0, 0, 0, 1, 2, 3, 4, 4, 4]);
    assert_eq!(map.display_to_raw, vec![2, 3, 4, 5, 8]);
}

#[test]
fn mixed_visible_and_hidden() {
    let spans = vec![
        span("This is ", 8, 0, 8),
        hidden(2, 8, 10),
        span("bold", 4, 10, 14),
        hidden(2, 14, 16),
        span(" text", 5, 16, 21),
    ];
    let map = PositionMap::build(&spans, 21);
    assert_eq!(map.raw_to_display_col(0), 0);
    assert_eq!(map.raw_to_display_col(7), 7);
    assert_eq!(map.raw_to_display_col(8), 8);
    assert_eq!(map.raw_to_display_col(9), 8);
    assert_eq!(map.raw_to_display_col(10), 8);
    assert_eq!(map.raw_to_display_col(13), 11);
    assert_eq!(map.raw_to_display_col(14), 12);
    assert_eq!(map.raw_to_display_col(15), 12);
    assert_eq!(map.raw_to_display_col(16), 12);
    assert_eq!(map.raw_to_display_col(20), 16);
    assert_eq!(map.raw_to_display_col(21), 17);
}

#[test]
fn replacement_text() {
    let spans = vec![span("• ", 2, 0, 2), span("item", 4, 2, 6)];
    let map = PositionMap::build(&spans, 6);
    assert_eq!(map.raw_to_display, vec![0, 1, 2, 3, 4, 5, 6]);
}

#[test]
fn decoration_prefix() {
    let spans = vec![decoration("│ "), hidden(2, 0, 2), span("text", 4, 2, 6)];
    let map = PositionMap::build(&spans, 6);
    assert_eq!(map.raw_to_display_col(0), 2);
    assert_eq!(map.raw_to_display_col(1), 2);
    assert_eq!(map.raw_to_display_col(2), 2);
    assert_eq!(map.raw_to_display_col(3), 3);
    assert_eq!(map.raw_to_display_col(5), 5);
    assert_eq!(map.display_to_raw_col(0), 0);
    assert_eq!(map.display_to_raw_col(1), 0);
    assert_eq!(map.display_to_raw_col(2), 2);
}

#[test]
fn plan_empty_line() {
    let spans: Vec<RenderSpan> = vec![];
    let map = PositionMap::build(&spans, 0);
    assert_eq!(map.raw_to_display, vec![0]);
    assert_eq!(map.display_to_raw, vec![0]);
}

#[test]
fn clamping_out_of_range() {
    let spans = vec![span("hi", 2, 0, 2)];
    let map = PositionMap::build(&spans, 2);
    assert_eq!(map.raw_to_display_col(100), 2);
    assert_eq!(map.display_to_raw_col(100), 2);
}

fn make_render_line(display: &str) -> RenderLine {
    let spans = if display.is_empty() { vec![] } else { vec![span(display, display.len(), 0, display.len())] };
    let position_map = PositionMap::build(&spans, if display.is_empty() { 0 } else { display.len() });
    RenderLine { line_idx: 0, spans, position_map, image_header: None }
}

#[test]
fn screen_rows_empty_line() {
    let rl = make_render_line("");
    assert_eq!(rl.screen_rows(80), 1);
}

#[test]
fn screen_rows_short_line() {
    let rl = make_render_line("hello");
    assert_eq!(rl.screen_rows(80), 1);
}

#[test]
fn screen_rows_exact_fit() {
    let rl = make_render_line("12345");
    assert_eq!(rl.screen_rows(5), 1);
}

#[test]
fn screen_rows_one_char_overflow() {
    let rl = make_render_line("123456");
    assert_eq!(rl.screen_rows(5), 2);
}

#[test]
fn screen_rows_two_and_half_widths() {
    let rl = make_render_line("1234567890abc");
    assert_eq!(rl.screen_rows(5), 3);
}

#[test]
fn screen_rows_zero_viewport_width() {
    let rl = make_render_line("hello");
    assert_eq!(rl.screen_rows(0), 1);
}

#[test]
fn wrap_position_no_wrap() {
    let rl = make_render_line("hello");
    assert_eq!(rl.wrap_position(3, 80), (0, 3));
}

#[test]
fn wrap_position_on_second_row() {
    let rl = make_render_line("hello world!!");
    assert_eq!(rl.wrap_position(7, 5), (1, 2));
}

#[test]
fn wrap_position_at_wrap_boundary() {
    let rl = make_render_line("1234567890");
    assert_eq!(rl.wrap_position(5, 5), (1, 0));
}

#[test]
fn wrap_position_zero_viewport() {
    let rl = make_render_line("hello");
    assert_eq!(rl.wrap_position(3, 0), (0, 3));
}

#[test]
fn wide_chars_take_two_columns_each() {
    let spans = vec![span("你好", 2, 0, 6)];
    let map = PositionMap::build(&spans, 2);
    assert_eq!(map.raw_to_display, vec![0, 2, 4]);
    assert_eq!(map.display_to_raw, vec![0, 0, 1, 1, 2]);
}

#[test]
fn tab_takes_four_columns() {
    let rl = RenderLine {
        line_idx: 0,
        spans: vec![span("\tab", 3, 0, 3)],
        position_map: PositionMap::build(&[span("\tab", 3, 0, 3)], 3),
        image_header: None,
    };
    assert_eq!(rl.display_width(), 6);
}

#[test]
fn longer_replacement_maps_to_its_start() {
    let spans = vec![span("[x]", 1, 0, 1)];
    let map = PositionMap::build(&spans, 1);
    assert_eq!(map.raw_to_display, vec![0, 3]);
    assert_eq!(map.display_to_raw, vec![0, 0, 0, 1]);
}

#[test]
fn position_map_has_an_entry_per_column_and_never_goes_back() {
    let spans = vec![
        decoration("> "),
        hidden(2, 0, 2),
        span("日本", 2, 2, 8),
        span("ab", 2, 8, 10),
        span("…", 3, 10, 13),
    ];
    let m = PositionMap::build(&spans, 9);
    // raw chars covered: 2 + 2 + 2 + 3, plus the end of the line
    assert_eq!(m.raw_to_display.len(), 10);
    // display columns: 2 + 0 + 4 + 2 + 1, plus the end of the line
    assert_eq!(m.display_to_raw.len(), 10);
    assert!(m.raw_to_display.windows(2).all(|w| w[0] <= w[1]));
    assert!(m.display_to_raw.windows(2).all(|w| w[0] <= w[1]));
    assert_eq!(*m.raw_to_display.last().unwrap(), 9);
    assert_eq!(*m.display_to_raw.last().unwrap(), 9);
}
