use mdedit::editor::buffer::Buffer;
use mdedit::editor::cursor::{classify, CharClass, Cursor};

fn buf(s: &str) -> Buffer {
    Buffer::from_str(s)
}

#[test]
fn move_right_within_line() {
    let b = buf("hello");
    let mut c = Cursor::new();
    c.move_right(&b);
    assert_eq!(c.position(), (0, 1));
}

#[test]
fn move_right_at_end_of_line_wraps_to_next() {
    let b = buf("hi\nworld");
    let mut c = Cursor::new();
    c.col = 2;
    c.move_right(&b);
    assert_eq!(c.position(), (1, 0));
}

#[test]
fn move_right_at_end_of_buffer_stays() {
    let b = buf("hi");
    let mut c = Cursor::new();
    c.col = 2;
    c.move_right(&b);
    assert_eq!(c.position(), (0, 2));
}

#[test]
fn move_left_within_line() {
    let b = buf("hello");
    let mut c = Cursor::new();
    c.col = 3;
    c.move_left(&b);
    assert_eq!(c.position(), (0, 2));
}

#[test]
fn move_left_at_start_of_line_wraps_to_previous() {
    let b = buf("hi\nworld");
    let mut c = Cursor::new();
    c.line = 1;
    c.col = 0;
    c.move_left(&b);
    assert_eq!(c.position(), (0, 2));
}

#[test]
fn move_left_at_start_of_buffer_stays() {
    let b = buf("hi");
    let mut c = Cursor::new();
    c.move_left(&b);
    assert_eq!(c.position(), (0, 0));
}

#[test]
fn move_down_same_col() {
    let b = buf("hello\nworld");
    let mut c = Cursor::new();
    c.col = 3;
    c.desired_col = 3;
    c.move_down(&b);
    assert_eq!(c.position(), (1, 3));
}

#[test]
fn move_down_clamps_to_shorter_line() {
    let b = buf("hello\nhi");
    let mut c = Cursor::new();
    c.col = 4;
    c.desired_col = 4;
    c.move_down(&b);
    assert_eq!(c.position(), (1, 2));
}

#[test]
fn move_down_restores_desired_col_on_longer_line() {
    let b = buf("hello\nhi\nworld!");
    let mut c = Cursor::new();
    c.col = 4;
    c.desired_col = 4;
    c.move_down(&b);
    assert_eq!(c.position(), (1, 2));
    c.move_down(&b);
    assert_eq!(c.position(), (2, 4));
}

#[test]
fn move_up_at_first_line_stays() {
    let b = buf("hello");
    let mut c = Cursor::new();
    c.col = 3;
    c.move_up(&b);
    assert_eq!(c.position(), (0, 3));
}

#[test]
fn move_home_goes_to_col_zero() {
    let b = buf("hello");
    let mut c = Cursor::new();
    c.col = 3;
    c.move_home();
    assert_eq!(c.col, 0);
    let _ = b;
}

#[test]
fn move_end_goes_to_line_length() {
    let b = buf("hello\nworld");
    let mut c = Cursor::new();
    c.move_end(&b);
    assert_eq!(c.col, 5);
}

#[test]
fn move_word_right_skips_word_then_whitespace() {
    let b = buf("hello world");
    let mut c = Cursor::new();
    c.move_word_right(&b);
    assert_eq!(c.col, 6);
}

#[test]
fn move_word_right_at_end_of_line_wraps() {
    let b = buf("hi\nworld");
    let mut c = Cursor::new();
    c.col = 2;
    c.move_word_right(&b);
    assert_eq!(c.position(), (1, 0));
}

#[test]
fn move_word_left_skips_whitespace_then_word() {
    let b = buf("hello world");
    let mut c = Cursor::new();
    c.col = 8;
    c.desired_col = 8;
    c.move_word_left(&b);
    assert_eq!(c.col, 6);
}

#[test]
fn display_col_ascii() {
    let b = buf("hello");
    let mut c = Cursor::new();
    c.col = 3;
    assert_eq!(c.display_col(&b), 3);
}

#[test]
fn display_col_with_cjk_characters() {
    let b = buf("你好world");
    let mut c = Cursor::new();
    c.col = 2;
    assert_eq!(c.display_col(&b), 4);
    c.col = 3;
    assert_eq!(c.display_col(&b), 5);
}

#[test]
fn display_col_with_tab() {
    let b = buf("\thello");
    let mut c = Cursor::new();
    c.col = 1;
    assert_eq!(c.display_col(&b), 4);
}

#[test]
fn clamp_to_buffer_bounds() {
    let b = buf("hi\nworld");
    let mut c = Cursor::new();
    c.line = 5;
    c.col = 100;
    c.clamp(&b);
    assert_eq!(c.line, 1);
    assert_eq!(c.col, 5);
}

#[test]
fn classify_chars() {
    assert_eq!(classify(' '), CharClass::Whitespace);
    assert_eq!(classify('\t'), CharClass::Whitespace);
    assert_eq!(classify('a'), CharClass::Word);
    assert_eq!(classify('_'), CharClass::Word);
    assert_eq!(classify('7'), CharClass::Word);
    assert_eq!(classify('.'), CharClass::Punctuation);
}

#[test]
fn move_word_left_stops_at_punctuation_run() {
    let b = buf("foo.. bar");
    let mut c = Cursor::new();
    c.col = 5;
    c.move_word_left(&b);
    assert_eq!(c.col, 3);
}

#[test]
fn clamp_empty_buffer_resets_desired_col() {
    let b = buf("");
    let mut c = Cursor::new();
    c.line = 2;
    c.col = 3;
    c.desired_col = 7;
    c.clamp(&b);
    assert_eq!((c.line, c.col, c.desired_col), (0, 0, 0));
}

#[test]
fn move_right_undoes_move_left_everywhere_but_the_start() {
    let b = buf("ab\n\ncd");
    for (line, col) in [(0usize, 1usize), (0, 2), (1, 0), (2, 0), (2, 2)] {
        let mut c = Cursor::new();
        c.line = line;
        c.col = col;
        c.move_left(&b);
        c.move_right(&b);
        assert_eq!(c.position(), (line, col));
    }
}
