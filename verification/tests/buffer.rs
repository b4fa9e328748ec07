use mdedit::editor::buffer::Buffer;
use mdedit::editor::undo::Operation;

#[test]
fn new_buffer_is_empty() {
    let buf = Buffer::new();
    assert_eq!(buf.len_chars(), 0);
    assert_eq!(buf.len_lines(), 1);
}

#[test]
fn from_str_single_line() {
    let buf = Buffer::from_str("hello");
    assert_eq!(buf.len_lines(), 1);
    assert_eq!(buf.line_len_chars(0), 5);
    assert_eq!(buf.contents(), "hello");
}

#[test]
fn from_str_multiple_lines() {
    let buf = Buffer::from_str("hello\nworld\n");
    assert_eq!(buf.len_lines(), 3);
    assert_eq!(buf.line_len_chars(0), 5);
    assert_eq!(buf.line_len_chars(1), 5);
}

#[test]
fn insert_char_at_start() {
    let mut buf = Buffer::from_str("hello");
    buf.insert_char(0, 0, 'X');
    assert_eq!(buf.contents(), "Xhello");
}

#[test]
fn insert_char_at_end() {
    let mut buf = Buffer::from_str("hello");
    buf.insert_char(0, 5, '!');
    assert_eq!(buf.contents(), "hello!");
}

#[test]
fn insert_char_in_middle() {
    let mut buf = Buffer::from_str("hllo");
    buf.insert_char(0, 1, 'e');
    assert_eq!(buf.contents(), "hello");
}

#[test]
fn insert_char_unicode_emoji() {
    let mut buf = Buffer::from_str("hi");
    buf.insert_char(0, 2, '😀');
    assert_eq!(buf.contents(), "hi😀");
    assert_eq!(buf.line_len_chars(0), 3);
}

#[test]
fn insert_str_multiline() {
    let mut buf = Buffer::from_str("ab");
    buf.insert_str(0, 1, "XY\nZ");
    assert_eq!(buf.contents(), "aXY\nZb");
    assert_eq!(buf.len_lines(), 2);
}

#[test]
fn delete_char_forward_middle() {
    let mut buf = Buffer::from_str("hello");
    buf.delete_char_forward(0, 2);
    assert_eq!(buf.contents(), "helo");
}

#[test]
fn delete_char_forward_at_end_of_line_joins_lines() {
    let mut buf = Buffer::from_str("hello\nworld");
    buf.delete_char_forward(0, 5);
    assert_eq!(buf.contents(), "helloworld");
    assert_eq!(buf.len_lines(), 1);
}

#[test]
fn delete_char_forward_at_end_of_buffer_is_noop() {
    let mut buf = Buffer::from_str("hi");
    let op = buf.delete_char_forward(0, 2);
    assert!(op.is_none());
    assert_eq!(buf.contents(), "hi");
}

#[test]
fn delete_char_backward_middle() {
    let mut buf = Buffer::from_str("hello");
    buf.delete_char_backward(0, 3);
    assert_eq!(buf.contents(), "helo");
}

#[test]
fn delete_char_backward_at_start_of_line_joins_with_previous() {
    let mut buf = Buffer::from_str("hello\nworld");
    buf.delete_char_backward(1, 0);
    assert_eq!(buf.contents(), "helloworld");
}

#[test]
fn delete_char_backward_at_start_of_buffer_is_noop() {
    let mut buf = Buffer::from_str("hi");
    let op = buf.delete_char_backward(0, 0);
    assert!(op.is_none());
    assert_eq!(buf.contents(), "hi");
}

#[test]
fn insert_newline_splits_line() {
    let mut buf = Buffer::from_str("helloworld");
    buf.insert_newline(0, 5);
    assert_eq!(buf.contents(), "hello\nworld");
    assert_eq!(buf.len_lines(), 2);
}

#[test]
fn insert_newline_at_start_creates_empty_line_above() {
    let mut buf = Buffer::from_str("hello");
    buf.insert_newline(0, 0);
    assert_eq!(buf.contents(), "\nhello");
    assert_eq!(buf.line_len_chars(0), 0);
}

#[test]
fn insert_newline_at_end_creates_empty_line_below() {
    let mut buf = Buffer::from_str("hello");
    buf.insert_newline(0, 5);
    assert_eq!(buf.contents(), "hello\n");
}

#[test]
fn delete_range_within_single_line() {
    let mut buf = Buffer::from_str("hello world");
    buf.delete_range((0, 2), (0, 8));
    assert_eq!(buf.contents(), "herld");
}

#[test]
fn delete_range_spanning_multiple_lines() {
    let mut buf = Buffer::from_str("hello\nworld\nfoo");
    buf.delete_range((0, 3), (2, 1));
    assert_eq!(buf.contents(), "heloo");
}

#[test]
fn line_len_chars_excludes_newline() {
    let buf = Buffer::from_str("hello\nworld\n");
    assert_eq!(buf.line_len_chars(0), 5);
    assert_eq!(buf.line_len_chars(1), 5);
}

#[test]
fn line_len_chars_last_line_no_newline() {
    let buf = Buffer::from_str("hello\nworld");
    assert_eq!(buf.line_len_chars(1), 5);
}

#[test]
fn line_col_to_char_idx_first_line() {
    let buf = Buffer::from_str("hello\nworld");
    assert_eq!(buf.line_col_to_char_idx(0, 3), 3);
}

#[test]
fn line_col_to_char_idx_later_line() {
    let buf = Buffer::from_str("hello\nworld");
    assert_eq!(buf.line_col_to_char_idx(1, 2), 8);
}

#[test]
fn char_idx_to_line_col_roundtrip() {
    let buf = Buffer::from_str("hello\nworld\nfoo");
    for line in 0..buf.len_lines() {
        for col in 0..buf.line_len_chars(line) {
            let idx = buf.line_col_to_char_idx(line, col);
            let (l, c) = buf.char_idx_to_line_col(idx);
            assert_eq!((l, c), (line, col));
        }
    }
}

#[test]
fn char_to_byte_ascii() {
    let buf = Buffer::from_str("hello");
    assert_eq!(buf.char_to_byte(0), 0);
    assert_eq!(buf.char_to_byte(3), 3);
    assert_eq!(buf.char_to_byte(5), 5);
}

#[test]
fn char_to_byte_multibyte() {
    let buf = Buffer::from_str("héllo");
    assert_eq!(buf.char_to_byte(0), 0);
    assert_eq!(buf.char_to_byte(1), 1);
    assert_eq!(buf.char_to_byte(2), 3);
}

#[test]
fn line_col_to_byte_multiline() {
    let buf = Buffer::from_str("hello\nworld");
    assert_eq!(buf.line_col_to_byte(0, 0), 0);
    assert_eq!(buf.line_col_to_byte(0, 5), 5);
    assert_eq!(buf.line_col_to_byte(1, 0), 6);
    assert_eq!(buf.line_col_to_byte(1, 3), 9);
}

#[test]
fn byte_char_roundtrip_multibyte() {
    let buf = Buffer::from_str("a😀b");
    assert_eq!(buf.char_to_byte(0), 0);
    assert_eq!(buf.char_to_byte(1), 1);
    assert_eq!(buf.char_to_byte(2), 5);
    assert_eq!(buf.byte_to_char(0), 0);
    assert_eq!(buf.byte_to_char(1), 1);
    assert_eq!(buf.byte_to_char(5), 2);
}

#[test]
fn len_bytes_multibyte() {
    let buf = Buffer::from_str("héllo");
    assert_eq!(buf.len_bytes(), 6);
}

#[test]
fn apply_and_reverse_insert() {
    let mut buf = Buffer::from_str("hello");
    let op = Operation::Insert { pos: 5, text: " world".to_string() };
    buf.apply(&op);
    assert_eq!(buf.contents(), "hello world");
    buf.reverse(&op);
    assert_eq!(buf.contents(), "hello");
}

#[test]
fn apply_and_reverse_delete() {
    let mut buf = Buffer::from_str("hello world");
    let op = Operation::Delete { pos: 5, text: " world".to_string() };
    buf.apply(&op);
    assert_eq!(buf.contents(), "hello");
    buf.reverse(&op);
    assert_eq!(buf.contents(), "hello world");
}

#[test]
fn text_for_byte_range_multibyte() {
    let buf = Buffer::from_str("héllo\nwörld");
    assert_eq!(buf.text_for_byte_range(1, 3), "é");
    assert_eq!(buf.char_count_for_byte_range(0, 6), 5);
    assert_eq!(buf.line_to_byte(1), 7);
    assert_eq!(buf.line(1), "wörld");
    assert_eq!(buf.line(0), "héllo\n");
}

#[test]
fn char_at_reads_within_line() {
    let buf = Buffer::from_str("ab\ncd");
    assert_eq!(buf.char_at(0, 1), Some('b'));
    assert_eq!(buf.char_at(0, 2), Some('\n'));
    assert_eq!(buf.char_at(0, 3), None);
    assert_eq!(buf.char_at(1, 0), Some('c'));
}
