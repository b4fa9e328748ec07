//! The text of a document, held in a `ropey::Rope`.
use vstd::prelude::*;
use ropey::Rope;

use super::text::{nl_before, line_count, is_line_start, line_start, line_len, char_index, valid_pos, byte_len, lemma_nl_mono, lemma_line_start_is};
use super::undo::{Operation, OpModel, apply_op, reverse_op};

verus! {

#[verifier::external_type_specification]
#[verifier::external_body]
pub struct ExRope(Rope);

/// The chars a rope holds.
pub uninterp spec fn rope_text(r: Rope) -> Seq<char>;

/// Calls `Rope::new`: an empty rope.
#[verifier::external_body]
fn rope_new() -> (r: Rope)
    ensures
        rope_text(r) == Seq::<char>::empty(),
{
    Rope::new()
}

/// Calls `Rope::from_str`: a rope holding the chars of `s`.
#[verifier::external_body]
fn rope_from_str(s: &str) -> (r: Rope)
    ensures
        rope_text(r) == s@,
{
    Rope::from_str(s)
}

/// Calls `Rope::len_chars`.
#[verifier::external_body]
fn rope_len_chars(r: &Rope) -> (n: usize)
    ensures
        n == rope_text(*r).len(),
{
    r.len_chars()
}

/// Calls `Rope::len_lines`: line breaks plus one. Built without the
/// `cr_lines` and `unicode_lines` features, ropey breaks lines only at LF
/// (a CRLF pair is one break, ending at its LF).
#[verifier::external_body]
fn rope_len_lines(r: &Rope) -> (n: usize)
    ensures
        n == line_count(rope_text(*r)),
{
    r.len_lines()
}

/// Calls `Rope::len_bytes`: the length of the UTF-8 encoding.
#[verifier::external_body]
fn rope_len_bytes(r: &Rope) -> (n: usize)
    ensures
        n == byte_len(rope_text(*r)),
{
    r.len_bytes()
}

/// Calls `Rope::line_to_char`: the char index where a line starts, or the
/// length for one past the last line. Panics past that, so it is required.
#[verifier::external_body]
fn rope_line_to_char(r: &Rope, line: usize) -> (i: usize)
    requires
        line <= line_count(rope_text(*r)),
    ensures
        line < line_count(rope_text(*r)) ==> is_line_start(rope_text(*r), line as int, i as int),
        line == line_count(rope_text(*r)) ==> i == rope_text(*r).len(),
{
    r.line_to_char(line)
}

/// Calls `Rope::char_to_line`: the number of line breaks before the index.
#[verifier::external_body]
fn rope_char_to_line(r: &Rope, char_idx: usize) -> (line: usize)
    requires
        char_idx <= rope_text(*r).len(),
    ensures
        line == nl_before(rope_text(*r), char_idx as int),
{
    r.char_to_line(char_idx)
}

/// Calls `Rope::char`: the char at an index.
#[verifier::external_body]
fn rope_char(r: &Rope, char_idx: usize) -> (c: char)
    requires
        char_idx < rope_text(*r).len(),
    ensures
        c == rope_text(*r)[char_idx as int],
{
    r.char(char_idx)
}

/// Calls `Rope::insert`: `text` goes in at char index `char_idx`.
#[verifier::external_body]
fn rope_insert(r: &mut Rope, char_idx: usize, text: &str)
    requires
        char_idx <= rope_text(*old(r)).len(),
    ensures
        rope_text(*final(r)) == rope_text(*old(r)).take(char_idx as int) + text@ + rope_text(
            *old(r),
        ).skip(char_idx as int),
    no_unwind
{
    r.insert(char_idx, text)
}

/// Calls `Rope::insert_char`.
#[verifier::external_body]
fn rope_insert_char(r: &mut Rope, char_idx: usize, ch: char)
    requires
        char_idx <= rope_text(*old(r)).len(),
    ensures
        rope_text(*final(r)) == rope_text(*old(r)).take(char_idx as int) + seq![ch] + rope_text(
            *old(r),
        ).skip(char_idx as int),
    no_unwind
{
    r.insert_char(char_idx, ch)
}

/// Calls `Rope::remove` on the char range `start..end`.
#[verifier::external_body]
fn rope_remove(r: &mut Rope, start: usize, end: usize)
    requires
        start <= end <= rope_text(*old(r)).len(),
    ensures
        rope_text(*final(r)) == rope_text(*old(r)).take(start as int) + rope_text(*old(r)).skip(
            end as int,
        ),
    no_unwind
{
    r.remove(start..end)
}

/// Calls `Rope::char_to_byte`: the UTF-8 length of the chars before the index.
#[verifier::external_body]
fn rope_char_to_byte(r: &Rope, char_idx: usize) -> (b: usize)
    requires
        char_idx <= rope_text(*r).len(),
    ensures
        b == byte_len(rope_text(*r).take(char_idx as int)),
{
    r.char_to_byte(char_idx)
}

/// Calls `Rope::byte_to_char`: the index of the char that holds the byte
/// (one past the end for the end).
#[verifier::external_body]
fn rope_byte_to_char(r: &Rope, byte_idx: usize) -> (c: usize)
    requires
        byte_idx <= byte_len(rope_text(*r)),
    ensures
        c <= rope_text(*r).len(),
        byte_len(rope_text(*r).take(c as int)) <= byte_idx,
        c < rope_text(*r).len() ==> byte_idx < byte_len(rope_text(*r).take(c + 1)),
{
    r.byte_to_char(byte_idx)
}

/// Calls `Rope::slice` and converts the slice to a `String`.
#[verifier::external_body]
fn rope_slice_string(r: &Rope, start: usize, end: usize) -> (s: String)
    requires
        start <= end <= rope_text(*r).len(),
    ensures
        s@ == rope_text(*r).subrange(start as int, end as int),
{
    r.slice(start..end).to_string()
}

/// Converts the whole rope to a `String`.
#[verifier::external_body]
fn rope_to_string(r: &Rope) -> (s: String)
    ensures
        s@ == rope_text(*r),
{
    r.to_string()
}

/// The byte offset of char index `i` of `t`.
pub open spec fn byte_offset(t: Seq<char>, i: int) -> nat {
    byte_len(t.take(i))
}

pub struct Buffer {
    rope: Rope,
}

impl View for Buffer {
    type V = Seq<char>;

    closed spec fn view(&self) -> Seq<char> {
        rope_text(self.rope)
    }
}

impl Buffer {
    /// The text leaves room for one-past-the-end indices.
    #[verifier::type_invariant]
    pub closed spec fn fits(&self) -> bool {
        rope_text(self.rope).len() < usize::MAX
    }

    /// What `fits` says of a buffer's length and line count.
    pub proof fn lemma_fits(b: &Buffer)
        requires
            b.fits(),
        ensures
            b@.len() < usize::MAX,
            line_count(b@) <= b@.len() + 1,
    {
        super::text::lemma_nl_bounds(b@, b@.len() as int);
    }

    pub fn new() -> (b: Self)
        ensures
            b@ == Seq::<char>::empty(),
    {
        Buffer { rope: rope_new() }
    }

    pub fn from_str(text: &str) -> (b: Self)
        requires
            text@.len() < usize::MAX,
        ensures
            b@ == text@,
    {
        Buffer { rope: rope_from_str(text) }
    }

    pub fn len_lines(&self) -> (n: usize)
        ensures
            n == line_count(self@),
    {
        rope_len_lines(&self.rope)
    }

    pub fn len_chars(&self) -> (n: usize)
        ensures
            n == self@.len(),
    {
        rope_len_chars(&self.rope)
    }

    /// Char index where line `line_idx` starts (the length for one past
    /// the last line).
    pub fn line_start_char(&self, line_idx: usize) -> (i: usize)
        requires
            line_idx <= line_count(self@),
        ensures
            i == line_start(self@, line_idx as int),
            i <= self@.len(),
    {
        proof { use_type_invariant(&*self); Self::lemma_fits(&*self); }
        let i = rope_line_to_char(&self.rope, line_idx);
        proof {
            if line_idx < line_count(self@) {
                lemma_line_start_is(self@, line_idx as int, i as int);
            }
        }
        i
    }

    /// The text of a line, its line feed included.
    pub fn line(&self, line_idx: usize) -> (s: String)
        requires
            line_idx < line_count(self@),
        ensures
            s@ == self@.subrange(line_start(self@, line_idx as int), line_start(self@, line_idx + 1)),
    {
        proof { use_type_invariant(&*self); Self::lemma_fits(&*self); }
        let start = self.line_start_char(line_idx);
        let end = self.line_start_char(line_idx + 1);
        proof { lemma_line_starts_ordered(self@, line_idx as int); }
        rope_slice_string(&self.rope, start, end)
    }

    /// Line length in chars, excluding trailing newline.
    pub fn line_len_chars(&self, line_idx: usize) -> (n: usize)
        requires
            line_idx < line_count(self@),
        ensures
            n == line_len(self@, line_idx as int),
    {
        proof { use_type_invariant(&*self); Self::lemma_fits(&*self); }
        let start = self.line_start_char(line_idx);
        let end = self.line_start_char(line_idx + 1);
        proof { lemma_line_starts_ordered(self@, line_idx as int); }
        let len = end - start;
        if len > 0 && rope_char(&self.rope, end - 1) == '\n' {
            len - 1
        } else {
            len
        }
    }

    /// The char at (line, col), if the column lies within the line
    /// (its line feed counts).
    pub fn char_at(&self, line: usize, col: usize) -> (c: Option<char>)
        requires
            line < line_count(self@),
        ensures
            ({
                let s = line_start(self@, line as int);
                let e = line_start(self@, line + 1);
                if col < e - s {
                    c == Some(self@[s + col])
                } else {
                    c is None
                }
            }),
    {
        proof { use_type_invariant(&*self); Self::lemma_fits(&*self); }
        let start = self.line_start_char(line);
        let end = self.line_start_char(line + 1);
        proof { lemma_line_starts_ordered(self@, line as int); }
        if col < end - start {
            Some(rope_char(&self.rope, start + col))
        } else {
            None
        }
    }

    // --- Index conversions ---

    pub fn line_col_to_char_idx(&self, line: usize, col: usize) -> (i: usize)
        requires
            line <= line_count(self@),
            line_start(self@, line as int) + col <= usize::MAX,
        ensures
            i == char_index(self@, line as int, col as int),
    {
        self.line_start_char(line) + col
    }

    pub fn char_idx_to_line_col(&self, char_idx: usize) -> (lc: (usize, usize))
        requires
            char_idx <= self@.len(),
        ensures
            lc.0 == nl_before(self@, char_idx as int),
            lc.0 < line_count(self@),
            lc.1 == char_idx - line_start(self@, lc.0 as int),
            valid_pos(self@, lc.0 as int, lc.1 as int),
    {
        let line = rope_char_to_line(&self.rope, char_idx);
        proof { lemma_nl_mono(self@, char_idx as int, self@.len() as int); }
        let line_start = self.line_start_char(line);
        proof { lemma_pos_of_index(self@, char_idx as int); }
        (line, char_idx - line_start)
    }

    // --- Mutations ---

    pub fn insert_char(&mut self, line: usize, col: usize, ch: char) -> (op: Operation)
        requires
            old(self)@.len() + 1 < usize::MAX,
            line <= line_count(old(self)@),
            char_index(old(self)@, line as int, col as int) <= old(self)@.len(),
        ensures
            op.model() == (OpModel { insert: true, pos: char_index(old(self)@, line as int, col as int), text: seq![ch] }),
            final(self)@ == apply_op(old(self)@, op.model()),
    {
        proof { use_type_invariant(&*self); Self::lemma_fits(&*self); }
        let pos = self.line_col_to_char_idx(line, col);
        rope_insert_char(&mut self.rope, pos, ch);
        let text = char_to_string(ch);
        Operation::Insert { pos, text }
    }

    pub fn insert_str(&mut self, line: usize, col: usize, text: &str) -> (op: Operation)
        requires
            old(self)@.len() + text@.len() < usize::MAX,
            line <= line_count(old(self)@),
            char_index(old(self)@, line as int, col as int) <= old(self)@.len(),
        ensures
            op.model() == (OpModel { insert: true, pos: char_index(old(self)@, line as int, col as int), text: text@ }),
            final(self)@ == apply_op(old(self)@, op.model()),
    {
        proof { use_type_invariant(&*self); Self::lemma_fits(&*self); }
        let pos = self.line_col_to_char_idx(line, col);
        rope_insert(&mut self.rope, pos, text);
        Operation::Insert { pos, text: text.to_string() }
    }

    pub fn delete_char_forward(&mut self, line: usize, col: usize) -> (op: Option<Operation>)
        requires
            line <= line_count(old(self)@),
            char_index(old(self)@, line as int, col as int) <= usize::MAX,
        ensures
            ({
                let pos = char_index(old(self)@, line as int, col as int);
                if pos >= old(self)@.len() {
                    op is None && final(self)@ == old(self)@
                } else {
                    &&& op matches Some(o) && o.model() == (OpModel { insert: false, pos, text: seq![old(self)@[pos]] })
                    &&& final(self)@ == apply_op(old(self)@, op.unwrap().model())
                }
            }),
    {
        proof { use_type_invariant(&*self); Self::lemma_fits(&*self); }
        let pos = self.line_col_to_char_idx(line, col);
        if pos >= rope_len_chars(&self.rope) {
            return None;
        }
        let ch = rope_char(&self.rope, pos);
        rope_remove(&mut self.rope, pos, pos + 1);
        Some(Operation::Delete { pos, text: char_to_string(ch) })
    }

    pub fn delete_char_backward(&mut self, line: usize, col: usize) -> (op: Option<Operation>)
        requires
            line == 0 && col == 0 || line <= line_count(old(self)@),
            line == 0 && col == 0 || char_index(old(self)@, line as int, col as int) <= old(self)@.len(),
        ensures
            ({
                let pos = char_index(old(self)@, line as int, col as int);
                if line == 0 && col == 0 || pos == 0 {
                    op is None && final(self)@ == old(self)@
                } else {
                    &&& op matches Some(o) && o.model() == (OpModel { insert: false, pos: pos - 1, text: seq![old(self)@[pos - 1]] })
                    &&& final(self)@ == apply_op(old(self)@, op.unwrap().model())
                }
            }),
    {
        proof { use_type_invariant(&*self); Self::lemma_fits(&*self); }
        if line == 0 && col == 0 {
            return None;
        }
        let pos = self.line_col_to_char_idx(line, col);
        if pos == 0 {
            return None;
        }
        let ch = rope_char(&self.rope, pos - 1);
        rope_remove(&mut self.rope, pos - 1, pos);
        Some(Operation::Delete { pos: pos - 1, text: char_to_string(ch) })
    }

    pub fn delete_range(&mut self, start: (usize, usize), end: (usize, usize)) -> (op: Option<Operation>)
        requires
            start.0 <= line_count(old(self)@),
            end.0 <= line_count(old(self)@),
            char_index(old(self)@, start.0 as int, start.1 as int) <= usize::MAX,
            char_index(old(self)@, end.0 as int, end.1 as int) <= usize::MAX,
            char_index(old(self)@, start.0 as int, start.1 as int) < char_index(old(self)@, end.0 as int, end.1 as int)
                ==> char_index(old(self)@, end.0 as int, end.1 as int) <= old(self)@.len(),
        ensures
            ({
                let s = char_index(old(self)@, start.0 as int, start.1 as int);
                let e = char_index(old(self)@, end.0 as int, end.1 as int);
                if s >= e {
                    op is None && final(self)@ == old(self)@
                } else {
                    &&& op matches Some(o) && o.model() == (OpModel { insert: false, pos: s, text: old(self)@.subrange(s, e) })
                    &&& final(self)@ == apply_op(old(self)@, op.unwrap().model())
                }
            }),
    {
        proof { use_type_invariant(&*self); Self::lemma_fits(&*self); }
        let start_idx = self.line_col_to_char_idx(start.0, start.1);
        let end_idx = self.line_col_to_char_idx(end.0, end.1);
        if start_idx >= end_idx {
            return None;
        }
        let text = rope_slice_string(&self.rope, start_idx, end_idx);
        rope_remove(&mut self.rope, start_idx, end_idx);
        Some(Operation::Delete { pos: start_idx, text })
    }

    pub fn insert_newline(&mut self, line: usize, col: usize) -> (op: Operation)
        requires
            old(self)@.len() + 1 < usize::MAX,
            line <= line_count(old(self)@),
            char_index(old(self)@, line as int, col as int) <= old(self)@.len(),
        ensures
            op.model() == (OpModel { insert: true, pos: char_index(old(self)@, line as int, col as int), text: seq!['\n'] }),
            final(self)@ == apply_op(old(self)@, op.model()),
    {
        self.insert_char(line, col, '\n')
    }

    // --- Apply/reverse for undo/redo ---

    pub fn apply(&mut self, op: &Operation)
        requires
            op.model().insert ==> old(self)@.len() + op.model().text.len() < usize::MAX,
            0 <= op.model().pos <= old(self)@.len(),
            !op.model().insert ==> op.model().pos + op.model().text.len() <= old(self)@.len(),
        ensures
            final(self)@ == apply_op(old(self)@, op.model()),
    {
        proof { use_type_invariant(&*self); Self::lemma_fits(&*self); }
        match op {
            Operation::Insert { pos, text } => {
                rope_insert(&mut self.rope, *pos, text.as_str());
            },
            Operation::Delete { pos, text } => {
                let end = *pos + text.as_str().unicode_len();
                rope_remove(&mut self.rope, *pos, end);
            },
        }
    }

    pub fn reverse(&mut self, op: &Operation)
        requires
            !op.model().insert ==> old(self)@.len() + op.model().text.len() < usize::MAX,
            0 <= op.model().pos <= old(self)@.len(),
            op.model().insert ==> op.model().pos + op.model().text.len() <= old(self)@.len(),
        ensures
            final(self)@ == reverse_op(old(self)@, op.model()),
    {
        proof { use_type_invariant(&*self); Self::lemma_fits(&*self); }
        match op {
            Operation::Insert { pos, text } => {
                let end = *pos + text.as_str().unicode_len();
                rope_remove(&mut self.rope, *pos, end);
            },
            Operation::Delete { pos, text } => {
                rope_insert(&mut self.rope, *pos, text.as_str());
            },
        }
    }

    // --- Byte-level conversions (for tree-sitter interop) ---

    pub fn char_to_byte(&self, char_idx: usize) -> (b: usize)
        requires
            char_idx <= self@.len(),
        ensures
            b == byte_offset(self@, char_idx as int),
    {
        rope_char_to_byte(&self.rope, char_idx)
    }

    pub fn byte_to_char(&self, byte_idx: usize) -> (c: usize)
        requires
            byte_idx <= byte_len(self@),
        ensures
            c <= self@.len(),
            byte_offset(self@, c as int) <= byte_idx,
            c < self@.len() ==> byte_idx < byte_offset(self@, c + 1),
    {
        rope_byte_to_char(&self.rope, byte_idx)
    }

    pub fn line_col_to_byte(&self, line: usize, col: usize) -> (b: usize)
        requires
            line <= line_count(self@),
            char_index(self@, line as int, col as int) <= self@.len(),
        ensures
            b == byte_offset(self@, char_index(self@, line as int, col as int)),
    {
        proof { use_type_invariant(&*self); Self::lemma_fits(&*self); }
        let char_idx = self.line_col_to_char_idx(line, col);
        rope_char_to_byte(&self.rope, char_idx)
    }

    pub fn len_bytes(&self) -> (n: usize)
        ensures
            n == byte_len(self@),
    {
        rope_len_bytes(&self.rope)
    }

    pub fn line_to_byte(&self, line_idx: usize) -> (b: usize)
        requires
            line_idx <= line_count(self@),
        ensures
            b == byte_offset(self@, line_start(self@, line_idx as int)),
    {
        let c = self.line_start_char(line_idx);
        rope_char_to_byte(&self.rope, c)
    }

    /// Extract text for a byte range as a String.
    pub fn text_for_byte_range(&self, start_byte: usize, end_byte: usize) -> (s: String)
        requires
            start_byte <= end_byte <= byte_len(self@),
        ensures
            s@ == self@.subrange(self.char_at_byte(start_byte as int), self.char_at_byte(end_byte as int)),
    {
        let start_char = rope_byte_to_char(&self.rope, start_byte);
        let end_char = rope_byte_to_char(&self.rope, end_byte);
        proof {
            self.lemma_char_at_byte(start_byte as int, start_char as int);
            self.lemma_char_at_byte(end_byte as int, end_char as int);
            lemma_char_at_byte_mono(self@, start_byte as int, end_byte as int);
        }
        rope_slice_string(&self.rope, start_char, end_char)
    }

    /// Count chars in a byte range.
    pub fn char_count_for_byte_range(&self, start_byte: usize, end_byte: usize) -> (n: usize)
        requires
            start_byte <= end_byte <= byte_len(self@),
        ensures
            n == self.char_at_byte(end_byte as int) - self.char_at_byte(start_byte as int),
    {
        let start_char = rope_byte_to_char(&self.rope, start_byte);
        let end_char = rope_byte_to_char(&self.rope, end_byte);
        proof {
            self.lemma_char_at_byte(start_byte as int, start_char as int);
            self.lemma_char_at_byte(end_byte as int, end_char as int);
            lemma_char_at_byte_mono(self@, start_byte as int, end_byte as int);
        }
        end_char - start_char
    }

    /// The index of the char that holds byte `b`.
    pub open spec fn char_at_byte(&self, b: int) -> int {
        char_holding_byte(self@, b)
    }

    proof fn lemma_char_at_byte(&self, b: int, c: int)
        requires
            0 <= c <= self@.len(),
            byte_offset(self@, c) <= b,
            c < self@.len() ==> b < byte_offset(self@, c + 1),
        ensures
            self.char_at_byte(b) == c,
    {
        lemma_char_holding_byte(self@, b, c);
    }

    /// The chars between two char indices.
    pub fn text_in_chars(&self, start: usize, end: usize) -> (s: String)
        requires
            start <= end <= self@.len(),
        ensures
            s@ == self@.subrange(start as int, end as int),
    {
        rope_slice_string(&self.rope, start, end)
    }

    pub fn contents(&self) -> (s: String)
        ensures
            s@ == self@,
    {
        rope_to_string(&self.rope)
    }
}

/// The index of the char of `t` that holds byte `b` (the length for the end).
pub open spec fn char_holding_byte(t: Seq<char>, b: int) -> int {
    choose|c: int|
        0 <= c <= t.len() && #[trigger] byte_offset(t, c) <= b && (c < t.len() ==> b < byte_offset(t, c + 1))
}

pub proof fn lemma_byte_offset_mono(t: Seq<char>, i: int, j: int)
    requires
        0 <= i <= j <= t.len(),
    ensures
        byte_offset(t, i) <= byte_offset(t, j),
        i < j ==> byte_offset(t, i) < byte_offset(t, j),
    decreases j - i,
{
    if i < j {
        lemma_byte_offset_mono(t, i, j - 1);
        lemma_byte_len_push(t.take(j - 1), t[j - 1]);
        assert(t.take(j - 1).push(t[j - 1]) == t.take(j));
    }
}

/// Appending a char adds its 1 to 4 bytes.
pub proof fn lemma_byte_len_push(s: Seq<char>, c: char)
    ensures
        byte_len(s.push(c)) == byte_len(s) + vstd::utf8::encode_scalar(c as u32).len(),
        byte_len(s.push(c)) > byte_len(s),
    decreases s.len(),
{
    reveal_with_fuel(vstd::utf8::encode_utf8, 2);
    if s.len() == 0 {
        assert(s.push(c).drop_first() =~= Seq::<char>::empty());
    } else {
        lemma_byte_len_push(s.drop_first(), c);
        assert(s.push(c).drop_first() =~= s.drop_first().push(c));
    }
    lemma_encode_scalar_nonempty(c);
}

proof fn lemma_encode_scalar_nonempty(c: char)
    ensures
        vstd::utf8::encode_scalar(c as u32).len() >= 1,
{
    vstd::utf8::char_is_scalar(c);
}

pub proof fn lemma_char_holding_byte(t: Seq<char>, b: int, c: int)
    requires
        0 <= c <= t.len(),
        byte_offset(t, c) <= b,
        c < t.len() ==> b < byte_offset(t, c + 1),
    ensures
        char_holding_byte(t, b) == c,
{
    let d = char_holding_byte(t, b);
    assert(0 <= d <= t.len() && byte_offset(t, d) <= b && (d < t.len() ==> b < byte_offset(t, d + 1)));
    if d < c {
        lemma_byte_offset_mono(t, d + 1, c);
    } else if c < d {
        lemma_byte_offset_mono(t, c + 1, d);
    }
}

pub proof fn lemma_char_at_byte_mono(t: Seq<char>, a: int, b: int)
    requires
        a <= b,
        0 <= char_holding_byte(t, a) <= t.len(),
        byte_offset(t, char_holding_byte(t, a)) <= a,
        char_holding_byte(t, a) < t.len() ==> a < byte_offset(t, char_holding_byte(t, a) + 1),
        0 <= char_holding_byte(t, b) <= t.len(),
        byte_offset(t, char_holding_byte(t, b)) <= b,
        char_holding_byte(t, b) < t.len() ==> b < byte_offset(t, char_holding_byte(t, b) + 1),
    ensures
        char_holding_byte(t, a) <= char_holding_byte(t, b),
{
    let ca = char_holding_byte(t, a);
    let cb = char_holding_byte(t, b);
    if cb < ca {
        lemma_byte_offset_mono(t, cb + 1, ca);
    }
}

/// Line starts come in order, and each line fits in the text.
pub proof fn lemma_line_starts_ordered(t: Seq<char>, line: int)
    requires
        0 <= line < line_count(t),
    ensures
        0 <= line_start(t, line) <= line_start(t, line + 1) <= t.len(),
        is_line_start(t, line, line_start(t, line)),
        line + 1 < line_count(t) ==> is_line_start(t, line + 1, line_start(t, line + 1)),
        line + 1 < line_count(t) ==> line_start(t, line) < line_start(t, line + 1),
        line + 1 < line_count(t) ==> t[line_start(t, line + 1) - 1] == '\n',
        0 <= line_len(t, line),
        line_start(t, line) + line_len(t, line) <= t.len(),
        line + 1 < line_count(t) ==> t[line_start(t, line) + line_len(t, line)] == '\n',
        line + 1 == line_count(t) && line_start(t, line) < t.len() ==> t[t.len() - 1] != '\n',
{
    lemma_line_start_exists(t, line);
    if line + 1 < line_count(t) {
        lemma_line_start_exists(t, line + 1);
        let s = line_start(t, line);
        let e = line_start(t, line + 1);
        if e <= s {
            lemma_nl_mono(t, e, s);
        }
        assert(e > 0);
    } else {
        let s = line_start(t, line);
        if s < t.len() && t[t.len() - 1] == '\n' {
            lemma_nl_mono(t, s, t.len() as int);
        }
    }
}

/// Every line of the text has a start.
pub proof fn lemma_line_start_exists(t: Seq<char>, line: int)
    requires
        0 <= line < line_count(t),
    ensures
        is_line_start(t, line, line_start(t, line)),
{
    let i = find_line_start(t, line, t.len() as int);
    lemma_line_start_is(t, line, i);
}

/// Scans backwards from `j` for the start of line `line`.
proof fn find_line_start(t: Seq<char>, line: int, j: int) -> (i: int)
    requires
        0 <= line,
        0 <= j <= t.len(),
        line <= nl_before(t, j),
    ensures
        is_line_start(t, line, i) || nl_before(t, j) < line,
        line <= nl_before(t, j) ==> is_line_start(t, line, i),
    decreases j,
{
    if j == 0 {
        0
    } else if nl_before(t, j) == line && t[j - 1] == '\n' {
        j
    } else if nl_before(t, j - 1) >= line {
        find_line_start(t, line, j - 1)
    } else {
        j
    }
}

/// The line and column of a char index.
pub proof fn lemma_pos_of_index(t: Seq<char>, i: int)
    requires
        0 <= i <= t.len(),
    ensures
        nl_before(t, i) < line_count(t),
        line_start(t, nl_before(t, i) as int) <= i,
        valid_pos(t, nl_before(t, i) as int, i - line_start(t, nl_before(t, i) as int)),
{
    let l = nl_before(t, i) as int;
    lemma_nl_mono(t, i, t.len() as int);
    lemma_line_starts_ordered(t, l);
    let s = line_start(t, l);
    if i < s {
        lemma_nl_mono(t, i, s);
    }
    if l + 1 < line_count(t) {
        let e = line_start(t, l + 1);
        if e <= i {
            lemma_nl_mono(t, e, i);
        }
        if i == e - 1 {
        } else {
            assert(i < e - 1 || i == e - 1);
        }
    }
}

/// A char index and a position (line, column) name the same place: the
/// position of a char index turns back into that index, and a valid
/// position turns into an index whose position it is.
pub proof fn law_line_col_roundtrip(t: Seq<char>, i: int, line: int, col: int)
    requires
        0 <= i <= t.len(),
        valid_pos(t, line, col),
    ensures
        valid_pos(t, nl_before(t, i) as int, i - line_start(t, nl_before(t, i) as int)),
        char_index(t, nl_before(t, i) as int, i - line_start(t, nl_before(t, i) as int)) == i,
        nl_before(t, char_index(t, line, col)) == line,
        char_index(t, line, col) - line_start(t, line) == col,
{
    lemma_pos_of_index(t, i);
    crate::editor::text::lemma_valid_index(t, line, col);
}

/// A char index and its byte offset name the same place: the char that
/// holds the byte offset of char index `c` is `c`, and the byte offset of
/// the char holding byte `b` is the start of that char.
pub proof fn law_byte_char_roundtrip(t: Seq<char>, c: int, b: int)
    requires
        0 <= c <= t.len(),
        0 <= b <= byte_len(t),
        is_char_boundary(t, b),
    ensures
        char_holding_byte(t, byte_offset(t, c) as int) == c,
        byte_offset(t, char_holding_byte(t, b)) == b,
{
    if c < t.len() {
        lemma_byte_offset_mono(t, c, c + 1);
    }
    lemma_char_holding_byte(t, byte_offset(t, c) as int, c);
    let k = choose|k: int| 0 <= k <= t.len() && byte_offset(t, k) == b;
    if k < t.len() {
        lemma_byte_offset_mono(t, k, k + 1);
    }
    lemma_char_holding_byte(t, b, k);
}

/// `b` is the byte offset at which some char of `t` starts (or the end).
pub open spec fn is_char_boundary(t: Seq<char>, b: int) -> bool {
    exists|k: int| 0 <= k <= t.len() && #[trigger] byte_offset(t, k) == b
}

/// A one-char `String`.
#[verifier::external_body]
pub(crate) fn char_to_string(c: char) -> (s: String)
    ensures
        s@ == seq![c],
{
    c.to_string()
}

/// Bytes of a concatenation.
pub proof fn lemma_byte_len_concat(a: Seq<char>, b: Seq<char>)
    ensures
        byte_len(a + b) == byte_len(a) + byte_len(b),
    decreases b.len(),
{
    if b.len() == 0 {
        assert(a + b =~= a);
        assert(byte_len(b) == 0) by {
            assert(b =~= Seq::<char>::empty());
        }
    } else {
        lemma_byte_len_concat(a, b.drop_last());
        lemma_byte_len_push(a + b.drop_last(), b.last());
        lemma_byte_len_push(b.drop_last(), b.last());
        assert((a + b.drop_last()).push(b.last()) =~= a + b);
        assert(b.drop_last().push(b.last()) =~= b);
    }
}

/// Every char takes at least one byte.
pub proof fn lemma_byte_len_ge(s: Seq<char>)
    ensures
        byte_len(s) >= s.len(),
    decreases s.len(),
{
    if s.len() == 0 {
        assert(byte_len(s) == 0) by {
            assert(s =~= Seq::<char>::empty());
        }
    } else {
        lemma_byte_len_ge(s.drop_last());
        lemma_byte_len_push(s.drop_last(), s.last());
        assert(s.drop_last().push(s.last()) =~= s);
    }
}

/// A char takes one to four bytes.
pub proof fn lemma_char_bytes(c: char)
    ensures
        1 <= byte_len(seq![c]) <= 4,
{
    lemma_byte_len_push(Seq::<char>::empty(), c);
    assert(Seq::<char>::empty().push(c) =~= seq![c]);
    assert(byte_len(Seq::<char>::empty()) == 0);
    let e = vstd::utf8::encode_scalar(c as u32);
    assert(e.len() <= 4);
}

} // verus!
