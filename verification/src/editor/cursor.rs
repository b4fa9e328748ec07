//! The editing cursor: a (line, col) position in chars, with the column
//! that vertical moves try to keep.
use vstd::prelude::*;

use super::buffer::Buffer;
use super::text::{line_count, line_len, line_start};
use crate::chars::{
    alphanumeric, char_is_alphanumeric, char_is_whitespace, char_width, is_whitespace_char,
    unicode_char_width,
};

verus! {

#[derive(Debug, Clone, Copy, PartialEq, Eq, Structural)]
pub struct Cursor {
    pub line: usize,
    pub col: usize,
    pub desired_col: usize,
}

#[derive(Debug, Clone, Copy, PartialEq, Eq, Structural)]
pub enum CharClass {
    Whitespace,
    Word,
    Punctuation,
}

pub open spec fn class_of(ch: char) -> CharClass {
    if is_whitespace_char(ch) {
        CharClass::Whitespace
    } else if alphanumeric(ch) || ch == '_' {
        CharClass::Word
    } else {
        CharClass::Punctuation
    }
}

pub fn classify(ch: char) -> (c: CharClass)
    ensures
        c == class_of(ch),
{
    if char_is_whitespace(ch) {
        CharClass::Whitespace
    } else if char_is_alphanumeric(ch) || ch == '_' {
        CharClass::Word
    } else {
        CharClass::Punctuation
    }
}

/// The `i`-th char of line `line`.
pub open spec fn line_char(t: Seq<char>, line: int, i: int) -> char {
    t[line_start(t, line) + i]
}

/// Moving left from `col`, past chars that are whitespace.
pub open spec fn skip_ws_left(t: Seq<char>, line: int, col: int) -> int
    decreases col,
{
    if col <= 0 {
        col
    } else if !is_whitespace_char(line_char(t, line, col - 1)) {
        col
    } else {
        skip_ws_left(t, line, col - 1)
    }
}

/// Moving left from `col`, past chars of class `c`.
pub open spec fn skip_class_left(t: Seq<char>, line: int, col: int, c: CharClass) -> int
    decreases col,
{
    if col <= 0 {
        col
    } else if class_of(line_char(t, line, col - 1)) != c {
        col
    } else {
        skip_class_left(t, line, col - 1, c)
    }
}

/// Moving right from `col` up to `end`, past whitespace.
pub open spec fn skip_ws_right(t: Seq<char>, line: int, col: int, end: int) -> int
    decreases end - col,
{
    if col >= end {
        col
    } else if !is_whitespace_char(line_char(t, line, col)) {
        col
    } else {
        skip_ws_right(t, line, col + 1, end)
    }
}

/// Moving right from `col` up to `end`, past chars of class `c`.
pub open spec fn skip_class_right(t: Seq<char>, line: int, col: int, end: int, c: CharClass) -> int
    decreases end - col,
{
    if col >= end {
        col
    } else if class_of(line_char(t, line, col)) != c {
        col
    } else {
        skip_class_right(t, line, col + 1, end, c)
    }
}

/// Column reached by a word-left move from `col` within its line.
pub open spec fn word_left_col(t: Seq<char>, line: int, col: int) -> int {
    let w = skip_ws_left(t, line, col);
    if w == 0 {
        0
    } else {
        skip_class_left(t, line, w, class_of(line_char(t, line, w - 1)))
    }
}

/// Column reached by a word-right move from `col` (before the line's end).
pub open spec fn word_right_col(t: Seq<char>, line: int, col: int) -> int {
    let n = line_len(t, line);
    skip_ws_right(t, line, skip_class_right(t, line, col, n, class_of(line_char(t, line, col))), n)
}

/// Display columns taken by the first `k` chars of `chars`, with tab stops
/// every four columns and control chars zero wide.
pub open spec fn columns_upto(chars: Seq<char>, k: int) -> nat
    decreases k,
{
    if k <= 0 {
        0
    } else {
        let d = columns_upto(chars, k - 1);
        let c = chars[k - 1];
        d + if c == '\t' {
            (4 - d % 4) as nat
        } else {
            match char_width(c) {
                Some(w) => w as nat,
                None => 0,
            }
        }
    }
}

/// The chars of line `line`, its line feed included.
pub open spec fn line_chars(t: Seq<char>, line: int) -> Seq<char> {
    t.subrange(line_start(t, line), line_start(t, line + 1))
}

/// Where a left move takes the cursor: one column left, or to the end of
/// the line above.
pub open spec fn left_of(t: Seq<char>, o: Cursor) -> Cursor {
    let (l, c) = if o.col > 0 {
        (o.line, (o.col - 1) as usize)
    } else if o.line > 0 {
        ((o.line - 1) as usize, line_len(t, o.line - 1) as usize)
    } else {
        (o.line, o.col)
    };
    Cursor { line: l, col: c, desired_col: c }
}

/// Where a right move takes the cursor: one column right, or to the start
/// of the line below.
pub open spec fn right_of(t: Seq<char>, o: Cursor) -> Cursor {
    let (l, c) = if o.col < line_len(t, o.line as int) {
        (o.line, (o.col + 1) as usize)
    } else if o.line + 1 < line_count(t) {
        ((o.line + 1) as usize, 0usize)
    } else {
        (o.line, o.col)
    };
    Cursor { line: l, col: c, desired_col: c }
}

/// A right move undoes a left move: from any position in the text but its
/// very start, moving left and then right comes back to it.
pub proof fn law_right_undoes_left(t: Seq<char>, o: Cursor)
    requires
        t.len() < usize::MAX,
        crate::editor::text::valid_pos(t, o.line as int, o.col as int),
        o.line > 0 || o.col > 0,
    ensures
        right_of(t, left_of(t, o)).line == o.line,
        right_of(t, left_of(t, o)).col == o.col,
{
    crate::editor::buffer::lemma_line_starts_ordered(t, o.line as int);
    if o.col == 0 {
        crate::editor::buffer::lemma_line_starts_ordered(t, o.line - 1);
    }
}

/// Where an up move takes the cursor: the line above, at the wanted column
/// where it is that long.
pub open spec fn up_of(t: Seq<char>, o: Cursor) -> Cursor {
    if o.line > 0 {
        let n = line_len(t, o.line - 1);
        Cursor {
            line: (o.line - 1) as usize,
            col: if o.desired_col < n { o.desired_col } else { n as usize },
            desired_col: o.desired_col,
        }
    } else {
        o
    }
}

/// Where a down move takes the cursor.
pub open spec fn down_of(t: Seq<char>, o: Cursor) -> Cursor {
    if o.line + 1 < line_count(t) {
        let n = line_len(t, o.line + 1);
        Cursor {
            line: (o.line + 1) as usize,
            col: if o.desired_col < n { o.desired_col } else { n as usize },
            desired_col: o.desired_col,
        }
    } else {
        o
    }
}

/// The end of the cursor's line.
pub open spec fn end_of(t: Seq<char>, o: Cursor) -> Cursor {
    let n = line_len(t, o.line as int) as usize;
    Cursor { line: o.line, col: n, desired_col: n }
}

/// Where a word-left move takes the cursor.
pub open spec fn word_left_of(t: Seq<char>, o: Cursor) -> Cursor {
    let (l, c) = if o.col == 0 {
        if o.line > 0 {
            ((o.line - 1) as usize, line_len(t, o.line - 1) as usize)
        } else {
            (o.line, o.col)
        }
    } else {
        (o.line, word_left_col(t, o.line as int, o.col as int) as usize)
    };
    Cursor { line: l, col: c, desired_col: c }
}

/// Where a word-right move takes the cursor.
pub open spec fn word_right_of(t: Seq<char>, o: Cursor) -> Cursor {
    let n = line_len(t, o.line as int);
    let (l, c) = if o.col >= n {
        if o.line + 1 < line_count(t) {
            ((o.line + 1) as usize, 0usize)
        } else {
            (o.line, o.col)
        }
    } else {
        (o.line, word_right_col(t, o.line as int, o.col as int) as usize)
    };
    Cursor { line: l, col: c, desired_col: c }
}

proof fn lemma_skip_left_bounds(t: Seq<char>, line: int, col: int, c: CharClass)
    requires
        col >= 0,
    ensures
        0 <= skip_ws_left(t, line, col) <= col,
        0 <= skip_class_left(t, line, col, c) <= col,
    decreases col,
{
    if col > 0 {
        lemma_skip_left_bounds(t, line, col - 1, c);
    }
}

proof fn lemma_skip_right_bounds(t: Seq<char>, line: int, col: int, end: int, c: CharClass)
    requires
        col <= end,
    ensures
        col <= skip_ws_right(t, line, col, end) <= end,
        col <= skip_class_right(t, line, col, end, c) <= end,
    decreases end - col,
{
    if col < end {
        lemma_skip_right_bounds(t, line, col + 1, end, c);
    }
}

proof fn lemma_skip_ws_left_run(t: Seq<char>, line: int, col: int)
    requires
        col >= 0,
    ensures
        0 <= skip_ws_left(t, line, col) <= col,
        forall|i: int|
            skip_ws_left(t, line, col) <= i < col ==> is_whitespace_char(
                #[trigger] line_char(t, line, i),
            ),
        skip_ws_left(t, line, col) > 0 ==> !is_whitespace_char(
            line_char(t, line, skip_ws_left(t, line, col) - 1),
        ),
    decreases col,
{
    if col > 0 {
        lemma_skip_ws_left_run(t, line, col - 1);
    }
}

proof fn lemma_skip_class_left_run(t: Seq<char>, line: int, col: int, c: CharClass)
    requires
        col >= 0,
    ensures
        0 <= skip_class_left(t, line, col, c) <= col,
        forall|i: int|
            skip_class_left(t, line, col, c) <= i < col ==> class_of(
                #[trigger] line_char(t, line, i),
            ) == c,
        skip_class_left(t, line, col, c) > 0 ==> class_of(
            line_char(t, line, skip_class_left(t, line, col, c) - 1),
        ) != c,
    decreases col,
{
    if col > 0 {
        lemma_skip_class_left_run(t, line, col - 1, c);
    }
}

/// A word-left move from inside a line lands on the start of a word run:
/// it moves left; the chars from the result up to the start column are a
/// run of one class followed only by whitespace; and where the result is
/// not the line start, the char at it is not whitespace and the char
/// before it is of another class.
#[verifier::spinoff_prover]
pub proof fn law_word_left_lands_on_run_start(t: Seq<char>, o: Cursor)
    requires
        o.col > 0,
    ensures
        word_left_of(t, o).line == o.line,
        word_left_of(t, o).col < o.col,
        forall|i: int|
            word_left_of(t, o).col <= i < o.col ==> is_whitespace_char(
                #[trigger] line_char(t, o.line as int, i),
            ) || class_of(line_char(t, o.line as int, i)) == class_of(
                line_char(t, o.line as int, word_left_of(t, o).col as int),
            ),
        forall|i: int, j: int|
            word_left_of(t, o).col <= i < j < o.col && is_whitespace_char(
                #[trigger] line_char(t, o.line as int, i),
            ) ==> is_whitespace_char(#[trigger] line_char(t, o.line as int, j)),
        word_left_of(t, o).col > 0 ==> !is_whitespace_char(
            line_char(t, o.line as int, word_left_of(t, o).col as int),
        ) && class_of(line_char(t, o.line as int, word_left_of(t, o).col - 1)) != class_of(
            line_char(t, o.line as int, word_left_of(t, o).col as int),
        ),
{
    let l = o.line as int;
    let col = o.col as int;
    let w = skip_ws_left(t, l, col);
    lemma_skip_ws_left_run(t, l, col);
    if w > 0 {
        let c = class_of(line_char(t, l, w - 1));
        lemma_skip_class_left_run(t, l, w, c);
        let r = skip_class_left(t, l, w, c);
        assert(r < w);
        assert(word_left_col(t, l, col) == r);
        assert(word_left_of(t, o).col as int == r);
        assert(class_of(line_char(t, l, r)) == c);
        assert(c != CharClass::Whitespace);
    } else {
        assert(word_left_col(t, l, col) == 0);
        assert(word_left_of(t, o).col as int == 0);
    }
}

proof fn lemma_skip_ws_right_run(t: Seq<char>, line: int, col: int, end: int)
    requires
        col <= end,
    ensures
        col <= skip_ws_right(t, line, col, end) <= end,
        forall|i: int|
            col <= i < skip_ws_right(t, line, col, end) ==> is_whitespace_char(
                #[trigger] line_char(t, line, i),
            ),
        skip_ws_right(t, line, col, end) < end ==> !is_whitespace_char(
            line_char(t, line, skip_ws_right(t, line, col, end)),
        ),
    decreases end - col,
{
    if col < end {
        lemma_skip_ws_right_run(t, line, col + 1, end);
    }
}

proof fn lemma_skip_class_right_run(t: Seq<char>, line: int, col: int, end: int, c: CharClass)
    requires
        col <= end,
    ensures
        col <= skip_class_right(t, line, col, end, c) <= end,
        forall|i: int|
            col <= i < skip_class_right(t, line, col, end, c) ==> class_of(
                #[trigger] line_char(t, line, i),
            ) == c,
        skip_class_right(t, line, col, end, c) < end ==> class_of(
            line_char(t, line, skip_class_right(t, line, col, end, c)),
        ) != c,
    decreases end - col,
{
    if col < end {
        lemma_skip_class_right_run(t, line, col + 1, end, c);
    }
}

/// A word-right move from inside a line passes the run of chars of the
/// class of the char under the cursor and the whitespace after it: it
/// moves right, at most to the line end; the chars it passes are of that
/// class or whitespace, with the whitespace last; and where it stops
/// before the line end, the char there is not whitespace and either is of
/// another class or follows whitespace.
#[verifier::spinoff_prover]
pub proof fn law_word_right_passes_run(t: Seq<char>, o: Cursor)
    requires
        0 <= o.col < line_len(t, o.line as int) <= usize::MAX,
    ensures
        word_right_of(t, o).line == o.line,
        o.col < word_right_of(t, o).col <= line_len(t, o.line as int),
        forall|i: int|
            o.col <= i < word_right_of(t, o).col ==> is_whitespace_char(
                #[trigger] line_char(t, o.line as int, i),
            ) || class_of(line_char(t, o.line as int, i)) == class_of(
                line_char(t, o.line as int, o.col as int),
            ),
        forall|i: int, j: int|
            o.col <= i < j < word_right_of(t, o).col && is_whitespace_char(
                #[trigger] line_char(t, o.line as int, i),
            ) ==> is_whitespace_char(#[trigger] line_char(t, o.line as int, j)),
        word_right_of(t, o).col < line_len(t, o.line as int) ==> !is_whitespace_char(
            line_char(t, o.line as int, word_right_of(t, o).col as int),
        ) && (class_of(line_char(t, o.line as int, word_right_of(t, o).col as int)) != class_of(
            line_char(t, o.line as int, o.col as int),
        ) || is_whitespace_char(line_char(t, o.line as int, word_right_of(t, o).col - 1))),
{
    let l = o.line as int;
    let col = o.col as int;
    let n = line_len(t, l);
    let c = class_of(line_char(t, l, col));
    lemma_skip_class_right_run(t, l, col, n, c);
    let m = skip_class_right(t, l, col, n, c);
    lemma_skip_ws_right_run(t, l, m, n);
    let r = skip_ws_right(t, l, m, n);
    assert(col < m);
    assert(word_right_col(t, l, col) == r);
    assert(word_right_of(t, o).col as int == r);
    if c == CharClass::Whitespace {
        assert(r == m);
    }
}

/// Vertical moves keep the wanted column: from a cursor standing at its
/// wanted column, moving up and then down (or down and then up) comes
/// back to the same place, however short the line passed through.
pub proof fn law_vertical_round_trip(t: Seq<char>, o: Cursor)
    requires
        cursor_in(t, o),
        o.col == o.desired_col,
        line_count(t) <= usize::MAX,
    ensures
        o.line > 0 ==> down_of(t, up_of(t, o)) == o,
        o.line + 1 < line_count(t) ==> up_of(t, down_of(t, o)) == o,
{
}

/// Home and End bound the line: from End a right move goes to the start
/// of the next line, and from Home a left move goes to the end of the
/// line above, where there is one.
pub proof fn law_home_end_bound_line(t: Seq<char>, o: Cursor)
    requires
        cursor_in(t, o),
        line_count(t) <= usize::MAX,
        line_len(t, o.line as int) <= usize::MAX,
    ensures
        o.line + 1 < line_count(t) ==> right_of(t, end_of(t, o)) == (Cursor {
            line: (o.line + 1) as usize,
            col: 0,
            desired_col: 0,
        }),
        o.line > 0 ==> left_of(t, Cursor { col: 0, desired_col: 0, ..o }) == (Cursor {
            line: (o.line - 1) as usize,
            col: line_len(t, o.line - 1) as usize,
            desired_col: line_len(t, o.line - 1) as usize,
        }),
{
}

/// The cursor lies within the text.
pub open spec fn cursor_in(t: Seq<char>, k: Cursor) -> bool {
    0 <= k.line < line_count(t) && 0 <= k.col <= line_len(t, k.line as int)
}

/// Every move from a position in the text stays in the text.
pub proof fn lemma_moves_stay_valid(t: Seq<char>, o: Cursor)
    requires
        cursor_in(t, o),
        t.len() < usize::MAX,
    ensures
        cursor_in(t, left_of(t, o)),
        cursor_in(t, right_of(t, o)),
        cursor_in(t, up_of(t, o)),
        cursor_in(t, down_of(t, o)),
        cursor_in(t, end_of(t, o)),
        cursor_in(t, word_left_of(t, o)),
        cursor_in(t, word_right_of(t, o)),
        cursor_in(t, Cursor { col: 0, desired_col: 0, ..o }),
{
    super::text::lemma_nl_bounds(t, t.len() as int);
    super::buffer::lemma_line_starts_ordered(t, o.line as int);
    if o.line > 0 {
        super::buffer::lemma_line_starts_ordered(t, o.line - 1);
    }
    if o.line + 1 < line_count(t) {
        super::buffer::lemma_line_starts_ordered(t, o.line + 1);
    }
    let w = skip_ws_left(t, o.line as int, o.col as int);
    lemma_skip_left_bounds(t, o.line as int, o.col as int, CharClass::Word);
    if w > 0 {
        lemma_skip_left_bounds(t, o.line as int, w, class_of(line_char(t, o.line as int, w - 1)));
    }
    let n = line_len(t, o.line as int);
    if o.col < n {
        let k = class_of(line_char(t, o.line as int, o.col as int));
        lemma_skip_right_bounds(t, o.line as int, o.col as int, n, k);
        let r = skip_class_right(t, o.line as int, o.col as int, n, k);
        lemma_skip_right_bounds(t, o.line as int, r, n, k);
    }
}

impl Cursor {
    pub fn new() -> (c: Self)
        ensures
            c == (Cursor { line: 0, col: 0, desired_col: 0 }),
    {
        Cursor { line: 0, col: 0, desired_col: 0 }
    }

    pub fn move_left(&mut self, buf: &Buffer)
        requires
            old(self).col == 0 && old(self).line > 0 ==> old(self).line - 1 < line_count(buf@),
        ensures
            *final(self) == left_of(buf@, *old(self)),
    {
        if self.col > 0 {
            self.col -= 1;
        } else if self.line > 0 {
            self.line -= 1;
            self.col = buf.line_len_chars(self.line);
        }
        self.reset_desired_col();
    }

    pub fn move_right(&mut self, buf: &Buffer)
        requires
            old(self).line < line_count(buf@),
        ensures
            *final(self) == right_of(buf@, *old(self)),
    {
        proof {
            use_type_invariant(buf);
            Buffer::lemma_fits(buf);
            super::buffer::lemma_line_starts_ordered(buf@, self.line as int);
        }
        let line_len = buf.line_len_chars(self.line);
        if self.col < line_len {
            self.col += 1;
        } else if self.line + 1 < buf.len_lines() {
            self.line += 1;
            self.col = 0;
        }
        self.reset_desired_col();
    }

    pub fn move_up(&mut self, buf: &Buffer)
        requires
            old(self).line > 0 ==> old(self).line - 1 < line_count(buf@),
        ensures
            *final(self) == up_of(buf@, *old(self)),
    {
        if self.line > 0 {
            self.line -= 1;
            let line_len = buf.line_len_chars(self.line);
            self.col = if self.desired_col < line_len { self.desired_col } else { line_len };
        }
    }

    pub fn move_down(&mut self, buf: &Buffer)
        requires
            old(self).line + 1 <= usize::MAX,
        ensures
            *final(self) == down_of(buf@, *old(self)),
    {
        if self.line + 1 < buf.len_lines() {
            self.line += 1;
            let line_len = buf.line_len_chars(self.line);
            self.col = if self.desired_col < line_len { self.desired_col } else { line_len };
        }
    }

    pub fn move_home(&mut self)
        ensures
            *final(self) == (Cursor { line: old(self).line, col: 0, desired_col: 0 }),
    {
        self.col = 0;
        self.reset_desired_col();
    }

    pub fn move_end(&mut self, buf: &Buffer)
        requires
            old(self).line < line_count(buf@),
        ensures
            *final(self) == end_of(buf@, *old(self)),
    {
        self.col = buf.line_len_chars(self.line);
        self.reset_desired_col();
    }

    pub fn move_word_left(&mut self, buf: &Buffer)
        requires
            old(self).col == 0 && old(self).line > 0 ==> old(self).line - 1 < line_count(buf@),
            old(self).col > 0 ==> old(self).line < line_count(buf@),
            old(self).col > 0 ==> old(self).col <= line_start(buf@, old(self).line + 1) - line_start(buf@, old(self).line as int),
        ensures
            *final(self) == word_left_of(buf@, *old(self)),
    {
        if self.col == 0 {
            if self.line > 0 {
                self.line -= 1;
                self.col = buf.line_len_chars(self.line);
            }
            self.reset_desired_col();
            return;
        }
        let ghost t = buf@;
        let ghost l = self.line as int;
        proof { super::buffer::lemma_line_starts_ordered(t, l); }
        let mut col = self.col;
        while col > 0
            invariant
                0 <= col <= self.col,
                self.line < line_count(t),
                self.col <= line_start(t, l + 1) - line_start(t, l),
                l == self.line,
                t == buf@,
                skip_ws_left(t, l, col as int) == skip_ws_left(t, l, self.col as int),
            ensures
                0 <= col <= self.col,
                skip_ws_left(t, l, col as int) == skip_ws_left(t, l, self.col as int),
                col == 0 || !is_whitespace_char(line_char(t, l, col - 1)),
            decreases col,
        {
            let ch = buf.char_at(self.line, col - 1).unwrap();
            if !char_is_whitespace(ch) {
                break;
            }
            col -= 1;
        }
        if col == 0 {
            self.col = 0;
            self.reset_desired_col();
            return;
        }
        let class = classify(buf.char_at(self.line, col - 1).unwrap());
        let ghost w = col as int;
        while col > 0
            invariant
                0 <= col <= w,
                w <= self.col,
                self.line < line_count(t),
                self.col <= line_start(t, l + 1) - line_start(t, l),
                l == self.line,
                t == buf@,
                skip_class_left(t, l, col as int, class) == skip_class_left(t, l, w, class),
            ensures
                skip_class_left(t, l, col as int, class) == skip_class_left(t, l, w, class),
                col == 0 || class_of(line_char(t, l, col - 1)) != class,
            decreases col,
        {
            let ch = buf.char_at(self.line, col - 1).unwrap();
            if classify(ch) != class {
                break;
            }
            col -= 1;
        }
        self.col = col;
        self.reset_desired_col();
    }

    pub fn move_word_right(&mut self, buf: &Buffer)
        requires
            old(self).line < line_count(buf@),
        ensures
            *final(self) == word_right_of(buf@, *old(self)),
    {
        proof {
            use_type_invariant(buf);
            Buffer::lemma_fits(buf);
            super::buffer::lemma_line_starts_ordered(buf@, self.line as int);
        }
        let line_len = buf.line_len_chars(self.line);
        if self.col >= line_len {
            if self.line + 1 < buf.len_lines() {
                self.line += 1;
                self.col = 0;
            }
            self.reset_desired_col();
            return;
        }
        let ghost t = buf@;
        let ghost l = self.line as int;
        let mut col = self.col;
        let class = classify(buf.char_at(self.line, col).unwrap());
        while col < line_len
            invariant
                self.col <= col <= line_len,
                line_len == super::text::line_len(t, l),
                line_start(t, l) + line_len <= line_start(t, l + 1),
                self.line < line_count(t),
                l == self.line,
                t == buf@,
                skip_class_right(t, l, col as int, line_len as int, class)
                    == skip_class_right(t, l, self.col as int, line_len as int, class),
            ensures
                self.col <= col <= line_len,
                skip_class_right(t, l, col as int, line_len as int, class)
                    == skip_class_right(t, l, self.col as int, line_len as int, class),
                col == line_len || class_of(line_char(t, l, col as int)) != class,
            decreases line_len - col,
        {
            let ch = buf.char_at(self.line, col).unwrap();
            if classify(ch) != class {
                break;
            }
            col += 1;
        }
        let ghost k = col as int;
        while col < line_len
            invariant
                k <= col <= line_len,
                line_len == super::text::line_len(t, l),
                line_start(t, l) + line_len <= line_start(t, l + 1),
                self.line < line_count(t),
                l == self.line,
                t == buf@,
                skip_ws_right(t, l, col as int, line_len as int) == skip_ws_right(t, l, k, line_len as int),
            ensures
                skip_ws_right(t, l, col as int, line_len as int) == skip_ws_right(t, l, k, line_len as int),
                col == line_len || !is_whitespace_char(line_char(t, l, col as int)),
            decreases line_len - col,
        {
            let ch = buf.char_at(self.line, col).unwrap();
            if !char_is_whitespace(ch) {
                break;
            }
            col += 1;
        }
        self.col = col;
        self.reset_desired_col();
    }

    pub fn clamp(&mut self, buf: &Buffer)
        ensures
            if buf@.len() == 0 {
                *final(self) == Cursor { line: 0, col: 0, desired_col: 0 }
            } else {
                let l = if old(self).line < line_count(buf@) - 1 { old(self).line as int } else { line_count(buf@) - 1 };
                let n = line_len(buf@, l);
                *final(self) == Cursor {
                    line: l as usize,
                    col: if old(self).col < n { old(self).col } else { n as usize },
                    desired_col: old(self).desired_col,
                }
            },
    {
        if buf.len_chars() == 0 {
            self.line = 0;
            self.col = 0;
            self.desired_col = 0;
            return;
        }
        let max_line = buf.len_lines() - 1;
        self.line = if self.line < max_line { self.line } else { max_line };
        let line_len = buf.line_len_chars(self.line);
        self.col = if self.col < line_len { self.col } else { line_len };
    }

    /// Display column of the cursor: the columns its line takes up to the
    /// cursor, with tab stops every four columns.
    pub fn display_col(&self, buf: &Buffer) -> (d: usize)
        requires
            buf@.len() <= usize::MAX / 4,
        ensures
            self.line >= line_count(buf@) ==> d == 0,
            self.line < line_count(buf@) ==> ({
                let chars = line_chars(buf@, self.line as int);
                d == columns_upto(chars, if self.col < chars.len() { self.col as int } else { chars.len() as int })
            }),
    {
        if self.line >= buf.len_lines() {
            return 0;
        }
        let ghost t = buf@;
        let ghost chars = line_chars(t, self.line as int);
        proof { super::buffer::lemma_line_starts_ordered(t, self.line as int); }
        let mut display: usize = 0;
        let mut i: usize = 0;
        while i < self.col
            invariant
                self.line < line_count(t),
                t == buf@,
                chars == line_chars(t, self.line as int),
                0 <= line_start(t, self.line as int) <= line_start(t, self.line + 1) <= t.len(),
                t.len() <= usize::MAX / 4,
                i <= chars.len(),
                i <= self.col,
                display == columns_upto(chars, i as int),
                display <= 4 * i,
            ensures
                display == columns_upto(chars, i as int),
                i == (if self.col < chars.len() { self.col as int } else { chars.len() as int }),
            decreases self.col - i,
        {
            let ch = match buf.char_at(self.line, i) {
                Some(c) => c,
                None => break,
            };
            assert(ch == chars[i as int]);
            if ch == '\t' {
                let tab_stop = 4 - (display % 4);
                display += tab_stop;
            } else {
                display += match unicode_char_width(ch) {
                    Some(w) => w,
                    None => 0,
                };
            }
            i += 1;
        }
        display
    }

    pub fn reset_desired_col(&mut self)
        ensures
            *final(self) == (Cursor { desired_col: old(self).col, ..*old(self) }),
    {
        self.desired_col = self.col;
    }

    pub fn position(&self) -> (p: (usize, usize))
        ensures
            p == (self.line, self.col),
    {
        (self.line, self.col)
    }
}

} // verus!
