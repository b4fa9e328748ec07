//! A selection between an anchor and a head position.
use vstd::prelude::*;

use super::buffer::Buffer;
use super::text::{char_index, line_count};

verus! {

#[derive(Debug, Clone, Copy, PartialEq, Eq)]
pub struct Selection {
    pub anchor: (usize, usize),
    pub head: (usize, usize),
}

/// `a` comes no later than `b` in document order.
pub open spec fn pos_le(a: (usize, usize), b: (usize, usize)) -> bool {
    a.0 < b.0 || (a.0 == b.0 && a.1 <= b.1)
}

impl Selection {
    pub fn new(anchor: (usize, usize), head: (usize, usize)) -> (s: Self)
        ensures
            s == (Selection { anchor, head }),
    {
        Selection { anchor, head }
    }

    /// The two ends in document order.
    pub open spec fn spec_ordered(&self) -> ((usize, usize), (usize, usize)) {
        if pos_le(self.anchor, self.head) {
            (self.anchor, self.head)
        } else {
            (self.head, self.anchor)
        }
    }

    /// Returns (start, end) in document order.
    pub fn ordered(&self) -> (r: ((usize, usize), (usize, usize)))
        ensures
            r == self.spec_ordered(),
            pos_le(r.0, r.1),
    {
        if self.anchor.0 < self.head.0 || (self.anchor.0 == self.head.0 && self.anchor.1 <= self.head.1) {
            (self.anchor, self.head)
        } else {
            (self.head, self.anchor)
        }
    }

    pub fn is_empty(&self) -> (b: bool)
        ensures
            b == (self.anchor == self.head),
    {
        self.anchor.0 == self.head.0 && self.anchor.1 == self.head.1
    }

    /// Char indices of both ends, in document order.
    pub open spec fn char_range(&self, t: Seq<char>) -> (int, int) {
        let (s, e) = self.spec_ordered();
        (char_index(t, s.0 as int, s.1 as int), char_index(t, e.0 as int, e.1 as int))
    }

    /// Both ends can be turned into char indices of `t`, in order.
    pub open spec fn fits(&self, t: Seq<char>) -> bool {
        &&& self.anchor.0 <= line_count(t)
        &&& self.head.0 <= line_count(t)
        &&& self.char_range(t).0 <= self.char_range(t).1 <= usize::MAX
    }

    /// The chars between the ends (cut at the end of the text).
    pub fn selected_text(&self, buf: &Buffer) -> (s: String)
        requires
            self.anchor != self.head ==> self.fits(buf@),
        ensures
            self.anchor == self.head ==> s@ == Seq::<char>::empty(),
            self.anchor != self.head ==> ({
                let (a, b) = self.char_range(buf@);
                let n = buf@.len() as int;
                s@ == buf@.subrange(if a < n { a } else { n }, if b < n { b } else { n })
            }),
    {
        if self.is_empty() {
            return String::new();
        }
        let (start, end) = self.ordered();
        let start_idx = buf.line_col_to_char_idx(start.0, start.1);
        let end_idx = buf.line_col_to_char_idx(end.0, end.1);
        let len = buf.len_chars();
        let a = if start_idx < len { start_idx } else { len };
        let b = if end_idx < len { end_idx } else { len };
        buf.text_in_chars(a, b)
    }

    /// Returns true if (line, col) is within the selection range.
    pub fn contains(&self, line: usize, col: usize, buf: &Buffer) -> (b: bool)
        requires
            self.fits(buf@),
            line <= line_count(buf@),
            char_index(buf@, line as int, col as int) <= usize::MAX,
        ensures
            b == ({
                let (a, e) = self.char_range(buf@);
                let p = char_index(buf@, line as int, col as int);
                a <= p && p < e
            }),
    {
        let (start, end) = self.ordered();
        let pos_idx = buf.line_col_to_char_idx(line, col);
        let start_idx = buf.line_col_to_char_idx(start.0, start.1);
        let end_idx = buf.line_col_to_char_idx(end.0, end.1);
        pos_idx >= start_idx && pos_idx < end_idx
    }
}

} // verus!
