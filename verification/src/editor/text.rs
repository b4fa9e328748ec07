//! The mathematical model of a text buffer: a sequence of chars split into
//! lines at line feeds. A line's text includes its terminating `'\n'`; the
//! last line has none.
use vstd::prelude::*;

verus! {

/// Number of line feeds among the first `i` chars of `t`.
pub open spec fn nl_before(t: Seq<char>, i: int) -> nat
    decreases i,
{
    if i <= 0 {
        0
    } else {
        nl_before(t, i - 1) + if t[i - 1] == '\n' { 1nat } else { 0nat }
    }
}

/// Number of lines of `t` (one more than its line feeds).
pub open spec fn line_count(t: Seq<char>) -> nat {
    nl_before(t, t.len() as int) + 1
}

/// `i` is the char index at which line `line` of `t` starts.
pub open spec fn is_line_start(t: Seq<char>, line: int, i: int) -> bool {
    &&& 0 <= i <= t.len()
    &&& nl_before(t, i) == line
    &&& (i == 0 || t[i - 1] == '\n')
}

/// The char index at which line `line` starts; one past the end for
/// `line == line_count(t)`.
pub open spec fn line_start(t: Seq<char>, line: int) -> int {
    if line >= line_count(t) {
        t.len() as int
    } else {
        choose|i: int| is_line_start(t, line, i)
    }
}

/// Length in chars of line `line`, not counting its line feed.
pub open spec fn line_len(t: Seq<char>, line: int) -> int {
    if line + 1 < line_count(t) {
        line_start(t, line + 1) - 1 - line_start(t, line)
    } else {
        t.len() - line_start(t, line)
    }
}

/// Char index of the position (line, col), as the editor computes it:
/// start of the line plus the column.
pub open spec fn char_index(t: Seq<char>, line: int, col: int) -> int {
    line_start(t, line) + col
}

/// A cursor position (line, col) that lies within the text.
pub open spec fn valid_pos(t: Seq<char>, line: int, col: int) -> bool {
    0 <= line < line_count(t) && 0 <= col <= line_len(t, line)
}

/// Number of UTF-8 bytes of `s`.
pub open spec fn byte_len(s: Seq<char>) -> nat {
    vstd::utf8::encode_utf8(s).len()
}

pub proof fn lemma_nl_bounds(t: Seq<char>, i: int)
    requires
        0 <= i <= t.len(),
    ensures
        nl_before(t, i) <= i,
    decreases i,
{
    if i > 0 {
        lemma_nl_bounds(t, i - 1);
    }
}

pub proof fn lemma_nl_mono(t: Seq<char>, i: int, j: int)
    requires
        0 <= i <= j <= t.len(),
    ensures
        nl_before(t, i) <= nl_before(t, j),
        i < j && t[j - 1] == '\n' ==> nl_before(t, i) < nl_before(t, j),
    decreases j - i,
{
    if i < j {
        lemma_nl_mono(t, i, j - 1);
    }
}

pub proof fn lemma_line_start_unique(t: Seq<char>, line: int, i: int, j: int)
    requires
        is_line_start(t, line, i),
        is_line_start(t, line, j),
    ensures
        i == j,
{
    if i < j {
        lemma_nl_mono(t, i, j);
    } else if j < i {
        lemma_nl_mono(t, j, i);
    }
}

/// A position that starts line `line` is `line_start(t, line)`.
pub proof fn lemma_line_start_is(t: Seq<char>, line: int, i: int)
    requires
        is_line_start(t, line, i),
    ensures
        line < line_count(t),
        line_start(t, line) == i,
{
    lemma_nl_mono(t, i, t.len() as int);
    let c = choose|k: int| is_line_start(t, line, k);
    lemma_line_start_unique(t, line, i, c);
}

/// The count of line feeds is unchanged by looking only at a prefix.
pub proof fn lemma_nl_prefix(t: Seq<char>, u: Seq<char>, i: int)
    requires
        0 <= i <= t.len(),
        i <= u.len(),
        t.take(i) == u.take(i),
    ensures
        nl_before(t, i) == nl_before(u, i),
    decreases i,
{
    if i > 0 {
        assert(t.take(i - 1) == t.take(i).take(i - 1));
        assert(u.take(i - 1) == u.take(i).take(i - 1));
        assert(t[i - 1] == t.take(i)[i - 1]);
        assert(u[i - 1] == u.take(i)[i - 1]);
        lemma_nl_prefix(t, u, i - 1);
    }
}

/// Line feeds of a concatenation.
pub proof fn lemma_nl_concat(a: Seq<char>, b: Seq<char>, i: int)
    requires
        a.len() <= i <= a.len() + b.len(),
    ensures
        nl_before(a + b, i) == nl_before(a, a.len() as int) + nl_before(b, i - a.len()),
    decreases i,
{
    if i > a.len() {
        lemma_nl_concat(a, b, i - 1);
        assert((a + b)[i - 1] == b[i - 1 - a.len()]);
    } else {
        assert((a + b).take(i) == a.take(i));
        lemma_nl_prefix(a + b, a, i);
    }
}

/// Within a line, the count of line feeds before a column is the line's
/// number.
pub proof fn lemma_nl_in_line(t: Seq<char>, l: int, j: int)
    requires
        0 <= l < line_count(t),
        0 <= j <= line_len(t, l),
    ensures
        nl_before(t, line_start(t, l) + j) == l,
        line_start(t, l) + j <= t.len(),
    decreases j,
{
    crate::editor::buffer::lemma_line_starts_ordered(t, l);
    let s = line_start(t, l);
    if j > 0 {
        lemma_nl_in_line(t, l, j - 1);
        if t[s + j - 1] == '\n' {
            assert(nl_before(t, s + j) == l + 1);
            if l + 1 < line_count(t) {
                assert(is_line_start(t, l + 1, s + j));
                lemma_line_start_is(t, l + 1, s + j);
            } else {
                lemma_nl_mono(t, s + j, t.len() as int);
            }
        }
    }
}

/// The char index of a valid position lies in the text, on that line.
pub proof fn lemma_valid_index(t: Seq<char>, l: int, c: int)
    requires
        valid_pos(t, l, c),
    ensures
        0 <= line_start(t, l),
        0 <= char_index(t, l, c) <= t.len(),
        nl_before(t, char_index(t, l, c)) == l,
        char_index(t, l, c) - line_start(t, nl_before(t, char_index(t, l, c)) as int) == c,
{
    crate::editor::buffer::lemma_line_starts_ordered(t, l);
    lemma_nl_in_line(t, l, c);
}

/// Lines that start within a common prefix start at the same index.
pub proof fn lemma_line_start_prefix(t: Seq<char>, u: Seq<char>, l: int, k: int)
    requires
        0 <= l < line_count(t),
        line_start(t, l) <= k <= t.len(),
        k <= u.len(),
        t.take(k) == u.take(k),
    ensures
        l < line_count(u),
        line_start(u, l) == line_start(t, l),
{
    crate::editor::buffer::lemma_line_starts_ordered(t, l);
    let i = line_start(t, l);
    assert(t.take(i) == t.take(k).take(i));
    assert(u.take(i) == u.take(k).take(i));
    lemma_nl_prefix(t, u, i);
    if i > 0 {
        assert(t[i - 1] == t.take(k)[i - 1]);
        assert(u[i - 1] == u.take(k)[i - 1]);
    }
    assert(is_line_start(u, l, i));
    lemma_line_start_is(u, l, i);
}

/// Later lines start later.
pub proof fn lemma_line_start_mono(t: Seq<char>, a: int, b: int)
    requires
        0 <= a <= b < line_count(t),
    ensures
        line_start(t, a) <= line_start(t, b),
        a < b ==> line_start(t, a) + line_len(t, a) < line_start(t, b),
    decreases b - a,
{
    crate::editor::buffer::lemma_line_starts_ordered(t, a);
    if a < b {
        lemma_line_start_mono(t, a + 1, b);
    }
}

/// Positions in document order have char indices in order.
pub proof fn lemma_pos_le_index(t: Seq<char>, a: (usize, usize), b: (usize, usize))
    requires
        valid_pos(t, a.0 as int, a.1 as int),
        valid_pos(t, b.0 as int, b.1 as int),
        a.0 < b.0 || (a.0 == b.0 && a.1 <= b.1),
    ensures
        char_index(t, a.0 as int, a.1 as int) <= char_index(t, b.0 as int, b.1 as int),
{
    lemma_line_start_mono(t, a.0 as int, b.0 as int);
}

} // verus!
