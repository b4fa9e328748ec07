//! Rendered lines: spans of display text tied to raw buffer ranges, and
//! the mapping between raw char columns and display columns.
use vstd::prelude::*;
use std::ops::Range;

use crate::chars::{cell_width, display_width};
use crate::style::Style;

verus! {

/// A single segment of rendered output for a line.
#[derive(Debug)]
pub struct RenderSpan {
    /// The text to display on screen (may differ from raw buffer text).
    pub display_text: String,
    /// Style to apply to this span.
    pub style: Style,
    /// The raw byte range in the buffer this span corresponds to.
    pub raw_byte_range: Range<usize>,
    /// Number of raw chars this span covers in the buffer.
    pub raw_char_count: usize,
    /// If true, this span is a synthetic decoration not from the buffer.
    pub is_decoration: bool,
}

/// Bidirectional mapping between raw char column and rendered display column.
#[derive(Debug, Clone)]
pub struct PositionMap {
    /// For each raw char column (index 0..=raw_char_count), the display column.
    pub raw_to_display: Vec<usize>,
    /// For each display column (index 0..=display_width), the raw char column.
    pub display_to_raw: Vec<usize>,
}

/// Metadata for a heading that should be rendered as an image.
#[derive(Debug, Clone)]
pub struct ImageHeader {
    pub tier: u8,
    pub text: String,
    pub display_rows: u16,
}

/// A fully rendered line ready for display.
#[derive(Debug)]
pub struct RenderLine {
    pub line_idx: usize,
    pub spans: Vec<RenderSpan>,
    pub position_map: PositionMap,
    pub image_header: Option<ImageHeader>,
}

/// Display columns taken by `s`.
pub open spec fn width_of(s: Seq<char>) -> nat
    decreases s.len(),
{
    if s.len() == 0 {
        0
    } else {
        width_of(s.drop_last()) + cell_width(s.last())
    }
}

/// Raw-to-display entries of a span that starts at display column `d0`.
pub open spec fn raw_segment(span: RenderSpan, d0: int) -> Seq<int> {
    let disp = span.display_text@;
    let r = span.raw_char_count as int;
    if span.is_decoration {
        Seq::empty()
    } else if disp.len() == 0 || r != disp.len() {
        Seq::new(r as nat, |j: int| d0)
    } else {
        Seq::new(r as nat, |j: int| d0 + width_of(disp.take(j)))
    }
}

/// Display-to-raw entries for `chars` shown one raw char each from `r0`.
pub open spec fn one_to_one_segment(chars: Seq<char>, r0: int) -> Seq<int>
    decreases chars.len(),
{
    if chars.len() == 0 {
        Seq::empty()
    } else {
        one_to_one_segment(chars.drop_last(), r0) + Seq::new(cell_width(chars.last()), |k: int| r0 + chars.len() - 1)
    }
}

/// Display-to-raw entries of a span that starts at raw column `r0`: every
/// display column of a decoration or a replacement maps to `r0`.
pub open spec fn display_segment(span: RenderSpan, r0: int) -> Seq<int> {
    let disp = span.display_text@;
    if span.is_decoration || disp.len() == 0 || span.raw_char_count != disp.len() {
        Seq::new(width_of(disp), |k: int| r0)
    } else {
        one_to_one_segment(disp, r0)
    }
}

/// The mapping built from the first `n` spans: raw-to-display entries,
/// display-to-raw entries, and the raw and display columns reached.
pub open spec fn map_prefix(spans: Seq<RenderSpan>, n: int) -> (Seq<int>, Seq<int>, int, int)
    decreases n,
{
    if n <= 0 {
        (Seq::empty(), Seq::empty(), 0, 0)
    } else {
        let (r2d, d2r, raw, disp) = map_prefix(spans, n - 1);
        let span = spans[n - 1];
        (
            r2d + raw_segment(span, disp),
            d2r + display_segment(span, raw),
            raw + if span.is_decoration { 0 } else { span.raw_char_count as int },
            disp + width_of(span.display_text@),
        )
    }
}

pub open spec fn map_of(spans: Seq<RenderSpan>) -> (Seq<int>, Seq<int>) {
    let (r2d, d2r, raw, disp) = map_prefix(spans, spans.len() as int);
    (r2d.push(disp), d2r.push(raw))
}

/// Raw chars and display columns of all spans fit in a `usize`.
pub open spec fn spans_fit(spans: Seq<RenderSpan>) -> bool {
    map_prefix(spans, spans.len() as int).2 + 1 < usize::MAX
        && map_prefix(spans, spans.len() as int).3 + 1 < usize::MAX
}

proof fn lemma_prefix_mono(spans: Seq<RenderSpan>, i: int, j: int)
    requires
        0 <= i <= j <= spans.len(),
    ensures
        0 <= map_prefix(spans, i).2 <= map_prefix(spans, j).2,
        0 <= map_prefix(spans, i).3 <= map_prefix(spans, j).3,
    decreases j,
{
    if j > 0 {
        lemma_prefix_mono(spans, if i < j { i } else { j - 1 }, j - 1);
    }
}

/// The entries of a column map as integers.
pub open spec fn as_ints(s: Seq<usize>) -> Seq<int> {
    s.map_values(|v: usize| v as int)
}

proof fn lemma_as_ints_push(s: Seq<usize>, v: usize)
    ensures
        as_ints(s.push(v)) == as_ints(s).push(v as int),
{
    assert(as_ints(s.push(v)) =~= as_ints(s).push(v as int));
}

proof fn lemma_as_ints_repeat(s: Seq<usize>, v: usize, n: nat)
    ensures
        as_ints(s + Seq::new(n, |k: int| v)) == as_ints(s) + Seq::new(n, |k: int| v as int),
{
    assert(as_ints(s + Seq::new(n, |k: int| v)) =~= as_ints(s) + Seq::new(n, |k: int| v as int));
}

proof fn lemma_width_step(s: Seq<char>, j: int)
    requires
        0 <= j < s.len(),
    ensures
        width_of(s.take(j + 1)) == width_of(s.take(j)) + cell_width(s[j]),
{
    assert(s.take(j + 1).drop_last() =~= s.take(j));
}

/// Pushes `v` `n` times.
fn push_repeat(out: &mut Vec<usize>, v: usize, n: usize)
    ensures
        final(out)@ == old(out)@ + Seq::new(n as nat, |k: int| v),
{
    let ghost start = out@;
    let mut i: usize = 0;
    while i < n
        invariant
            i <= n,
            out@ == start + Seq::new(i as nat, |k: int| v),
        decreases n - i,
    {
        out.push(v);
        i += 1;
        assert(out@ =~= start + Seq::new(i as nat, |k: int| v));
    }
}

impl PositionMap {
    /// Build position map from a sequence of render spans.
    ///
    /// - Normal spans map raw chars 1:1 to display chars (with their widths).
    /// - Hidden text (empty display) collapses to the current display column.
    /// - Replacement text maps all its raw chars to its first display column,
    ///   and all its display columns to its first raw char.
    /// - Decorations take display columns but no raw chars.
    pub fn build(spans: &[RenderSpan], raw_line_char_count: usize) -> (m: PositionMap)
        requires
            spans_fit(spans@),
        ensures
            as_ints(m.raw_to_display@) == map_of(spans@).0,
            as_ints(m.display_to_raw@) == map_of(spans@).1,
    {
        let mut raw_to_display: Vec<usize> = Vec::new();
        let mut display_to_raw: Vec<usize> = Vec::new();
        let mut raw_col: usize = 0;
        let mut display_col: usize = 0;
        let mut i: usize = 0;
        while i < spans.len()
            invariant
                i <= spans@.len(),
                spans_fit(spans@),
                as_ints(raw_to_display@) == map_prefix(spans@, i as int).0,
                as_ints(display_to_raw@) == map_prefix(spans@, i as int).1,
                raw_col == map_prefix(spans@, i as int).2,
                display_col == map_prefix(spans@, i as int).3,
            decreases spans@.len() - i,
        {
            proof { lemma_prefix_mono(spans@, i + 1, spans@.len() as int); }
            let span = &spans[i];
            let ghost d0 = display_col as int;
            let ghost r0 = raw_col as int;
            let ghost disp = span.display_text@;
            let ghost r2d0 = raw_to_display@;
            let ghost d2r0 = display_to_raw@;
            let n = span.display_text.as_str().unicode_len();
            let mut j: usize = 0;
            let empty = n == 0;
            let one_to_one = !span.is_decoration && !empty && span.raw_char_count == n;
            let replacement = !span.is_decoration && !empty && span.raw_char_count != n;
            if !span.is_decoration && empty {
                push_repeat(&mut raw_to_display, display_col, span.raw_char_count);
                raw_col += span.raw_char_count;
            }
            if replacement {
                push_repeat(&mut raw_to_display, display_col, span.raw_char_count);
            }
            let raw_start = raw_col;
            while j < n
                invariant
                    n == disp.len(),
                    disp == span.display_text@,
                    span == spans@[i as int],
                    i < spans@.len(),
                    j <= n,
                    empty == (n == 0),
                    one_to_one == (!span.is_decoration && !empty && span.raw_char_count == n),
                    spans_fit(spans@),
                    map_prefix(spans@, i + 1).2 == r0 + if span.is_decoration { 0 } else { span.raw_char_count as int },
                    map_prefix(spans@, i + 1).2 + 1 < usize::MAX,
                    map_prefix(spans@, i + 1).3 + 1 < usize::MAX,
                    map_prefix(spans@, i + 1).3 == d0 + width_of(disp),
                    display_col == d0 + width_of(disp.take(j as int)),
                    raw_start == if !span.is_decoration && empty { r0 + span.raw_char_count } else { r0 },
                    one_to_one ==> raw_col == r0 + j,
                    !one_to_one ==> raw_col == raw_start,
                    one_to_one ==> as_ints(raw_to_display@)
                        == as_ints(r2d0) + Seq::new(j as nat, |k: int| d0 + width_of(disp.take(k))),
                    one_to_one ==> as_ints(display_to_raw@)
                        == as_ints(d2r0) + one_to_one_segment(disp.take(j as int), r0),
                    !one_to_one ==> as_ints(raw_to_display@)
                        == as_ints(r2d0) + raw_segment(*span, d0),
                    !one_to_one ==> as_ints(display_to_raw@)
                        == as_ints(d2r0) + Seq::new(width_of(disp.take(j as int)), |k: int| r0),
                decreases n - j,
            {
                proof { lemma_width_step(disp, j as int); lemma_width_mono(disp, j + 1); }
                let ghost r2d_prev = raw_to_display@;
                let ghost d2r_prev = display_to_raw@;
                let ghost dc = display_col;
                let ghost rc = raw_col;
                let ch = span.display_text.as_str().get_char(j);
                let w = display_width(ch);
                if one_to_one {
                    raw_to_display.push(display_col);
                    push_repeat(&mut display_to_raw, raw_col, w);
                    raw_col += 1;
                } else {
                    push_repeat(&mut display_to_raw, raw_start, w);
                }
                display_col += w;
                j += 1;
                proof {
                    let jp = j - 1;
                    assert(disp.take(j as int).drop_last() =~= disp.take(jp));
                    assert(disp.take(j as int).last() == ch);
                    lemma_as_ints_repeat(d2r_prev, if one_to_one { rc } else { raw_start }, w as nat);
                    if one_to_one {
                        lemma_as_ints_push(r2d_prev, dc);
                        assert(Seq::new(j as nat, |k: int| d0 + width_of(disp.take(k)))
                            =~= Seq::new(jp as nat, |k: int| d0 + width_of(disp.take(k))).push(dc as int));
                        assert(one_to_one_segment(disp.take(j as int), r0)
                            == one_to_one_segment(disp.take(jp), r0) + Seq::new(cell_width(ch), |k: int| r0 + j - 1));
                        assert(Seq::new(cell_width(ch), |k: int| r0 + j - 1) =~= Seq::new(w as nat, |k: int| rc as int));
                        assert(as_ints(raw_to_display@)
                            =~= as_ints(r2d0) + Seq::new(j as nat, |k: int| d0 + width_of(disp.take(k))));
                        assert(as_ints(display_to_raw@)
                            =~= as_ints(d2r0) + one_to_one_segment(disp.take(j as int), r0));
                    } else {
                        assert(raw_start == r0);
                        assert(Seq::new(width_of(disp.take(j as int)), |k: int| r0)
                            =~= Seq::new(width_of(disp.take(jp)), |k: int| r0) + Seq::new(w as nat, |k: int| raw_start as int));
                        assert(as_ints(display_to_raw@)
                            =~= as_ints(d2r0) + Seq::new(width_of(disp.take(j as int)), |k: int| r0));
                    }
                }
            }
            if replacement {
                raw_col += span.raw_char_count;
            }
            proof {
                assert(disp.take(n as int) =~= disp);
                assert(as_ints(raw_to_display@)
                    =~= map_prefix(spans@, i + 1).0);
                assert(as_ints(display_to_raw@)
                    =~= map_prefix(spans@, i + 1).1);
            }
            i += 1;
        }
        let ghost r2d = raw_to_display@;
        let ghost d2r = display_to_raw@;
        raw_to_display.push(display_col);
        display_to_raw.push(raw_col);
        assert(as_ints(raw_to_display@) =~= as_ints(r2d).push(display_col as int));
        assert(as_ints(display_to_raw@) =~= as_ints(d2r).push(raw_col as int));
        PositionMap { raw_to_display, display_to_raw }
    }

    /// Convert a raw char column to a display column, clamped to the map.
    pub fn raw_to_display_col(&self, raw_col: usize) -> (d: usize)
        ensures
            self.raw_to_display@.len() == 0 ==> d == 0,
            self.raw_to_display@.len() > 0 ==> d == self.raw_to_display@[
                if raw_col < self.raw_to_display@.len() - 1 { raw_col as int } else { self.raw_to_display@.len() - 1 }
            ],
    {
        if self.raw_to_display.len() == 0 {
            return 0;
        }
        let last = self.raw_to_display.len() - 1;
        let idx = if raw_col < last { raw_col } else { last };
        self.raw_to_display[idx]
    }

    /// Convert a display column to a raw char column, clamped to the map.
    pub fn display_to_raw_col(&self, display_col: usize) -> (r: usize)
        ensures
            self.display_to_raw@.len() == 0 ==> r == 0,
            self.display_to_raw@.len() > 0 ==> r == self.display_to_raw@[
                if display_col < self.display_to_raw@.len() - 1 { display_col as int } else { self.display_to_raw@.len() - 1 }
            ],
    {
        if self.display_to_raw.len() == 0 {
            return 0;
        }
        let last = self.display_to_raw.len() - 1;
        let idx = if display_col < last { display_col } else { last };
        self.display_to_raw[idx]
    }
}

proof fn lemma_width_mono(s: Seq<char>, j: int)
    requires
        0 <= j <= s.len(),
    ensures
        width_of(s.take(j)) <= width_of(s),
    decreases s.len() - j,
{
    if j < s.len() {
        lemma_width_mono(s, j + 1);
        lemma_width_step(s, j);
    } else {
        assert(s.take(j) =~= s);
    }
}

/// Display columns of all spans of a line.
pub open spec fn line_width(spans: Seq<RenderSpan>) -> nat
    decreases spans.len(),
{
    if spans.len() == 0 {
        0
    } else {
        line_width(spans.drop_last()) + width_of(spans.last().display_text@)
    }
}

/// Screen rows a line takes at viewport width `vw`: one for a zero width
/// or an empty line, an image header's own rows, else as many rows as its
/// width needs.
pub open spec fn line_rows(l: RenderLine, vw: int) -> int {
    if vw <= 0 {
        1
    } else if l.image_header is Some {
        l.image_header.unwrap().display_rows as int
    } else if line_width(l.spans@) == 0 {
        1
    } else {
        (line_width(l.spans@) + vw - 1) / vw
    }
}

impl RenderLine {
    /// Whether the line's width plus `viewport_width` fits a `usize`, as
    /// `screen_rows` needs.
    pub fn fits_width(&self, viewport_width: usize) -> (b: bool)
        ensures
            b == (line_width(self.spans@) + viewport_width <= usize::MAX),
    {
        let mut w: usize = viewport_width;
        let mut i: usize = 0;
        while i < self.spans.len()
            invariant
                i <= self.spans@.len(),
                w == line_width(self.spans@.take(i as int)) + viewport_width,
            decreases self.spans@.len() - i,
        {
            let ghost disp = self.spans@[i as int].display_text@;
            proof {
                assert(self.spans@.take(i + 1).drop_last() =~= self.spans@.take(i as int));
            }
            let n = self.spans[i].display_text.as_str().unicode_len();
            let mut j: usize = 0;
            while j < n
                invariant
                    n == disp.len(),
                    disp == self.spans@[i as int].display_text@,
                    i < self.spans@.len(),
                    j <= n,
                    line_width(self.spans@.take(i + 1)) == line_width(self.spans@.take(i as int)) + width_of(disp),
                    w == line_width(self.spans@.take(i as int)) + width_of(disp.take(j as int)) + viewport_width,
                decreases n - j,
            {
                proof { lemma_width_step(disp, j as int); }
                let cw = display_width(self.spans[i].display_text.as_str().get_char(j));
                if cw > usize::MAX - w {
                    proof {
                        lemma_width_mono(disp, j + 1);
                        lemma_line_width_mono(self.spans@, i + 1);
                    }
                    return false;
                }
                w += cw;
                j += 1;
            }
            assert(disp.take(n as int) =~= disp);
            i += 1;
        }
        assert(self.spans@.take(self.spans@.len() as int) =~= self.spans@);
        true
    }

    /// Total display width of this rendered line.
    pub fn display_width(&self) -> (w: usize)
        requires
            line_width(self.spans@) <= usize::MAX,
        ensures
            w == line_width(self.spans@),
    {
        let mut w: usize = 0;
        let mut i: usize = 0;
        while i < self.spans.len()
            invariant
                i <= self.spans@.len(),
                line_width(self.spans@) <= usize::MAX,
                w == line_width(self.spans@.take(i as int)),
            decreases self.spans@.len() - i,
        {
            let ghost disp = self.spans@[i as int].display_text@;
            proof {
                assert(self.spans@.take(i + 1).drop_last() =~= self.spans@.take(i as int));
                lemma_line_width_mono(self.spans@, i + 1);
            }
            let n = self.spans[i].display_text.as_str().unicode_len();
            let mut j: usize = 0;
            while j < n
                invariant
                    n == disp.len(),
                    disp == self.spans@[i as int].display_text@,
                    i < self.spans@.len(),
                    j <= n,
                    line_width(self.spans@.take(i + 1)) <= usize::MAX,
                    line_width(self.spans@.take(i + 1)) == line_width(self.spans@.take(i as int)) + width_of(disp),
                    w == line_width(self.spans@.take(i as int)) + width_of(disp.take(j as int)),
                decreases n - j,
            {
                proof { lemma_width_step(disp, j as int); lemma_width_mono(disp, j + 1); }
                let ch = self.spans[i].display_text.as_str().get_char(j);
                w += display_width(ch);
                j += 1;
            }
            assert(disp.take(n as int) =~= disp);
            i += 1;
        }
        assert(self.spans@.take(self.spans@.len() as int) =~= self.spans@);
        w
    }

    /// How many screen rows this line occupies at the given viewport width:
    /// an image header takes its own rows, an empty line one row, and text
    /// as many rows as it needs.
    pub fn screen_rows(&self, viewport_width: usize) -> (rows: usize)
        requires
            line_width(self.spans@) + viewport_width <= usize::MAX,
        ensures
            rows == line_rows(*self, viewport_width as int),
    {
        if viewport_width == 0 {
            return 1;
        }
        if let Some(img) = &self.image_header {
            return img.display_rows as usize;
        }
        let w = self.display_width();
        if w == 0 {
            return 1;
        }
        (w + viewport_width - 1) / viewport_width
    }

    /// Given a display column and viewport width, return `(wrap_row, x_in_row)`.
    pub fn wrap_position(&self, display_col: usize, viewport_width: usize) -> (p: (usize, usize))
        ensures
            viewport_width == 0 ==> p == (0usize, display_col),
            viewport_width > 0 ==> p == ((display_col / viewport_width) as usize, (display_col % viewport_width) as usize),
    {
        if viewport_width == 0 {
            return (0, display_col);
        }
        (display_col / viewport_width, display_col % viewport_width)
    }
}

proof fn lemma_line_width_mono(spans: Seq<RenderSpan>, i: int)
    requires
        0 <= i <= spans.len(),
    ensures
        line_width(spans.take(i)) <= line_width(spans),
    decreases spans.len() - i,
{
    if i < spans.len() {
        lemma_line_width_mono(spans, i + 1);
        assert(spans.take(i + 1).drop_last() =~= spans.take(i));
    } else {
        assert(spans.take(i) =~= spans);
    }
}

/// Whether the raw chars and display columns of `spans` fit the counters
/// a position map keeps (see `spans_fit`).
pub fn spans_fit_check(spans: &[RenderSpan]) -> (b: bool)
    ensures
        b == spans_fit(spans@),
{
    let mut raw: usize = 0;
    let mut disp: usize = 0;
    let mut i: usize = 0;
    while i < spans.len()
        invariant
            i <= spans@.len(),
            raw == map_prefix(spans@, i as int).2,
            disp == map_prefix(spans@, i as int).3,
            raw + 1 < usize::MAX,
            disp + 1 < usize::MAX,
        decreases spans@.len() - i,
    {
        proof { lemma_prefix_mono(spans@, i + 1, spans@.len() as int); }
        let span = &spans[i];
        let ghost text = span.display_text@;
        if !span.is_decoration {
            if span.raw_char_count >= usize::MAX - 1 - raw {
                return false;
            }
            raw += span.raw_char_count;
        }
        let n = span.display_text.as_str().unicode_len();
        let ghost d0 = disp as int;
        let mut j: usize = 0;
        while j < n
            invariant
                n == text.len(),
                text == spans@[i as int].display_text@,
                *span == spans@[i as int],
                i < spans@.len(),
                j <= n,
                map_prefix(spans@, i + 1).3 == d0 + width_of(text),
                map_prefix(spans@, i + 1).3 <= map_prefix(spans@, spans@.len() as int).3,
                disp == d0 + width_of(text.take(j as int)),
                disp + 1 < usize::MAX,
            decreases n - j,
        {
            proof { lemma_width_step(text, j as int); lemma_width_mono(text, j + 1); }
            let w = display_width(span.display_text.as_str().get_char(j));
            if w >= usize::MAX - 1 - disp {
                return false;
            }
            disp += w;
            j += 1;
        }
        assert(text.take(n as int) =~= text);
        i += 1;
    }
    true
}


/// Raw chars covered by the spans that come from the buffer.
pub open spec fn raw_chars(spans: Seq<RenderSpan>) -> nat
    decreases spans.len(),
{
    if spans.len() == 0 {
        0
    } else {
        raw_chars(spans.drop_last()) + if spans.last().is_decoration { 0 } else { spans.last().raw_char_count as nat }
    }
}

/// `s` never decreases and every entry lies in `lo..=hi`.
pub open spec fn ascending_within(s: Seq<int>, lo: int, hi: int) -> bool {
    &&& forall|i: int, j: int| 0 <= i <= j < s.len() ==> s[i] <= s[j]
    &&& forall|i: int| 0 <= i < s.len() ==> lo <= #[trigger] s[i] <= hi
}

proof fn lemma_ascending_concat(a: Seq<int>, b: Seq<int>, lo: int, mid: int, hi: int)
    requires
        ascending_within(a, lo, mid),
        ascending_within(b, mid, hi),
        lo <= mid <= hi,
    ensures
        ascending_within(a + b, lo, hi),
{
    let c = a + b;
    assert forall|i: int, j: int| 0 <= i <= j < c.len() implies c[i] <= c[j] by {
        if j < a.len() {
        } else if i >= a.len() {
            assert(c[i] == b[i - a.len()] && c[j] == b[j - a.len()]);
        } else {
            assert(c[i] == a[i] && c[j] == b[j - a.len()]);
        }
    }
    assert forall|i: int| 0 <= i < c.len() implies lo <= #[trigger] c[i] <= hi by {
        if i >= a.len() {
            assert(c[i] == b[i - a.len()]);
        }
    }
}

proof fn lemma_width_take_mono(s: Seq<char>, i: int, j: int)
    requires
        0 <= i <= j <= s.len(),
    ensures
        width_of(s.take(i)) <= width_of(s.take(j)),
{
    assert(s.take(j).take(i) =~= s.take(i));
    lemma_width_mono(s.take(j), i);
}

proof fn lemma_raw_segment_shape(span: RenderSpan, d0: int)
    requires
        !span.is_decoration,
    ensures
        raw_segment(span, d0).len() == span.raw_char_count,
        ascending_within(raw_segment(span, d0), d0, d0 + width_of(span.display_text@)),
{
    let disp = span.display_text@;
    let seg = raw_segment(span, d0);
    if disp.len() == 0 || span.raw_char_count != disp.len() {
    } else {
        assert forall|i: int, j: int| 0 <= i <= j < seg.len() implies seg[i] <= seg[j] by {
            lemma_width_take_mono(disp, i, j);
        }
        assert forall|i: int| 0 <= i < seg.len() implies d0 <= #[trigger] seg[i] <= d0 + width_of(disp) by {
            lemma_width_mono(disp, i);
        }
    }
}

proof fn lemma_one_to_one_shape(chars: Seq<char>, r0: int)
    requires
        chars.len() > 0,
    ensures
        one_to_one_segment(chars, r0).len() == width_of(chars),
        ascending_within(one_to_one_segment(chars, r0), r0, r0 + chars.len() - 1),
    decreases chars.len(),
{
    let rest = chars.drop_last();
    let tail = Seq::new(cell_width(chars.last()), |k: int| r0 + chars.len() - 1);
    assert(ascending_within(tail, r0 + chars.len() - 1, r0 + chars.len() - 1));
    if rest.len() == 0 {
        assert(one_to_one_segment(rest, r0) =~= Seq::<int>::empty());
        assert(one_to_one_segment(chars, r0) =~= tail);
        assert(width_of(rest) == 0);
    } else {
        lemma_one_to_one_shape(rest, r0);
        lemma_ascending_concat(one_to_one_segment(rest, r0), tail, r0, r0 + chars.len() - 1, r0 + chars.len() - 1);
    }
}

proof fn lemma_display_segment_shape(span: RenderSpan, r0: int)
    ensures
        display_segment(span, r0).len() == width_of(span.display_text@),
        ascending_within(
            display_segment(span, r0),
            r0,
            r0 + if span.is_decoration { 0 } else { span.raw_char_count as int },
        ),
{
    let disp = span.display_text@;
    if span.is_decoration || disp.len() == 0 || span.raw_char_count != disp.len() {
    } else {
        lemma_one_to_one_shape(disp, r0);
    }
}

proof fn lemma_prefix_shape(spans: Seq<RenderSpan>, n: int)
    requires
        0 <= n <= spans.len(),
    ensures
        map_prefix(spans, n).2 == raw_chars(spans.take(n)),
        map_prefix(spans, n).3 == line_width(spans.take(n)),
        map_prefix(spans, n).0.len() == map_prefix(spans, n).2,
        map_prefix(spans, n).1.len() == map_prefix(spans, n).3,
        ascending_within(map_prefix(spans, n).0, 0, map_prefix(spans, n).3),
        ascending_within(map_prefix(spans, n).1, 0, map_prefix(spans, n).2),
    decreases n,
{
    if n == 0 {
        assert(spans.take(0) =~= Seq::<RenderSpan>::empty());
    } else {
        lemma_prefix_shape(spans, n - 1);
        assert(spans.take(n).drop_last() =~= spans.take(n - 1));
        let (r2d, d2r, raw, disp) = map_prefix(spans, n - 1);
        let span = spans[n - 1];
        let w = width_of(span.display_text@);
        lemma_display_segment_shape(span, raw);
        lemma_ascending_concat(d2r, display_segment(span, raw), 0, raw,
            raw + if span.is_decoration { 0 } else { span.raw_char_count as int });
        if span.is_decoration {
            assert(raw_segment(span, disp) =~= Seq::<int>::empty());
            assert(r2d + raw_segment(span, disp) =~= r2d);
        } else {
            lemma_raw_segment_shape(span, disp);
            lemma_ascending_concat(r2d, raw_segment(span, disp), 0, disp, disp + w);
        }
    }
}

/// A position map has one raw-to-display entry for each raw char that the
/// spans cover plus one for the end of the line, and one display-to-raw
/// entry for each display column plus one. Both maps never decrease: moving
/// right in the buffer never moves left on screen, and the other way round.
/// Every entry stays within the line: display columns up to the line's
/// width, raw columns up to its raw char count.
pub proof fn law_position_map_shape(spans: Seq<RenderSpan>)
    ensures
        map_of(spans).0.len() == raw_chars(spans) + 1,
        map_of(spans).1.len() == line_width(spans) + 1,
        ascending_within(map_of(spans).0, 0, line_width(spans) as int),
        ascending_within(map_of(spans).1, 0, raw_chars(spans) as int),
        map_of(spans).0.last() == line_width(spans),
        map_of(spans).1.last() == raw_chars(spans),
{
    let n = spans.len() as int;
    lemma_prefix_shape(spans, n);
    assert(spans.take(n) =~= spans);
    let (r2d, d2r, raw, disp) = map_prefix(spans, n);
    assert(ascending_within(seq![disp], disp, disp));
    lemma_ascending_concat(r2d, seq![disp], 0, disp, disp);
    assert(r2d.push(disp) =~= r2d + seq![disp]);
    assert(ascending_within(seq![raw], raw, raw));
    lemma_ascending_concat(d2r, seq![raw], 0, raw, raw);
    assert(d2r.push(raw) =~= d2r + seq![raw]);
}

} // verus!
