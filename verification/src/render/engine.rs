//! The render engine: each visible line becomes spans, by the kind of
//! markdown it lies in, with a position map between raw and shown columns.
use vstd::prelude::*;

use crate::chars::same_text;
use crate::editor::buffer::{byte_offset, lemma_byte_offset_mono, lemma_line_starts_ordered, Buffer};
use crate::editor::text::{byte_len, line_count, line_len, line_start};
use crate::markdown::reveal_set::{reveal_from, RevealSet};
use crate::markdown::syntax::{shape_at, syntax_tree, SyntaxNode};
use crate::markdown::MarkdownState;
use crate::render::block::{
    break_spans, heading_spans, quote_spans, render_atx_heading, render_block_quote, render_thematic_break,
    shown_text, HeadingMeta,
};
use crate::render::code_block::{code_line_spans, render_fenced_code_block_line, CodeHighlighter};
use crate::render::header_image::display_rows_for_tier;
use crate::render::inline::{inline_spans, render_inline};
use crate::render::list::{list_item_spans, render_list_item};
use crate::render::plan::{map_of, spans_fit, spans_fit_check, as_ints, ImageHeader, PositionMap, RenderLine, RenderSpan};
use crate::render::spans::{emit, span_models, text_model, text_span, SpanModel};
use crate::render::table::{child_for_byte, child_index_for_byte, render_pipe_table_line, table_line_spans};
use crate::style::Style;

verus! {

pub open spec fn is_table_kind(k: Seq<char>) -> bool {
    k == "pipe_table"@ || k == "pipe_table_header"@ || k == "pipe_table_delimiter_row"@ || k == "pipe_table_row"@
}

/// The spans of the line `ls..le`, going down from `node` towards `ls`
/// until a node of a kind that renders itself: inline content, headings
/// (which also report their tier and whether they are concealed), breaks,
/// block quotes, list items, tables and code blocks (which look their
/// table or block up from `root`); raw text where none is met.
pub open spec fn context_spans(
    t: Seq<char>,
    rv: Seq<(int, int)>,
    root: SyntaxNode,
    node: SyntaxNode,
    ls: int,
    le: int,
    width: int,
) -> (Seq<SpanModel>, Option<(int, bool)>)
    decreases node,
{
    let k = node.kind@;
    if k == "inline"@ {
        (inline_spans(t, rv, node, ls, le, Style::plain()), None)
    } else if k == "atx_heading"@ || k == "setext_heading"@ {
        let r = heading_spans(t, rv, node, ls, le);
        (r.0, Some((r.1, r.2)))
    } else if k == "thematic_break"@ {
        (break_spans(t, rv, ls, le, width as nat), None)
    } else if k == "block_quote"@ {
        (quote_spans(t, rv, node, ls, le), None)
    } else if k == "list_item"@ {
        (list_item_spans(t, rv, node, ls, le), None)
    } else if is_table_kind(k) {
        (table_line_spans(t, rv, root, ls, le), None)
    } else if k == "fenced_code_block"@ {
        (code_line_spans(t, rv, root, ls, le, width), None)
    } else {
        let j = child_for_byte(node, ls, 0);
        if 0 <= j < node.children@.len() {
            context_spans(t, rv, root, node.children@[j], ls, le, width)
        } else {
            (seq![text_model(t, ls, le, Style::plain())], None)
        }
    }
}

/// Renders the line `line_start..line_end` by the markdown around it (see
/// `context_spans`); a heading's metadata comes back with its spans.
fn render_line_with_context(
    h: &CodeHighlighter,
    root: &SyntaxNode,
    node: &SyntaxNode,
    buffer: &Buffer,
    reveal_set: &RevealSet,
    line_start: usize,
    line_end: usize,
    viewport_width: usize,
) -> (r: (Vec<RenderSpan>, Option<HeadingMeta>))
    requires
        root.fits(byte_len(buffer@) as int),
        node.fits(byte_len(buffer@) as int),
        line_start <= line_end <= byte_len(buffer@),
    ensures
        ({
            let c = context_spans(buffer@, reveal_set.model(), *root, *node, line_start as int, line_end as int, viewport_width as int);
            &&& span_models(r.0@) == c.0
            &&& match c.1 {
                Some((tier, concealed)) => r.1 matches Some(m) && m.tier == tier && m.is_concealed == concealed
                    && m.plain_text@ == if concealed { shown_text(c.0) } else { Seq::empty() },
                None => r.1 is None,
            }
        }),
    decreases node,
{
    let ghost e = span_models(Seq::<RenderSpan>::empty());
    assert(e =~= Seq::<SpanModel>::empty());
    let mut spans: Vec<RenderSpan> = Vec::new();
    let kind = node.kind.as_str();
    if same_text(kind, "inline") {
        render_inline(node, buffer, reveal_set, line_start, line_end, Style::new(), &mut spans);
        return (spans, None);
    }
    if same_text(kind, "atx_heading") || same_text(kind, "setext_heading") {
        let meta = render_atx_heading(node, buffer, reveal_set, line_start, line_end, &mut spans);
        return (spans, Some(meta));
    }
    if same_text(kind, "thematic_break") {
        render_thematic_break(buffer, reveal_set, line_start, line_end, viewport_width, &mut spans);
        return (spans, None);
    }
    if same_text(kind, "block_quote") {
        render_block_quote(node, buffer, reveal_set, line_start, line_end, &mut spans);
        return (spans, None);
    }
    if same_text(kind, "list_item") {
        render_list_item(node, buffer, reveal_set, line_start, line_end, viewport_width, &mut spans);
        return (spans, None);
    }
    if same_text(kind, "pipe_table") || same_text(kind, "pipe_table_header") || same_text(kind, "pipe_table_delimiter_row")
        || same_text(kind, "pipe_table_row") {
        render_pipe_table_line(root, buffer, reveal_set, line_start, line_end, &mut spans);
        return (spans, None);
    }
    if same_text(kind, "fenced_code_block") {
        render_fenced_code_block_line(h, root, buffer, reveal_set, line_start, line_end, viewport_width, &mut spans);
        return (spans, None);
    }
    match child_index_for_byte(node, line_start) {
        Some(j) => {
            proof { assert(node.children@[j as int].fits(byte_len(buffer@) as int)); }
            render_line_with_context(h, root, &node.children[j], buffer, reveal_set, line_start, line_end, viewport_width)
        },
        None => {
            emit(&mut spans, text_span(line_start, line_end, buffer, Style::new()));
            proof { assert(span_models(spans@) =~= seq![text_model(buffer@, line_start as int, line_end as int, Style::plain())]); }
            (spans, None)
        },
    }
}

/// The byte range of line `line` of `t`, without its line feed.
pub open spec fn line_bytes(t: Seq<char>, line: int) -> (int, int) {
    let s = line_start(t, line);
    (byte_offset(t, s) as int, byte_offset(t, s + line_len(t, line)) as int)
}

/// The position map of `spans`, or of no spans where their counts do not
/// fit.
pub open spec fn map_for(spans: Seq<RenderSpan>) -> (Seq<int>, Seq<int>) {
    if spans_fit(spans) { map_of(spans) } else { map_of(Seq::empty()) }
}

/// Builds the position map of `spans` (of none where their counts do not
/// fit its counters).
fn position_map_for(spans: &Vec<RenderSpan>, raw_line_char_count: usize) -> (m: PositionMap)
    ensures
        (as_ints(m.raw_to_display@), as_ints(m.display_to_raw@)) == map_for(spans@),
{
    if spans_fit_check(spans.as_slice()) {
        PositionMap::build(spans.as_slice(), raw_line_char_count)
    } else {
        let none: Vec<RenderSpan> = Vec::new();
        assert(spans_fit(none@)) by {
            reveal_with_fuel(crate::render::plan::map_prefix, 2);
        }
        PositionMap::build(none.as_slice(), 0)
    }
}

/// The line's byte range.
fn line_byte_range(buffer: &Buffer, line_idx: usize) -> (r: (usize, usize, usize))
    requires
        line_idx < line_count(buffer@),
    ensures
        (r.0 as int, r.1 as int) == line_bytes(buffer@, line_idx as int),
        r.2 == line_len(buffer@, line_idx as int),
        r.0 <= r.1 <= byte_len(buffer@),
{
    let ghost t = buffer@;
    proof {
        use_type_invariant(buffer);
        Buffer::lemma_fits(buffer);
        lemma_line_starts_ordered(t, line_idx as int);
        let s = line_start(t, line_idx as int);
        let e = s + line_len(t, line_idx as int);
        lemma_byte_offset_mono(t, s, e);
        lemma_byte_offset_mono(t, e, t.len() as int);
        assert(t.take(t.len() as int) =~= t);
    }
    let start = buffer.line_to_byte(line_idx);
    let n = buffer.line_len_chars(line_idx);
    let end = if n == 0 {
        start
    } else {
        let c = buffer.line_col_to_char_idx(line_idx, n);
        buffer.char_to_byte(c)
    };
    (start, end, n)
}

/// The image header of a concealed heading with a tier, where images are
/// drawn.
pub open spec fn image_header_for(head: Option<(int, bool)>, text: Seq<char>, images: bool) -> Option<(int, Seq<char>, int)> {
    match head {
        Some((tier, concealed)) => if images && concealed && tier > 0 {
            Some((tier, text, if tier == 1 { 3int } else if tier == 2 { 2 } else { 1 }))
        } else {
            None
        },
        None => None,
    }
}

pub open spec fn image_model(h: Option<ImageHeader>) -> Option<(int, Seq<char>, int)> {
    match h {
        Some(x) => Some((x.tier as int, x.text@, x.display_rows as int)),
        None => None,
    }
}

/// `rl` is line `line` of `t` rendered with the syntax tree `root` and
/// the revealed ranges `rv`: an empty line has no spans; other lines are
/// rendered by `context_spans` from the root, and a concealed heading with
/// a tier gets an image header where `images` is set; the position map is
/// built from the spans.
pub open spec fn renders_line(rl: RenderLine, t: Seq<char>, rv: Seq<(int, int)>, root: SyntaxNode, line: int, width: int, images: bool) -> bool {
    let (ls, le) = line_bytes(t, line);
    let c = context_spans(t, rv, root, root, ls, le, width);
    &&& rl.line_idx == line
    &&& if ls == le {
        span_models(rl.spans@) == Seq::<SpanModel>::empty() && rl.image_header is None
    } else {
        &&& span_models(rl.spans@) == c.0
        &&& image_model(rl.image_header) == image_header_for(c.1, shown_text(c.0), images)
    }
    &&& (as_ints(rl.position_map.raw_to_display@), as_ints(rl.position_map.display_to_raw@)) == map_for(rl.spans@)
}

/// Renders buffer line `line_idx` with the syntax tree `root` and the
/// revealed ranges (see `renders_line`).
pub fn render_buffer_line(
    h: &CodeHighlighter,
    root: &SyntaxNode,
    buffer: &Buffer,
    reveal_set: &RevealSet,
    line_idx: usize,
    viewport_width: usize,
    images: bool,
) -> (rl: RenderLine)
    requires
        root.fits(byte_len(buffer@) as int),
        line_idx < line_count(buffer@),
    ensures
        renders_line(rl, buffer@, reveal_set.model(), *root, line_idx as int, viewport_width as int, images),
{
    let (start, end, n) = line_byte_range(buffer, line_idx);
    if start == end {
        let spans: Vec<RenderSpan> = Vec::new();
        assert(span_models(spans@) =~= Seq::<SpanModel>::empty());
        let position_map = position_map_for(&spans, 0);
        return RenderLine { line_idx, spans, position_map, image_header: None };
    }
    let (spans, meta) = render_line_with_context(h, root, root, buffer, reveal_set, start, end, viewport_width);
    let image_header = match meta {
        Some(m) => {
            if m.is_concealed && m.tier > 0 && images {
                Some(ImageHeader { tier: m.tier, text: m.plain_text, display_rows: display_rows_for_tier(m.tier) })
            } else {
                None
            }
        },
        None => None,
    };
    let position_map = position_map_for(&spans, n);
    RenderLine { line_idx, spans, position_map, image_header }
}

/// A line shown as its plain text.
pub open spec fn plain_line_spans(t: Seq<char>, line: int) -> Seq<SpanModel> {
    let (ls, le) = line_bytes(t, line);
    let text = text_model(t, ls, le, Style::plain()).text;
    if text.len() == 0 {
        Seq::empty()
    } else {
        seq![SpanModel { text, style: Style::plain(), start: ls, end: le, chars: line_len(t, line) as int, decoration: false }]
    }
}

/// Renders buffer line `line_idx` as plain text, for a buffer without a
/// syntax tree.
pub fn plain_render_line(line_idx: usize, buffer: &Buffer) -> (rl: RenderLine)
    requires
        line_idx < line_count(buffer@),
    ensures
        rl.line_idx == line_idx,
        span_models(rl.spans@) == plain_line_spans(buffer@, line_idx as int),
        rl.image_header is None,
        (as_ints(rl.position_map.raw_to_display@), as_ints(rl.position_map.display_to_raw@)) == map_for(rl.spans@),
{
    let (start, end, n) = line_byte_range(buffer, line_idx);
    let text = buffer.text_for_byte_range(start, end);
    let mut spans: Vec<RenderSpan> = Vec::new();
    if text.as_str().unicode_len() > 0 {
        spans.push(RenderSpan { display_text: text, style: Style::new(), raw_byte_range: start..end, raw_char_count: n, is_decoration: false });
    }
    assert(span_models(spans@) =~= plain_line_spans(buffer@, line_idx as int));
    let position_map = position_map_for(&spans, n);
    RenderLine { line_idx, spans, position_map, image_header: None }
}

/// `v` are the lines of `t` from `start` on, rendered as `renders_line`
/// says with a syntax tree `root` that fits the text.
pub open spec fn renders_lines(v: Seq<RenderLine>, t: Seq<char>, rv: Seq<(int, int)>, root: SyntaxNode, start: int, width: int, images: bool) -> bool {
    &&& root.fits(byte_len(t) as int)
    &&& forall|i: int| 0 <= i < v.len() ==> renders_line(#[trigger] v[i], t, rv, root, start + i, width, images)
}

/// `rl` is line `line` of `t` shown as plain text.
pub open spec fn plain_line(rl: RenderLine, t: Seq<char>, line: int) -> bool {
    &&& rl.line_idx == line
    &&& span_models(rl.spans@) == plain_line_spans(t, line)
    &&& rl.image_header is None
    &&& (as_ints(rl.position_map.raw_to_display@), as_ints(rl.position_map.display_to_raw@)) == map_for(rl.spans@)
}

/// Renders the lines `visible_start..visible_end` with the syntax tree
/// `root` and the revealed ranges (see `renders_line`).
pub fn render_lines(
    h: &CodeHighlighter,
    root: &SyntaxNode,
    buffer: &Buffer,
    reveal_set: &RevealSet,
    visible_start: usize,
    visible_end: usize,
    viewport_width: usize,
    images: bool,
) -> (v: Vec<RenderLine>)
    requires
        root.fits(byte_len(buffer@) as int),
        visible_start <= visible_end <= line_count(buffer@),
    ensures
        v@.len() == visible_end - visible_start,
        forall|i: int| 0 <= i < v@.len() ==> renders_line(#[trigger] v@[i], buffer@, reveal_set.model(), *root,
            visible_start + i, viewport_width as int, images),
{
    let mut lines: Vec<RenderLine> = Vec::new();
    let mut k = visible_start;
    while k < visible_end
        invariant
            visible_start <= k <= visible_end,
            visible_end <= line_count(buffer@),
            root.fits(byte_len(buffer@) as int),
            lines@.len() == k - visible_start,
            forall|i: int| 0 <= i < lines@.len() ==> renders_line(#[trigger] lines@[i], buffer@, reveal_set.model(), *root,
                visible_start + i, viewport_width as int, images),
        decreases visible_end - k,
    {
        let rl = render_buffer_line(h, root, buffer, reveal_set, k, viewport_width, images);
        lines.push(rl);
        k += 1;
    }
    lines
}

/// Renders the lines `visible_start..visible_end` for a viewport
/// `viewport_width` columns wide: with the buffer's syntax tree and the
/// ranges the cursor reveals where there is a tree, as plain text where
/// there is none. `images` says whether concealed headings are drawn as
/// images.
pub fn compute_render_lines_with_width(
    h: &CodeHighlighter,
    markdown: &MarkdownState,
    buffer: &Buffer,
    cursor_byte: usize,
    visible_start: usize,
    visible_end: usize,
    viewport_width: usize,
    images: bool,
) -> (v: Vec<RenderLine>)
    requires
        visible_start <= visible_end <= line_count(buffer@),
    ensures
        v@.len() == visible_end - visible_start,
        !markdown.has_tree() ==> forall|i: int| 0 <= i < v@.len() ==> plain_line(#[trigger] v@[i], buffer@, visible_start + i),
        markdown.has_tree() ==> exists|root: SyntaxNode|
            #[trigger] renders_lines(
                v@,
                buffer@,
                reveal_from(markdown.syntax(), Seq::empty(), cursor_byte as int, usize::MAX as nat),
                root,
                visible_start as int,
                viewport_width as int,
                images,
            ) && root.shape() == shape_at(markdown.syntax(), Seq::empty(), byte_len(buffer@) as int, usize::MAX as nat),
{
    match markdown.tree() {
        None => {
            let mut lines: Vec<RenderLine> = Vec::new();
            let mut k = visible_start;
            while k < visible_end
                invariant
                    visible_start <= k <= visible_end,
                    visible_end <= line_count(buffer@),
                    lines@.len() == k - visible_start,
                    forall|i: int| 0 <= i < lines@.len() ==> plain_line(#[trigger] lines@[i], buffer@, visible_start + i),
                decreases visible_end - k,
            {
                lines.push(plain_render_line(k, buffer));
                k += 1;
            }
            lines
        },
        Some(tree) => {
            let reveal_set = RevealSet::from_cursor(tree, cursor_byte);
            let root = syntax_tree(tree, buffer.len_bytes());
            let v = render_lines(h, &root, buffer, &reveal_set, visible_start, visible_end, viewport_width, images);
            assert(renders_lines(v@, buffer@, reveal_set.model(), root, visible_start as int, viewport_width as int, images));
            v
        },
    }
}

/// Renders the lines `visible_start..visible_end` for an 80-column
/// viewport without header images.
pub fn compute_render_lines(
    h: &CodeHighlighter,
    markdown: &MarkdownState,
    buffer: &Buffer,
    cursor_byte: usize,
    visible_start: usize,
    visible_end: usize,
) -> (v: Vec<RenderLine>)
    requires
        visible_start <= visible_end <= line_count(buffer@),
    ensures
        v@.len() == visible_end - visible_start,
        !markdown.has_tree() ==> forall|i: int| 0 <= i < v@.len() ==> plain_line(#[trigger] v@[i], buffer@, visible_start + i),
        markdown.has_tree() ==> exists|root: SyntaxNode|
            #[trigger] renders_lines(
                v@,
                buffer@,
                reveal_from(markdown.syntax(), Seq::empty(), cursor_byte as int, usize::MAX as nat),
                root,
                visible_start as int,
                80,
                false,
            ) && root.shape() == shape_at(markdown.syntax(), Seq::empty(), byte_len(buffer@) as int, usize::MAX as nat),
{
    compute_render_lines_with_width(h, markdown, buffer, cursor_byte, visible_start, visible_end, 80, false)
}

} // verus!
