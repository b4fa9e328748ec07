//! Syntax highlighting of markdown: a style per node kind, and the map of
//! styled byte ranges for the visible lines.
use vstd::prelude::*;
use tree_sitter_md::MarkdownCursor;

use crate::chars::same_text;
use crate::editor::buffer::{byte_offset, Buffer};
use crate::editor::text::{byte_len, line_count, line_start};
use crate::style::{Color, Modifier, Style};
use super::{
    closed_tree, cursor_at, cursor_node, cursor_nodes, cursor_ok, goto_first_child, goto_next_sibling, goto_parent,
    walk_tree, MarkdownState,
};

verus! {

#[derive(Debug, Clone, Copy)]
pub struct HighlightSpan {
    pub start_byte: usize,
    pub end_byte: usize,
    pub style: Style,
}

#[derive(Debug)]
pub struct HighlightMap {
    spans: Vec<HighlightSpan>,
}

/// The style a node kind is highlighted with, if any.
pub open spec fn kind_style(kind: Seq<char>) -> Option<Style> {
    let bold = Modifier { bold: true, ..Modifier::none() };
    let plain = Style::plain();
    if kind == "atx_heading"@ || kind == "setext_heading"@ {
        Some(plain.spec_add_modifier(bold))
    } else if kind == "atx_h1_marker"@ {
        Some((Style { fg: Some(Color::Cyan), ..plain }).spec_add_modifier(bold))
    } else if kind == "atx_h2_marker"@ {
        Some((Style { fg: Some(Color::Blue), ..plain }).spec_add_modifier(bold))
    } else if kind == "atx_h3_marker"@ {
        Some((Style { fg: Some(Color::Magenta), ..plain }).spec_add_modifier(bold))
    } else if kind == "atx_h4_marker"@ || kind == "atx_h5_marker"@ || kind == "atx_h6_marker"@ {
        Some((Style { fg: Some(Color::DarkGray), ..plain }).spec_add_modifier(bold))
    } else if kind == "setext_h1_underline"@ || kind == "setext_h2_underline"@ {
        Some(Style { fg: Some(Color::DarkGray), ..plain })
    } else if kind == "emphasis"@ {
        Some(plain.spec_add_modifier(Modifier { italic: true, ..Modifier::none() }))
    } else if kind == "strong_emphasis"@ {
        Some(plain.spec_add_modifier(bold))
    } else if kind == "strikethrough"@ {
        Some(plain.spec_add_modifier(Modifier { crossed_out: true, ..Modifier::none() }))
    } else if kind == "emphasis_delimiter"@ {
        Some(Style { fg: Some(Color::DarkGray), ..plain })
    } else if kind == "code_span"@ {
        Some(Style { bg: Some(Color::Indexed(236)), ..plain })
    } else if kind == "code_span_delimiter"@ {
        Some(Style { fg: Some(Color::DarkGray), bg: Some(Color::Indexed(236)), ..plain })
    } else if kind == "fenced_code_block"@ {
        Some(Style { fg: Some(Color::Green), ..plain })
    } else if kind == "fenced_code_block_delimiter"@ || kind == "code_fence_content"@ {
        Some(Style { fg: Some(Color::DarkGray), ..plain })
    } else if kind == "info_string"@ {
        Some(Style { fg: Some(Color::Yellow), ..plain })
    } else if kind == "block_quote_marker"@ {
        Some(Style { fg: Some(Color::DarkGray), ..plain })
    } else if kind == "block_quote"@ {
        Some(Style { fg: Some(Color::Indexed(245)), ..plain })
    } else if kind == "thematic_break"@ {
        Some(Style { fg: Some(Color::DarkGray), ..plain })
    } else if kind == "list_marker_minus"@ || kind == "list_marker_plus"@ || kind == "list_marker_star"@
        || kind == "list_marker_dot"@ || kind == "list_marker_parenthesis"@ {
        Some(Style { fg: Some(Color::Yellow), ..plain })
    } else if kind == "task_list_marker_checked"@ {
        Some(Style { fg: Some(Color::Green), ..plain })
    } else if kind == "task_list_marker_unchecked"@ {
        Some(Style { fg: Some(Color::DarkGray), ..plain })
    } else if kind == "link_text"@ || kind == "image_description"@ || kind == "uri_autolink"@
        || kind == "email_autolink"@ {
        Some((Style { fg: Some(Color::Blue), ..plain }).spec_add_modifier(
            Modifier { underlined: true, ..Modifier::none() },
        ))
    } else if kind == "link_destination"@ {
        Some(Style { fg: Some(Color::DarkGray), ..plain })
    } else {
        None
    }
}

/// The highlight style of a node kind.
pub fn style_for_node(kind: &str) -> (s: Option<Style>)
    ensures
        s == kind_style(kind@),
{
    let plain = Style::new();
    if same_text(kind, "atx_heading") || same_text(kind, "setext_heading") {
        Some(plain.add_modifier(Modifier::bold()))
    } else if same_text(kind, "atx_h1_marker") {
        Some(plain.fg(Color::Cyan).add_modifier(Modifier::bold()))
    } else if same_text(kind, "atx_h2_marker") {
        Some(plain.fg(Color::Blue).add_modifier(Modifier::bold()))
    } else if same_text(kind, "atx_h3_marker") {
        Some(plain.fg(Color::Magenta).add_modifier(Modifier::bold()))
    } else if same_text(kind, "atx_h4_marker") || same_text(kind, "atx_h5_marker") || same_text(kind, "atx_h6_marker") {
        Some(plain.fg(Color::DarkGray).add_modifier(Modifier::bold()))
    } else if same_text(kind, "setext_h1_underline") || same_text(kind, "setext_h2_underline") {
        Some(plain.fg(Color::DarkGray))
    } else if same_text(kind, "emphasis") {
        Some(plain.add_modifier(Modifier::italic()))
    } else if same_text(kind, "strong_emphasis") {
        Some(plain.add_modifier(Modifier::bold()))
    } else if same_text(kind, "strikethrough") {
        Some(plain.add_modifier(Modifier::crossed_out()))
    } else if same_text(kind, "emphasis_delimiter") {
        Some(plain.fg(Color::DarkGray))
    } else if same_text(kind, "code_span") {
        Some(plain.bg(Color::Indexed(236)))
    } else if same_text(kind, "code_span_delimiter") {
        Some(plain.fg(Color::DarkGray).bg(Color::Indexed(236)))
    } else if same_text(kind, "fenced_code_block") {
        Some(plain.fg(Color::Green))
    } else if same_text(kind, "fenced_code_block_delimiter") || same_text(kind, "code_fence_content") {
        Some(plain.fg(Color::DarkGray))
    } else if same_text(kind, "info_string") {
        Some(plain.fg(Color::Yellow))
    } else if same_text(kind, "block_quote_marker") {
        Some(plain.fg(Color::DarkGray))
    } else if same_text(kind, "block_quote") {
        Some(plain.fg(Color::Indexed(245)))
    } else if same_text(kind, "thematic_break") {
        Some(plain.fg(Color::DarkGray))
    } else if same_text(kind, "list_marker_minus") || same_text(kind, "list_marker_plus")
        || same_text(kind, "list_marker_star") || same_text(kind, "list_marker_dot")
        || same_text(kind, "list_marker_parenthesis") {
        Some(plain.fg(Color::Yellow))
    } else if same_text(kind, "task_list_marker_checked") {
        Some(plain.fg(Color::Green))
    } else if same_text(kind, "task_list_marker_unchecked") {
        Some(plain.fg(Color::DarkGray))
    } else if same_text(kind, "link_text") || same_text(kind, "image_description")
        || same_text(kind, "uri_autolink") || same_text(kind, "email_autolink") {
        Some(plain.fg(Color::Blue).add_modifier(Modifier::underlined()))
    } else if same_text(kind, "link_destination") {
        Some(plain.fg(Color::DarkGray))
    } else {
        None
    }
}

/// `sorted` with `x` placed after every span that starts no later.
pub open spec fn insert_by_start(sorted: Seq<HighlightSpan>, x: HighlightSpan) -> Seq<HighlightSpan> {
    let k = first_after(sorted, x.start_byte, 0);
    sorted.take(k).push(x) + sorted.skip(k)
}

/// The first index from `i` of a span starting after `start`, or the length.
pub open spec fn first_after(s: Seq<HighlightSpan>, start: usize, i: int) -> int
    decreases s.len() - i,
{
    if i >= s.len() {
        s.len() as int
    } else if s[i].start_byte > start {
        i
    } else {
        first_after(s, start, i + 1)
    }
}

/// Spans ordered by start byte, keeping the order of spans that start
/// together (a stable sort).
pub open spec fn sorted_by_start(s: Seq<HighlightSpan>) -> Seq<HighlightSpan>
    decreases s.len(),
{
    if s.len() == 0 {
        Seq::empty()
    } else {
        insert_by_start(sorted_by_start(s.drop_last()), s.last())
    }
}

/// The style at `byte`: the spans holding it layered in order over the
/// plain style.
pub open spec fn layered(s: Seq<HighlightSpan>, byte: usize) -> Style
    decreases s.len(),
{
    if s.len() == 0 {
        Style::plain()
    } else {
        let below = layered(s.drop_last(), byte);
        let top = s.last();
        if top.start_byte <= byte < top.end_byte {
            below.spec_patch(top.style)
        } else {
            below
        }
    }
}

impl HighlightMap {
    pub closed spec fn spans_view(&self) -> Seq<HighlightSpan> {
        self.spans@
    }

    pub fn new() -> (m: Self)
        ensures
            m.spans_view() == Seq::<HighlightSpan>::empty(),
    {
        HighlightMap { spans: Vec::new() }
    }

    /// Adds a styled range; empty ranges are dropped.
    pub fn push(&mut self, start_byte: usize, end_byte: usize, style: Style)
        ensures
            final(self).spans_view() == if start_byte < end_byte {
                old(self).spans_view().push(HighlightSpan { start_byte, end_byte, style })
            } else {
                old(self).spans_view()
            },
    {
        if start_byte < end_byte {
            self.spans.push(HighlightSpan { start_byte, end_byte, style });
        }
    }

    /// Orders the spans by start byte, keeping the order of spans that
    /// start together.
    pub fn finalize(&mut self)
        ensures
            final(self).spans_view() == sorted_by_start(old(self).spans_view()),
    {
        let ghost input = self.spans@;
        let mut out: Vec<HighlightSpan> = Vec::new();
        let mut i: usize = 0;
        while i < self.spans.len()
            invariant
                i <= self.spans@.len(),
                self.spans@ == input,
                out@ == sorted_by_start(input.take(i as int)),
            decreases self.spans@.len() - i,
        {
            let x = self.spans[i];
            proof {
                assert(input.take(i + 1).drop_last() =~= input.take(i as int));
                assert(input.take(i + 1).last() == x);
            }
            let ghost sorted = out@;
            let mut k: usize = 0;
            while k < out.len() && out[k].start_byte <= x.start_byte
                invariant
                    k <= out@.len(),
                    out@ == sorted,
                    first_after(sorted, x.start_byte, 0) == first_after(sorted, x.start_byte, k as int),
                decreases out@.len() - k,
            {
                k += 1;
            }
            assert(first_after(sorted, x.start_byte, k as int) == k);
            out.insert(k, x);
            assert(out@ =~= insert_by_start(sorted, x));
            i += 1;
        }
        assert(input.take(i as int) =~= input);
        self.spans = out;
    }

    /// The style at `byte_offset`: every span holding it, layered in order
    /// over the plain style.
    pub fn style_at(&self, byte_offset: usize) -> (s: Style)
        ensures
            s == layered(self.spans_view(), byte_offset),
    {
        let mut result = Style::new();
        let mut i: usize = 0;
        while i < self.spans.len()
            invariant
                i <= self.spans@.len(),
                result == layered(self.spans@.take(i as int), byte_offset),
            decreases self.spans@.len() - i,
        {
            let span = self.spans[i];
            proof {
                assert(self.spans@.take(i + 1).drop_last() =~= self.spans@.take(i as int));
            }
            if span.start_byte <= byte_offset && byte_offset < span.end_byte {
                result = result.patch(span.style);
            }
            i += 1;
        }
        assert(self.spans@.take(i as int) =~= self.spans@);
        result
    }

    /// The spans, in order.
    pub fn spans(&self) -> (v: &Vec<HighlightSpan>)
        ensures
            v@ == self.spans_view(),
    {
        &self.spans
    }
}

/// The span a node with kind `k` and range `s..e` gets: one in its kind's
/// style, where it has one and the range is not empty.
pub open spec fn node_span(k: Seq<char>, s: usize, e: usize) -> Seq<HighlightSpan> {
    match kind_style(k) {
        Some(style) => if s < e { seq![HighlightSpan { start_byte: s, end_byte: e, style }] } else { Seq::empty() },
        None => Seq::empty(),
    }
}

/// The spans for the node at `q` of `nodes` and the nodes below it that
/// overlap `vs..ve`, in walk order: a node outside the range is skipped
/// with everything below it; the walk goes `depth` levels down at most.
pub open spec fn hl_node(nodes: Map<Seq<int>, (Seq<char>, usize, usize, nat)>, q: Seq<int>, vs: int, ve: int, depth: nat) -> Seq<HighlightSpan>
    decreases depth, 0int, 0int,
{
    let (k, s, e, n) = nodes[q];
    if e <= vs || s >= ve {
        Seq::empty()
    } else {
        node_span(k, s, e) + if depth > 0 && n > 0 {
            hl_siblings(nodes, q, 0, vs, ve, (depth - 1) as nat)
        } else {
            Seq::empty()
        }
    }
}

/// The spans for children `i..` of the node at `parent` (see `hl_node`).
pub open spec fn hl_siblings(nodes: Map<Seq<int>, (Seq<char>, usize, usize, nat)>, parent: Seq<int>, i: int, vs: int, ve: int, depth: nat) -> Seq<HighlightSpan>
    decreases depth, 1int, nodes[parent].3 - i,
{
    if i < 0 || i >= nodes[parent].3 {
        Seq::empty()
    } else {
        hl_node(nodes, parent.push(i), vs, ve, depth) + hl_siblings(nodes, parent, i + 1, vs, ve, depth)
    }
}

/// The spans still to come for a walk at `at`: the root's own, or those of
/// the siblings from `at` on.
pub open spec fn hl_rest(nodes: Map<Seq<int>, (Seq<char>, usize, usize, nat)>, at: Seq<int>, vs: int, ve: int, depth: nat) -> Seq<HighlightSpan> {
    if at.len() == 0 {
        hl_node(nodes, at, vs, ve, depth)
    } else {
        hl_siblings(nodes, at.drop_last(), at.last(), vs, ve, depth)
    }
}

/// Highlights the nodes of the visible lines, `visible_line_start` up to
/// (not including) `visible_line_end` (the end of the text where that is
/// past the last line): every node that overlaps them and has a highlight
/// style gets a span (see `hl_node`). The spans come out ordered by start.
pub fn compute(
    state: &MarkdownState,
    buffer: &Buffer,
    visible_line_start: usize,
    visible_line_end: usize,
    cursor_byte: usize,
) -> (m: HighlightMap)
    requires
        visible_line_start <= line_count(buffer@),
    ensures
        !state.has_tree() ==> m.spans_view().len() == 0,
        state.has_tree() ==> m.spans_view() == sorted_by_start(hl_node(
            state.syntax(),
            Seq::empty(),
            byte_offset(buffer@, line_start(buffer@, visible_line_start as int)) as int,
            if visible_line_end >= line_count(buffer@) {
                byte_len(buffer@) as int
            } else {
                byte_offset(buffer@, line_start(buffer@, visible_line_end as int)) as int
            },
            usize::MAX as nat,
        )),
        forall|i: int| 0 <= i < m.spans_view().len() ==> #[trigger] m.spans_view()[i].start_byte < m.spans_view()[i].end_byte,
{
    let mut map = HighlightMap::new();
    let tree = match state.tree() {
        Some(t) => t,
        None => return map,
    };
    let start_byte = buffer.line_to_byte(visible_line_start);
    let end_byte = if visible_line_end >= buffer.len_lines() {
        buffer.len_bytes()
    } else {
        buffer.line_to_byte(visible_line_end)
    };
    let mut cursor = walk_tree(tree);
    walk_and_highlight(&mut cursor, &mut map, start_byte, end_byte, usize::MAX);
    assert(map.spans_view() =~= hl_rest(state.syntax(), Seq::empty(), start_byte as int, end_byte as int, usize::MAX as nat));
    let ghost before = map.spans@;
    map.finalize();
    proof { lemma_sorted_nonempty(before); }
    map
}

/// Every span in the sorted spans is one of the given spans.
proof fn lemma_sorted_nonempty(s: Seq<HighlightSpan>)
    requires
        forall|i: int| 0 <= i < s.len() ==> #[trigger] s[i].start_byte < s[i].end_byte,
    ensures
        forall|i: int| 0 <= i < sorted_by_start(s).len() ==>
            #[trigger] sorted_by_start(s)[i].start_byte < sorted_by_start(s)[i].end_byte,
    decreases s.len(),
{
    if s.len() > 0 {
        lemma_sorted_nonempty(s.drop_last());
        let r = sorted_by_start(s.drop_last());
        let x = s.last();
        lemma_first_after_bounds(r, x.start_byte, 0);
        let k = first_after(r, x.start_byte, 0);
        let out = insert_by_start(r, x);
        assert forall|i: int| 0 <= i < out.len() implies #[trigger] out[i].start_byte < out[i].end_byte by {
            if i < k {
                assert(out[i] == r[i]);
            } else if i > k {
                assert(out[i] == r[i - 1]);
            }
        }
    }
}

proof fn lemma_first_after_bounds(s: Seq<HighlightSpan>, start: usize, i: int)
    requires
        0 <= i <= s.len(),
    ensures
        i <= first_after(s, start, i) <= s.len(),
    decreases s.len() - i,
{
    if i < s.len() && s[i].start_byte <= start {
        lemma_first_after_bounds(s, start, i + 1);
    }
}

/// Walks the siblings from the cursor's node on (just the node, at the
/// cursor's root), adding the spans of `hl_rest`; the cursor ends at the
/// last of them.
fn walk_and_highlight(
    cursor: &mut MarkdownCursor<'_>,
    map: &mut HighlightMap,
    vis_start: usize,
    vis_end: usize,
    depth: usize,
)
    requires
        cursor_ok(*old(cursor)),
        closed_tree(cursor_nodes(*old(cursor))),
        cursor_at(*old(cursor)).len() > 0 ==> 0 <= cursor_at(*old(cursor)).last()
            < cursor_nodes(*old(cursor))[cursor_at(*old(cursor)).drop_last()].3
            && cursor_nodes(*old(cursor)).dom().contains(cursor_at(*old(cursor)).drop_last()),
        forall|i: int| 0 <= i < old(map).spans_view().len() ==>
            #[trigger] old(map).spans_view()[i].start_byte < old(map).spans_view()[i].end_byte,
    ensures
        forall|i: int| 0 <= i < final(map).spans_view().len() ==>
            #[trigger] final(map).spans_view()[i].start_byte < final(map).spans_view()[i].end_byte,
        final(map).spans_view() == old(map).spans_view() + hl_rest(
            cursor_nodes(*old(cursor)),
            cursor_at(*old(cursor)),
            vis_start as int,
            vis_end as int,
            depth as nat,
        ),
        cursor_nodes(*final(cursor)) == cursor_nodes(*old(cursor)),
        cursor_at(*final(cursor)).len() == cursor_at(*old(cursor)).len(),
        cursor_at(*final(cursor)).drop_last() == cursor_at(*old(cursor)).drop_last(),
        cursor_ok(*final(cursor)),
    decreases depth,
{
    let ghost nodes = cursor_nodes(*cursor);
    let ghost p0 = cursor_at(*cursor);
    let ghost target = map.spans_view() + hl_rest(nodes, p0, vis_start as int, vis_end as int, depth as nat);
    loop
        invariant_except_break
            map.spans_view() + hl_rest(nodes, cursor_at(*cursor), vis_start as int, vis_end as int, depth as nat) == target,
        invariant
            cursor_nodes(*cursor) == nodes,
            closed_tree(nodes),
            cursor_ok(*cursor),
            cursor_at(*cursor).len() == p0.len(),
            cursor_at(*cursor).drop_last() == p0.drop_last(),
            cursor_at(*cursor).len() > 0 ==> 0 <= cursor_at(*cursor).last() < nodes[cursor_at(*cursor).drop_last()].3
                && nodes.dom().contains(cursor_at(*cursor).drop_last()),
            forall|i: int| 0 <= i < map.spans_view().len() ==>
                #[trigger] map.spans_view()[i].start_byte < map.spans_view()[i].end_byte,
        ensures
            map.spans_view() == target,
            cursor_nodes(*cursor) == nodes,
            cursor_ok(*cursor),
            cursor_at(*cursor).len() == p0.len(),
            cursor_at(*cursor).drop_last() == p0.drop_last(),
            forall|i: int| 0 <= i < map.spans_view().len() ==>
                #[trigger] map.spans_view()[i].start_byte < map.spans_view()[i].end_byte,
        decreases (if cursor_at(*cursor).len() == 0 { 0 } else { nodes[cursor_at(*cursor).drop_last()].3 - cursor_at(*cursor).last() }),
    {
        let ghost q = cursor_at(*cursor);
        let ghost (k, s, e, n) = nodes[q];
        let ghost after = if q.len() == 0 {
            Seq::<HighlightSpan>::empty()
        } else {
            hl_siblings(nodes, q.drop_last(), q.last() + 1, vis_start as int, vis_end as int, depth as nat)
        };
        proof {
            if q.len() > 0 {
                assert(q.drop_last().push(q.last()) =~= q);
            }
            assert(hl_rest(nodes, q, vis_start as int, vis_end as int, depth as nat)
                == hl_node(nodes, q, vis_start as int, vis_end as int, depth as nat) + after) by {
                if q.len() == 0 {
                    assert(hl_node(nodes, q, vis_start as int, vis_end as int, depth as nat) + after
                        =~= hl_node(nodes, q, vis_start as int, vis_end as int, depth as nat));
                }
            }
        }
        let node = cursor_node(cursor);
        if !(node.end_byte <= vis_start || node.start_byte >= vis_end) {
            let ghost before = map.spans_view();
            match style_for_node(node.kind.as_str()) {
                Some(style) => map.push(node.start_byte, node.end_byte, style),
                None => {},
            }
            assert(map.spans_view() =~= before + node_span(k, s, e));
            if depth > 0 && goto_first_child(cursor) {
                proof {
                    assert(nodes.dom().contains(q.push(0)));
                    assert(q.push(0).drop_last() =~= q);
                    assert(q.push(0).last() == 0);
                }
                walk_and_highlight(cursor, map, vis_start, vis_end, depth - 1);
                proof {
                    assert(q.push(0).drop_last() =~= q);
                    assert(hl_rest(nodes, q.push(0), vis_start as int, vis_end as int, (depth - 1) as nat)
                        == hl_siblings(nodes, q, 0, vis_start as int, vis_end as int, (depth - 1) as nat));
                }
                let _ = goto_parent(cursor);
                proof {
                    let c = cursor_at(*cursor);
                    assert(c =~= q);
                }
            }
            assert(map.spans_view() =~= before + hl_node(nodes, q, vis_start as int, vis_end as int, depth as nat));
        }
        if !goto_next_sibling(cursor) {
            assert(after =~= Seq::<HighlightSpan>::empty());
            assert(map.spans_view() =~= target);
            break;
        }
        proof {
            let c = cursor_at(*cursor);
            assert(c.drop_last() =~= q.drop_last());
            assert(c.last() == q.last() + 1);
            assert(c =~= q.drop_last().push(q.last() + 1));
            assert(nodes.dom().contains(c));
        }
    }
}

} // verus!
