//! List items: bullets and task boxes in place of their markers.
use vstd::prelude::*;

use crate::chars::same_text;
use crate::editor::buffer::{char_holding_byte, Buffer};
use crate::editor::text::byte_len;
use crate::markdown::highlight::{kind_style, style_for_node};
use crate::markdown::reveal_set::{overlaps, RevealSet};
use crate::markdown::syntax::SyntaxNode;
use crate::render::block::{first_inline, max_int, min_int};
use crate::render::inline::{inline_spans, or_plain, render_inline};
use crate::render::plan::RenderSpan;
use crate::render::spans::{
    emit, replaced_model, replaced_span, span_models, text_model, text_span, SpanModel,
};
use crate::style::{Color, Style};

verus! {

pub open spec fn is_bullet_marker(k: Seq<char>) -> bool {
    k == "list_marker_minus"@ || k == "list_marker_plus"@ || k == "list_marker_star"@
}

pub open spec fn is_number_marker(k: Seq<char>) -> bool {
    k == "list_marker_dot"@ || k == "list_marker_parenthesis"@
}

/// The space kept after a task box.
pub open spec fn space_model(pos: int) -> SpanModel {
    SpanModel { text: " "@, style: Style::plain(), start: pos, end: pos + 1, chars: 1, decoration: false }
}

/// A task marker on the line: raw where revealed, otherwise `shown` in
/// `style`; then the space after it, kept as it is.
pub open spec fn task_spans(t: Seq<char>, rv: Seq<(int, int)>, c: SyntaxNode, le: int, shown: Seq<char>, style: Style) -> (Seq<SpanModel>, int) {
    let ce = min_int(c.end_byte as int, le);
    let first = if overlaps(rv, c.start_byte as int, c.end_byte as int) {
        text_model(t, c.start_byte as int, ce, or_plain(kind_style(c.kind@)))
    } else {
        replaced_model(t, c.start_byte as int, ce, shown, style)
    };
    if ce < le && text_model(t, ce, ce + 1, Style::plain()).text == " "@ {
        (seq![first, space_model(ce)], ce + 1)
    } else {
        (seq![first], ce)
    }
}

/// What one child of a list item shows on the line `ls..le`, and the
/// position after it: bullets for unordered markers, numbers styled,
/// boxes for task markers (all raw where revealed), a paragraph's inline
/// content, anything else raw.
pub open spec fn list_child(t: Seq<char>, rv: Seq<(int, int)>, c: SyntaxNode, ls: int, le: int) -> (Seq<SpanModel>, int) {
    let k = c.kind@;
    let ce = min_int(c.end_byte as int, le);
    if is_bullet_marker(k) {
        if overlaps(rv, c.start_byte as int, c.end_byte as int) {
            (seq![text_model(t, c.start_byte as int, ce, or_plain(kind_style(k)))], ce)
        } else {
            (seq![replaced_model(t, c.start_byte as int, ce, "• "@, Style::plain())], ce)
        }
    } else if is_number_marker(k) {
        (seq![text_model(t, c.start_byte as int, ce, or_plain(kind_style(k)))], ce)
    } else if k == "task_list_marker_checked"@ {
        task_spans(t, rv, c, le, "☑"@, Style { fg: Some(Color::Green), ..Style::plain() })
    } else if k == "task_list_marker_unchecked"@ {
        task_spans(t, rv, c, le, "☐"@, Style { fg: Some(Color::DarkGray), ..Style::plain() })
    } else if k == "paragraph"@ {
        if c.children@.len() > 0 && first_inline(c, 0) >= 0 {
            (inline_spans(t, rv, c.children@[first_inline(c, 0)], ls, le, Style::plain()), ce)
        } else {
            (Seq::empty(), ce)
        }
    } else {
        (seq![text_model(t, max_int(c.start_byte as int, ls), ce, Style::plain())], ce)
    }
}

pub open spec fn list_loop(t: Seq<char>, rv: Seq<(int, int)>, node: SyntaxNode, ls: int, le: int, i: int, pos: int) -> (Seq<SpanModel>, int)
    decreases node.children@.len() - i,
{
    if i < 0 || i >= node.children@.len() {
        (Seq::empty(), pos)
    } else {
        let c = node.children@[i];
        if c.end_byte <= ls {
            list_loop(t, rv, node, ls, le, i + 1, pos)
        } else if c.start_byte >= le {
            (Seq::empty(), pos)
        } else {
            let gap = if pos < c.start_byte { seq![text_model(t, pos, c.start_byte as int, Style::plain())] } else { Seq::empty() };
            let (me, next) = list_child(t, rv, c, ls, le);
            let rest = list_loop(t, rv, node, ls, le, i + 1, next);
            (gap + me + rest.0, rest.1)
        }
    }
}

/// A list item on the line `ls..le`.
pub open spec fn list_item_spans(t: Seq<char>, rv: Seq<(int, int)>, node: SyntaxNode, ls: int, le: int) -> Seq<SpanModel> {
    if node.children@.len() == 0 {
        seq![text_model(t, ls, le, Style::plain())]
    } else {
        let (sp, pos) = list_loop(t, rv, node, ls, le, 0, ls);
        sp + if pos < le { seq![text_model(t, pos, le, Style::plain())] } else { Seq::empty() }
    }
}

/// List markers: an ordered marker (`1.` or `1)`) always shows its own
/// text, cursor or not; an unordered marker (`-`, `+` or `*`) shows as
/// "• " unless the cursor reveals it, and then shows its own text; a task
/// marker shows as a checked "☑" or an empty "☐" box unless revealed.
/// Either way the first span stands for the marker's bytes on the line.
pub proof fn law_list_marker_shown(t: Seq<char>, rv: Seq<(int, int)>, c: SyntaxNode, ls: int, le: int)
    ensures
        ({
            let k = c.kind@;
            let sp = list_child(t, rv, c, ls, le).0;
            let s = c.start_byte as int;
            let ce = if (c.end_byte as int) < le { c.end_byte as int } else { le };
            let raw = t.subrange(char_holding_byte(t, s), char_holding_byte(t, ce));
            &&& (k == "list_marker_dot"@ || k == "list_marker_parenthesis"@) ==> sp.len() == 1
                && sp[0].text == raw && sp[0].start == s && sp[0].end == ce
            &&& (k == "list_marker_minus"@ || k == "list_marker_plus"@ || k == "list_marker_star"@)
                ==> sp.len() == 1 && sp[0].start == s && sp[0].end == ce && sp[0].text == (if overlaps(
                rv,
                s,
                c.end_byte as int,
            ) {
                raw
            } else {
                "• "@
            })
            &&& k == "task_list_marker_checked"@ ==> sp.len() >= 1 && sp[0].start == s && sp[0].end == ce
                && sp[0].text == (if overlaps(rv, s, c.end_byte as int) { raw } else { "☑"@ })
            &&& k == "task_list_marker_unchecked"@ ==> sp.len() >= 1 && sp[0].start == s && sp[0].end == ce
                && sp[0].text == (if overlaps(rv, s, c.end_byte as int) { raw } else { "☐"@ })
        }),
{
    reveal_strlit("list_marker_minus");
    reveal_strlit("list_marker_plus");
    reveal_strlit("list_marker_star");
    reveal_strlit("list_marker_dot");
    reveal_strlit("list_marker_parenthesis");
    reveal_strlit("task_list_marker_checked");
    reveal_strlit("task_list_marker_unchecked");
    let k = c.kind@;
    if k == "task_list_marker_checked"@ || k == "task_list_marker_unchecked"@ {
        assert(!is_bullet_marker(k) && !is_number_marker(k)) by {
            assert(k[0] != "list_marker_minus"@[0]);
        }
        if k == "task_list_marker_unchecked"@ {
            assert(k[17] != "task_list_marker_checked"@[17]);
        }
    }
    if k == "list_marker_dot"@ || k == "list_marker_parenthesis"@ {
        assert(!is_bullet_marker(k)) by {
            assert(k[13] != "list_marker_minus"@[13]);
            assert(k[13] != "list_marker_plus"@[13]);
            assert(k[13] != "list_marker_star"@[13]);
        }
    }
}

/// The first inline child of `node`.
fn find_inline_child(node: &SyntaxNode) -> (k: Option<usize>)
    ensures
        match k {
            Some(j) => first_inline(*node, 0) == j && j < node.children@.len(),
            None => first_inline(*node, 0) == -1,
        },
{
    let mut i: usize = 0;
    while i < node.children.len()
        invariant
            i <= node.children@.len(),
            first_inline(*node, 0) == first_inline(*node, i as int),
        decreases node.children@.len() - i,
    {
        if same_text(node.children[i].kind.as_str(), "inline") {
            return Some(i);
        }
        i += 1;
    }
    None
}

/// Shows a task marker and keeps the space after it.
fn render_task_marker(
    c: &SyntaxNode,
    buffer: &Buffer,
    reveal_set: &RevealSet,
    line_end: usize,
    shown: &str,
    style: Style,
    spans: &mut Vec<RenderSpan>,
) -> (next: usize)
    requires
        c.fits(byte_len(buffer@) as int),
        c.start_byte < line_end <= byte_len(buffer@),
    ensures
        ({
            let r = task_spans(buffer@, reveal_set.model(), *c, line_end as int, shown@, style);
            span_models(final(spans)@) == span_models(old(spans)@) + r.0 && next == r.1
        }),
{
    let ghost s0 = span_models(spans@);
    let ce = if c.end_byte < line_end { c.end_byte } else { line_end };
    if reveal_set.is_revealed(&(c.start_byte..c.end_byte)) {
        let st = match style_for_node(c.kind.as_str()) {
            Some(s) => s,
            None => Style::new(),
        };
        emit(spans, text_span(c.start_byte, ce, buffer, st));
    } else {
        emit(spans, replaced_span(c.start_byte, ce, buffer, String::from_str(shown), style));
    }
    let ghost mid = span_models(spans@);
    if ce < line_end {
        let next = buffer.text_for_byte_range(ce, ce + 1);
        if same_text(next.as_str(), " ") {
            emit(spans, RenderSpan {
                display_text: String::from_str(" "),
                style: Style::new(),
                raw_byte_range: ce..ce + 1,
                raw_char_count: 1,
                is_decoration: false,
            });
            proof { assert(span_models(spans@) =~= s0 + seq![mid.last(), space_model(ce as int)]); }
            return ce + 1;
        }
    }
    proof { assert(span_models(spans@) =~= s0 + seq![mid.last()]); }
    ce
}

/// Renders one child of a list item on the line; gives the position
/// after it.
fn render_list_child(
    c: &SyntaxNode,
    buffer: &Buffer,
    reveal_set: &RevealSet,
    line_start: usize,
    line_end: usize,
    spans: &mut Vec<RenderSpan>,
) -> (next: usize)
    requires
        c.fits(byte_len(buffer@) as int),
        line_start <= line_end <= byte_len(buffer@),
        c.start_byte < line_end,
        line_start < c.end_byte,
    ensures
        next <= byte_len(buffer@),
        ({
            let r = list_child(buffer@, reveal_set.model(), *c, line_start as int, line_end as int);
            span_models(final(spans)@) == span_models(old(spans)@) + r.0 && next == r.1
        }),
{
    let ghost t = buffer@;
    let ghost s0 = span_models(spans@);
    let ce = if c.end_byte < line_end { c.end_byte } else { line_end };
    let kind = c.kind.as_str();
    if same_text(kind, "list_marker_minus") || same_text(kind, "list_marker_plus") || same_text(kind, "list_marker_star") {
        if reveal_set.is_revealed(&(c.start_byte..c.end_byte)) {
            let st = match style_for_node(kind) {
                Some(s) => s,
                None => Style::new(),
            };
            emit(spans, text_span(c.start_byte, ce, buffer, st));
        } else {
            emit(spans, replaced_span(c.start_byte, ce, buffer, String::from_str("• "), Style::new()));
        }
        proof { assert(span_models(spans@) =~= s0 + list_child(t, reveal_set.model(), *c, line_start as int, line_end as int).0); }
        ce
    } else if same_text(kind, "list_marker_dot") || same_text(kind, "list_marker_parenthesis") {
        let st = match style_for_node(kind) {
            Some(s) => s,
            None => Style::new(),
        };
        emit(spans, text_span(c.start_byte, ce, buffer, st));
        proof { assert(span_models(spans@) =~= s0 + list_child(t, reveal_set.model(), *c, line_start as int, line_end as int).0); }
        ce
    } else if same_text(kind, "task_list_marker_checked") {
        render_task_marker(c, buffer, reveal_set, line_end, "☑", Style::new().fg(Color::Green), spans)
    } else if same_text(kind, "task_list_marker_unchecked") {
        render_task_marker(c, buffer, reveal_set, line_end, "☐", Style::new().fg(Color::DarkGray), spans)
    } else if same_text(kind, "paragraph") {
        if c.children.len() > 0 {
            match find_inline_child(c) {
                Some(j) => {
                    proof { assert(c.children@[j as int].fits(byte_len(t) as int)); }
                    render_inline(&c.children[j], buffer, reveal_set, line_start, line_end, Style::new(), spans);
                },
                None => {},
            }
        }
        proof { assert(span_models(spans@) =~= s0 + list_child(t, reveal_set.model(), *c, line_start as int, line_end as int).0); }
        ce
    } else {
        let s = if c.start_byte > line_start { c.start_byte } else { line_start };
        emit(spans, text_span(s, ce, buffer, Style::new()));
        proof { assert(span_models(spans@) =~= s0 + list_child(t, reveal_set.model(), *c, line_start as int, line_end as int).0); }
        ce
    }
}

/// Renders a list item line: unordered markers as bullets, task markers
/// as boxes (raw where the cursor reveals them), the content with its
/// inline formatting. `viewport_width` is not used by this block kind.
pub fn render_list_item(
    node: &SyntaxNode,
    buffer: &Buffer,
    reveal_set: &RevealSet,
    line_start: usize,
    line_end: usize,
    viewport_width: usize,
    spans: &mut Vec<RenderSpan>,
)
    requires
        node.fits(byte_len(buffer@) as int),
        line_start <= line_end <= byte_len(buffer@),
    ensures
        span_models(final(spans)@) == span_models(old(spans)@)
            + list_item_spans(buffer@, reveal_set.model(), *node, line_start as int, line_end as int),
{
    let ghost t = buffer@;
    let ghost rv = reveal_set.model();
    let ghost s0 = span_models(spans@);
    if node.children.len() == 0 {
        emit(spans, text_span(line_start, line_end, buffer, Style::new()));
        proof { assert(span_models(spans@) =~= s0 + list_item_spans(t, rv, *node, line_start as int, line_end as int)); }
        return;
    }
    let mut pos = line_start;
    let mut i: usize = 0;
    let n = node.children.len();
    while i < n
        invariant
            n == node.children@.len(),
            i <= n,
            node.fits(byte_len(t) as int),
            t == buffer@,
            rv == reveal_set.model(),
            pos <= byte_len(t),
            line_start <= line_end <= byte_len(t),
            ({
                let whole = list_loop(t, rv, *node, line_start as int, line_end as int, 0, line_start as int);
                let rest = list_loop(t, rv, *node, line_start as int, line_end as int, i as int, pos as int);
                span_models(spans@) + rest.0 == s0 + whole.0 && rest.1 == whole.1
            }),
        decreases n - i,
    {
        let c = &node.children[i];
        proof { assert(c.fits(byte_len(t) as int)); }
        if c.end_byte <= line_start {
            i += 1;
        } else if c.start_byte >= line_end {
            i = n;
        } else {
            let ghost before = span_models(spans@);
            let ghost gap = if pos < c.start_byte { seq![text_model(t, pos as int, c.start_byte as int, Style::plain())] } else { Seq::<SpanModel>::empty() };
            if pos < c.start_byte {
                emit(spans, text_span(pos, c.start_byte, buffer, Style::new()));
            }
            assert(span_models(spans@) == before + gap);
            let ghost mid = span_models(spans@);
            let next = render_list_child(c, buffer, reveal_set, line_start, line_end, spans);
            proof {
                let rest = list_loop(t, rv, *node, line_start as int, line_end as int, (i + 1) as int, next as int);
                assert(span_models(spans@) + rest.0 =~= before + (gap + (span_models(spans@).subrange(mid.len() as int, span_models(spans@).len() as int)) + rest.0));
            }
            pos = next;
            i += 1;
        }
    }
    if pos < line_end {
        emit(spans, text_span(pos, line_end, buffer, Style::new()));
    }
    proof { assert(span_models(spans@) =~= s0 + list_item_spans(t, rv, *node, line_start as int, line_end as int)); }
}

} // verus!
