//! Block markdown: headings, thematic breaks and block quotes.
use vstd::prelude::*;

use crate::chars::{same_text, string_push};
use crate::editor::buffer::{char_holding_byte, Buffer};
use crate::editor::text::byte_len;
use crate::markdown::highlight::{kind_style, style_for_node};
use crate::markdown::reveal_set::{overlaps, RevealSet};
use crate::markdown::syntax::SyntaxNode;
use crate::render::inline::{inline_spans, or_plain, render_inline};
use crate::render::plan::RenderSpan;
use crate::render::spans::{
    decoration_model, emit, hidden_model, hidden_span, replaced_model, replaced_span, span_models, text_model,
    text_span, SpanModel,
};
use crate::style::{Color, Modifier, Style};

verus! {

/// Metadata of a rendered heading line.
#[derive(Debug)]
pub struct HeadingMeta {
    /// Heading tier (1-6), or 0 if unknown.
    pub tier: u8,
    /// Plain text content (markers stripped), empty if revealed.
    pub plain_text: String,
    /// Whether the heading is concealed (eligible for image rendering).
    pub is_concealed: bool,
}

impl HeadingMeta {
    /// The metadata of a heading shown raw: no tier, no text, not concealed.
    pub fn revealed() -> (m: HeadingMeta)
        ensures
            m.tier == 0,
            m.plain_text@ == Seq::<char>::empty(),
            !m.is_concealed,
    {
        HeadingMeta { tier: 0, plain_text: String::new(), is_concealed: false }
    }
}

pub open spec fn bold_plain() -> Style {
    Style::plain().spec_add_modifier(Modifier { bold: true, ..Modifier::none() })
}

/// The tier of an ATX heading marker kind (`atx_h1_marker` .. `atx_h6_marker`),
/// zero for other kinds.
pub open spec fn marker_tier(k: Seq<char>) -> int {
    if k == "atx_h1_marker"@ {
        1
    } else if k == "atx_h2_marker"@ {
        2
    } else if k == "atx_h3_marker"@ {
        3
    } else if k == "atx_h4_marker"@ {
        4
    } else if k == "atx_h5_marker"@ {
        5
    } else if k == "atx_h6_marker"@ {
        6
    } else {
        0
    }
}

/// Heading text style by tier: cyan, blue, magenta, then dark gray; bold.
pub open spec fn tier_style(tier: int) -> Style {
    let c = if tier == 1 {
        Color::Cyan
    } else if tier == 2 {
        Color::Blue
    } else if tier == 3 {
        Color::Magenta
    } else {
        Color::DarkGray
    };
    (Style { fg: Some(c), ..Style::plain() }).spec_add_modifier(Modifier { bold: true, ..Modifier::none() })
}

pub open spec fn min_int(a: int, b: int) -> int {
    if a < b { a } else { b }
}

pub open spec fn max_int(a: int, b: int) -> int {
    if a > b { a } else { b }
}

/// The text the non-decoration spans show, in order.
pub open spec fn shown_text(s: Seq<SpanModel>) -> Seq<char>
    decreases s.len(),
{
    if s.len() == 0 {
        Seq::empty()
    } else {
        shown_text(s.drop_last()) + if s.last().decoration { Seq::empty() } else { s.last().text }
    }
}

/// What rendering a concealed heading has reached: the spans so far, the
/// byte position, the tier and the text style.
pub ghost struct HeadingAcc {
    pub spans: Seq<SpanModel>,
    pub pos: int,
    pub tier: int,
    pub style: Style,
}

/// The children of a concealed heading from `i` on: markers hidden (with
/// the space after them), setting the tier and style; the inline content
/// in the heading style; anything else shown in it.
pub open spec fn heading_loop(
    t: Seq<char>,
    rv: Seq<(int, int)>,
    node: SyntaxNode,
    ls: int,
    le: int,
    i: int,
    pos: int,
    tier: int,
    style: Style,
) -> HeadingAcc
    decreases node.children@.len() - i,
{
    if i < 0 || i >= node.children@.len() {
        HeadingAcc { spans: Seq::empty(), pos, tier, style }
    } else {
        let c = node.children@[i];
        if c.end_byte <= ls {
            heading_loop(t, rv, node, ls, le, i + 1, pos, tier, style)
        } else if c.start_byte >= le {
            HeadingAcc { spans: Seq::empty(), pos, tier, style }
        } else {
            let k = c.kind@;
            let mt = marker_tier(k);
            if mt > 0 {
                let he = min_int(c.end_byte as int, le);
                let first = hidden_model(t, min_int(pos, he), he);
                let space = he < le && text_model(t, he, he + 1, Style::plain()).text == " "@;
                let next = if space { he + 1 } else { he };
                let rest = heading_loop(t, rv, node, ls, le, i + 1, next, mt, tier_style(mt));
                let mine = if space { seq![first, hidden_model(t, he, he + 1)] } else { seq![first] };
                HeadingAcc { spans: mine + rest.spans, ..rest }
            } else if k == "inline"@ {
                let gap = if pos < c.start_byte { seq![hidden_model(t, pos, c.start_byte as int)] } else { Seq::empty() };
                let rest = heading_loop(t, rv, node, ls, le, i + 1, min_int(c.end_byte as int, le), tier, style);
                HeadingAcc { spans: gap + inline_spans(t, rv, c, ls, le, style) + rest.spans, ..rest }
            } else {
                let gap = if pos < c.start_byte { seq![text_model(t, pos, c.start_byte as int, style)] } else { Seq::empty() };
                let me = text_model(t, c.start_byte as int, min_int(c.end_byte as int, le), style);
                let rest = heading_loop(t, rv, node, ls, le, i + 1, min_int(c.end_byte as int, le), tier, style);
                HeadingAcc { spans: gap.push(me) + rest.spans, ..rest }
            }
        }
    }
}

/// A concealed heading on the line `ls..le`: the spans, and its tier.
pub open spec fn concealed_heading(t: Seq<char>, rv: Seq<(int, int)>, node: SyntaxNode, ls: int, le: int) -> (Seq<SpanModel>, int) {
    let acc = heading_loop(t, rv, node, ls, le, 0, ls, 0, bold_plain());
    let tail = if acc.pos < le { seq![text_model(t, acc.pos, le, acc.style)] } else { Seq::empty() };
    (acc.spans + tail, acc.tier)
}

/// A revealed heading's children from `i` on: all raw, each in its
/// highlight style (bold where it has none).
pub open spec fn revealed_heading_loop(t: Seq<char>, node: SyntaxNode, ls: int, le: int, i: int, pos: int) -> (Seq<SpanModel>, int)
    decreases node.children@.len() - i,
{
    if i < 0 || i >= node.children@.len() {
        (Seq::empty(), pos)
    } else {
        let c = node.children@[i];
        let ce = min_int(c.end_byte as int, le);
        if ce <= ls {
            revealed_heading_loop(t, node, ls, le, i + 1, pos)
        } else if c.start_byte >= le {
            (Seq::empty(), pos)
        } else {
            let gap = if pos < c.start_byte { seq![text_model(t, pos, c.start_byte as int, bold_plain())] } else { Seq::empty() };
            let style = match kind_style(c.kind@) {
                Some(s) => s,
                None => bold_plain(),
            };
            let me = if c.kind@ == "inline"@ {
                inline_spans(t, Seq::empty(), c, ls, le, style)
            } else {
                seq![text_model(t, max_int(c.start_byte as int, ls), ce, style)]
            };
            let rest = revealed_heading_loop(t, node, ls, le, i + 1, ce);
            (gap + me + rest.0, rest.1)
        }
    }
}

/// A revealed heading on the line `ls..le`.
pub open spec fn revealed_heading(t: Seq<char>, node: SyntaxNode, ls: int, le: int) -> Seq<SpanModel> {
    if node.children@.len() == 0 {
        seq![text_model(t, ls, le, Style::plain())]
    } else {
        let (sp, pos) = revealed_heading_loop(t, node, ls, le, 0, ls);
        sp + if pos < le { seq![text_model(t, pos, le, bold_plain())] } else { Seq::empty() }
    }
}

fn bold() -> (s: Style)
    ensures
        s == bold_plain(),
{
    Style::new().add_modifier(Modifier::bold())
}

/// Shows a revealed heading raw, each part in its highlight style.
pub fn render_heading_revealed(
    node: &SyntaxNode,
    buffer: &Buffer,
    line_start: usize,
    line_end: usize,
    spans: &mut Vec<RenderSpan>,
)
    requires
        node.fits(byte_len(buffer@) as int),
        line_start <= line_end <= byte_len(buffer@),
    ensures
        span_models(final(spans)@) == span_models(old(spans)@) + revealed_heading(buffer@, *node, line_start as int, line_end as int),
{
    let ghost t = buffer@;
    let ghost s0 = span_models(spans@);
    if node.children.len() == 0 {
        emit(spans, text_span(line_start, line_end, buffer, Style::new()));
        proof { assert(span_models(spans@) =~= s0 + revealed_heading(t, *node, line_start as int, line_end as int)); }
        return;
    }
    let reveal_none = RevealSet::empty();
    let mut pos = line_start;
    let mut i: usize = 0;
    let n = node.children.len();
    while i < n
        invariant
            n == node.children@.len(),
            i <= n,
            node.fits(byte_len(t) as int),
            t == buffer@,
            reveal_none.model() == Seq::<(int, int)>::empty(),
            pos <= byte_len(t),
            line_start <= line_end <= byte_len(t),
            ({
                let whole = revealed_heading_loop(t, *node, line_start as int, line_end as int, 0, line_start as int);
                let rest = revealed_heading_loop(t, *node, line_start as int, line_end as int, i as int, pos as int);
                span_models(spans@) + rest.0 == s0 + whole.0 && rest.1 == whole.1
            }),
        decreases n - i,
    {
        let c = &node.children[i];
        proof { assert(c.fits(byte_len(t) as int)); }
        let ce = if c.end_byte < line_end { c.end_byte } else { line_end };
        if ce <= line_start {
            i += 1;
        } else if c.start_byte >= line_end {
            i = n;
        } else {
            let ghost before = span_models(spans@);
            let ghost rest = revealed_heading_loop(t, *node, line_start as int, line_end as int, (i + 1) as int, ce as int);
            let ghost gap = if pos < c.start_byte { seq![text_model(t, pos as int, c.start_byte as int, bold_plain())] } else { Seq::<SpanModel>::empty() };
            if pos < c.start_byte {
                emit(spans, text_span(pos, c.start_byte, buffer, bold()));
            }
            assert(span_models(spans@) == before + gap);
            let ghost mid = span_models(spans@);
            let style = match style_for_node(c.kind.as_str()) {
                Some(s) => s,
                None => bold(),
            };
            if same_text(c.kind.as_str(), "inline") {
                render_inline(c, buffer, &reveal_none, line_start, line_end, style, spans);
            } else {
                let s = if c.start_byte > line_start { c.start_byte } else { line_start };
                emit(spans, text_span(s, ce, buffer, style));
            }
            proof {
                assert(span_models(spans@) + rest.0 =~= before + (gap + (span_models(spans@).subrange(mid.len() as int, span_models(spans@).len() as int)) + rest.0));
            }
            pos = ce;
            i += 1;
        }
    }
    if pos < line_end {
        emit(spans, text_span(pos, line_end, buffer, bold()));
    }
    proof { assert(span_models(spans@) =~= s0 + revealed_heading(t, *node, line_start as int, line_end as int)); }
}

/// A heading on the line `ls..le`: shown raw where revealed (tier 0, not
/// concealed), raw in the default style where it has no children, and
/// concealed otherwise (with the tier of its marker).
pub open spec fn heading_spans(t: Seq<char>, rv: Seq<(int, int)>, node: SyntaxNode, ls: int, le: int) -> (Seq<SpanModel>, int, bool) {
    if overlaps(rv, node.start_byte as int, node.end_byte as int) {
        (revealed_heading(t, node, ls, le), 0, false)
    } else if node.children@.len() == 0 {
        (seq![text_model(t, ls, le, Style::plain())], 0, false)
    } else {
        let (sp, tier) = concealed_heading(t, rv, node, ls, le);
        (sp, tier, true)
    }
}

fn heading_tier(kind: &str) -> (tier: u8)
    ensures
        tier == marker_tier(kind@),
{
    if same_text(kind, "atx_h1_marker") {
        1
    } else if same_text(kind, "atx_h2_marker") {
        2
    } else if same_text(kind, "atx_h3_marker") {
        3
    } else if same_text(kind, "atx_h4_marker") {
        4
    } else if same_text(kind, "atx_h5_marker") {
        5
    } else if same_text(kind, "atx_h6_marker") {
        6
    } else {
        0
    }
}

fn heading_style(tier: u8) -> (s: Style)
    ensures
        s == tier_style(tier as int),
{
    let c = if tier == 1 {
        Color::Cyan
    } else if tier == 2 {
        Color::Blue
    } else if tier == 3 {
        Color::Magenta
    } else {
        Color::DarkGray
    };
    Style::new().fg(c).add_modifier(Modifier::bold())
}

/// The text the non-decoration spans show.
fn plain_text_of(spans: &Vec<RenderSpan>) -> (s: String)
    ensures
        s@ == shown_text(span_models(spans@)),
{
    let mut out = String::new();
    let mut i: usize = 0;
    while i < spans.len()
        invariant
            i <= spans@.len(),
            out@ == shown_text(span_models(spans@).take(i as int)),
        decreases spans@.len() - i,
    {
        proof {
            let m = span_models(spans@);
            assert(m.take(i + 1).drop_last() =~= m.take(i as int));
        }
        if !spans[i].is_decoration && spans[i].display_text.as_str().unicode_len() > 0 {
            out.append(spans[i].display_text.as_str());
        }
        i += 1;
    }
    proof { assert(span_models(spans@).take(spans@.len() as int) =~= span_models(spans@)); }
    out
}

/// Hides a heading marker ending at `end` (from `pos`, or from `end` where
/// `pos` is past it) and the space after it; gives the position after them.
fn hide_marker(buffer: &Buffer, pos: usize, end: usize, line_end: usize, spans: &mut Vec<RenderSpan>) -> (next: usize)
    requires
        end <= line_end <= byte_len(buffer@),
    ensures
        ({
            let t = buffer@;
            let first = hidden_model(t, min_int(pos as int, end as int), end as int);
            let space = end < line_end && text_model(t, end as int, end + 1, Style::plain()).text == " "@;
            &&& next == if space { end + 1 } else { end as int }
            &&& span_models(final(spans)@) == span_models(old(spans)@)
                + if space { seq![first, hidden_model(t, end as int, end + 1)] } else { seq![first] }
        }),
{
    let hs = if pos < end { pos } else { end };
    emit(spans, hidden_span(hs, end, buffer));
    let ghost mid = span_models(spans@);
    if end < line_end {
        let next = buffer.text_for_byte_range(end, end + 1);
        if same_text(next.as_str(), " ") {
            emit(spans, hidden_span(end, end + 1, buffer));
            proof { assert(span_models(spans@) =~= span_models(old(spans)@) + seq![hidden_model(buffer@, hs as int, end as int), hidden_model(buffer@, end as int, end + 1)]); }
            return end + 1;
        }
    }
    proof { assert(span_models(spans@) =~= span_models(old(spans)@) + seq![hidden_model(buffer@, hs as int, end as int)]); }
    end
}

/// Renders child `i` of a concealed heading, which lies on the line;
/// gives the position, tier and style after it.
#[verifier::rlimit(40)]
fn heading_child(
    node: &SyntaxNode,
    i: usize,
    buffer: &Buffer,
    reveal_set: &RevealSet,
    line_start: usize,
    line_end: usize,
    pos: usize,
    tier: u8,
    style: Style,
    spans: &mut Vec<RenderSpan>,
) -> (r: (usize, u8, Style))
    requires
        node.fits(byte_len(buffer@) as int),
        i < node.children@.len(),
        line_start < node.children@[i as int].end_byte,
        node.children@[i as int].start_byte < line_end,
        line_start <= line_end <= byte_len(buffer@),
        pos <= byte_len(buffer@),
        tier <= 6,
    ensures
        r.0 <= byte_len(buffer@),
        r.1 <= 6,
        ({
            let t = buffer@;
            let rv = reveal_set.model();
            let before = heading_loop(t, rv, *node, line_start as int, line_end as int, i as int, pos as int, tier as int, style);
            let after = heading_loop(t, rv, *node, line_start as int, line_end as int, i + 1, r.0 as int, r.1 as int, r.2);
            &&& span_models(final(spans)@) + after.spans == span_models(old(spans)@) + before.spans
            &&& after.pos == before.pos
            &&& after.tier == before.tier
            &&& after.style == before.style
        }),
{
    let ghost t = buffer@;
    let ghost rv = reveal_set.model();
    let c = &node.children[i];
    proof { assert(c.fits(byte_len(t) as int)); }
    let ghost before = span_models(spans@);
    let mt = heading_tier(c.kind.as_str());
    let ce = if c.end_byte < line_end { c.end_byte } else { line_end };
    if mt > 0 {
        let p = hide_marker(buffer, pos, ce, line_end, spans);
        let st = heading_style(mt);
        proof {
            let rest = heading_loop(t, rv, *node, line_start as int, line_end as int, i + 1, p as int, mt as int, st);
            assert(span_models(spans@) + rest.spans =~= before + heading_loop(t, rv, *node, line_start as int, line_end as int, i as int, pos as int, tier as int, style).spans);
        }
        (p, mt, st)
    } else if same_text(c.kind.as_str(), "inline") {
        let ghost rest = heading_loop(t, rv, *node, line_start as int, line_end as int, i + 1, ce as int, tier as int, style);
        let ghost gap = if pos < c.start_byte { seq![hidden_model(t, pos as int, c.start_byte as int)] } else { Seq::<SpanModel>::empty() };
        if pos < c.start_byte {
            emit(spans, hidden_span(pos, c.start_byte, buffer));
        }
        assert(span_models(spans@) == before + gap);
        let ghost mid = span_models(spans@);
        render_inline(c, buffer, reveal_set, line_start, line_end, style, spans);
        proof {
            assert(span_models(spans@) + rest.spans =~= before + (gap + (span_models(spans@).subrange(mid.len() as int, span_models(spans@).len() as int)) + rest.spans));
        }
        (ce, tier, style)
    } else {
        let ghost rest = heading_loop(t, rv, *node, line_start as int, line_end as int, i + 1, ce as int, tier as int, style);
        let ghost gap = if pos < c.start_byte { seq![text_model(t, pos as int, c.start_byte as int, style)] } else { Seq::<SpanModel>::empty() };
        if pos < c.start_byte {
            emit(spans, text_span(pos, c.start_byte, buffer, style));
        }
        assert(span_models(spans@) == before + gap);
        emit(spans, text_span(c.start_byte, ce, buffer, style));
        proof {
            let me = text_model(t, c.start_byte as int, ce as int, style);
            assert(span_models(spans@) + rest.spans =~= before + (gap.push(me) + rest.spans));
        }
        (ce, tier, style)
    }
}

/// Renders a heading line: raw where revealed; otherwise the markers and
/// the space after them hidden and the text in the tier's style. Reports
/// the tier and, for a concealed heading, the text its spans show.
pub fn render_atx_heading(
    node: &SyntaxNode,
    buffer: &Buffer,
    reveal_set: &RevealSet,
    line_start: usize,
    line_end: usize,
    spans: &mut Vec<RenderSpan>,
) -> (meta: HeadingMeta)
    requires
        node.fits(byte_len(buffer@) as int),
        line_start <= line_end <= byte_len(buffer@),
    ensures
        ({
            let r = heading_spans(buffer@, reveal_set.model(), *node, line_start as int, line_end as int);
            &&& span_models(final(spans)@) == span_models(old(spans)@) + r.0
            &&& meta.tier == r.1
            &&& meta.is_concealed == r.2
            &&& meta.plain_text@ == if r.2 { shown_text(span_models(final(spans)@)) } else { Seq::empty() }
        }),
{
    let ghost t = buffer@;
    let ghost rv = reveal_set.model();
    let ghost s0 = span_models(spans@);
    if reveal_set.is_revealed(&(node.start_byte..node.end_byte)) {
        render_heading_revealed(node, buffer, line_start, line_end, spans);
        return HeadingMeta::revealed();
    }
    if node.children.len() == 0 {
        emit(spans, text_span(line_start, line_end, buffer, Style::new()));
        proof { assert(span_models(spans@) =~= s0 + seq![text_model(t, line_start as int, line_end as int, Style::plain())]); }
        return HeadingMeta::revealed();
    }
    let mut style = bold();
    let mut pos = line_start;
    let mut tier: u8 = 0;
    let mut i: usize = 0;
    let n = node.children.len();
    while i < n
        invariant
            n == node.children@.len(),
            i <= n,
            node.fits(byte_len(t) as int),
            t == buffer@,
            rv == reveal_set.model(),
            pos <= byte_len(t),
            tier <= 6,
            line_start <= line_end <= byte_len(t),
            ({
                let whole = heading_loop(t, rv, *node, line_start as int, line_end as int, 0, line_start as int, 0, bold_plain());
                let rest = heading_loop(t, rv, *node, line_start as int, line_end as int, i as int, pos as int, tier as int, style);
                &&& span_models(spans@) + rest.spans == s0 + whole.spans
                &&& rest.pos == whole.pos
                &&& rest.tier == whole.tier
                &&& rest.style == whole.style
            }),
        decreases n - i,
    {
        let c = &node.children[i];
        proof { assert(c.fits(byte_len(t) as int)); }
        if c.end_byte <= line_start {
            i += 1;
        } else if c.start_byte >= line_end {
            i = n;
        } else {
            let ghost before = span_models(spans@);
            let ghost rest0 = heading_loop(t, rv, *node, line_start as int, line_end as int, i as int, pos as int, tier as int, style);
            let (p, tr, st) = heading_child(node, i, buffer, reveal_set, line_start, line_end, pos, tier, style, spans);
            pos = p;
            tier = tr;
            style = st;
            i += 1;
            proof {
                let rest = heading_loop(t, rv, *node, line_start as int, line_end as int, i as int, pos as int, tier as int, style);
                assert(span_models(spans@) + rest.spans =~= before + rest0.spans);
            }
        }
    }
    if pos < line_end {
        emit(spans, text_span(pos, line_end, buffer, style));
    }
    proof {
        assert(span_models(spans@) =~= s0 + concealed_heading(t, rv, *node, line_start as int, line_end as int).0);
    }
    let plain_text = plain_text_of(spans);
    HeadingMeta { tier, plain_text, is_concealed: true }
}

proof fn lemma_marker_prefix(k: Seq<char>)
    ensures
        marker_tier(k) != 0 ==> k.len() >= 5 && k.subrange(0, 5) == "atx_h"@,
{
    reveal_strlit("atx_h");
    reveal_strlit("atx_h1_marker");
    reveal_strlit("atx_h2_marker");
    reveal_strlit("atx_h3_marker");
    reveal_strlit("atx_h4_marker");
    reveal_strlit("atx_h5_marker");
    reveal_strlit("atx_h6_marker");
    if marker_tier(k) != 0 {
        assert(k.subrange(0, 5) =~= "atx_h"@);
    }
}

proof fn lemma_heading_loop_keeps_tier(
    t: Seq<char>,
    rv: Seq<(int, int)>,
    node: SyntaxNode,
    ls: int,
    le: int,
    i: int,
    pos: int,
    tier: int,
    style: Style,
)
    requires
        0 <= i,
        forall|j: int| i <= j < node.children@.len() ==> marker_tier(#[trigger] node.children@[j].kind@) == 0,
    ensures
        heading_loop(t, rv, node, ls, le, i, pos, tier, style).tier == tier,
    decreases node.children@.len() - i,
{
    if i < node.children@.len() {
        let c = node.children@[i];
        let ce = min_int(c.end_byte as int, le);
        lemma_heading_loop_keeps_tier(t, rv, node, ls, le, i + 1, pos, tier, style);
        lemma_heading_loop_keeps_tier(t, rv, node, ls, le, i + 1, ce, tier, style);
    }
}

/// A concealed heading has the level its marker names: where the first
/// child of the heading is on the line and is the `#`..`######` marker of
/// that level, and no other child is a heading marker, the heading is
/// drawn concealed with that tier, the marker hidden.
pub proof fn law_heading_tier_from_marker(
    t: Seq<char>,
    rv: Seq<(int, int)>,
    node: SyntaxNode,
    ls: int,
    le: int,
    level: int,
)
    requires
        !overlaps(rv, node.start_byte as int, node.end_byte as int),
        node.children@.len() > 0,
        node.children@[0].end_byte > ls,
        node.children@[0].start_byte < le,
        ({
            let k = node.children@[0].kind@;
            ||| level == 1 && k == "atx_h1_marker"@
            ||| level == 2 && k == "atx_h2_marker"@
            ||| level == 3 && k == "atx_h3_marker"@
            ||| level == 4 && k == "atx_h4_marker"@
            ||| level == 5 && k == "atx_h5_marker"@
            ||| level == 6 && k == "atx_h6_marker"@
        }),
        forall|j: int|
            1 <= j < node.children@.len() ==> !((#[trigger] node.children@[j].kind@).len() >= 5
                && node.children@[j].kind@.subrange(0, 5) == "atx_h"@),
    ensures
        heading_spans(t, rv, node, ls, le).1 == level,
        heading_spans(t, rv, node, ls, le).2,
        heading_spans(t, rv, node, ls, le).0.len() > 0,
        heading_spans(t, rv, node, ls, le).0[0].text == Seq::<char>::empty(),
{
    let c = node.children@[0];
    lemma_named_marker_tier(c.kind@, level);
    assert forall|j: int| 1 <= j < node.children@.len() implies marker_tier(#[trigger] node.children@[j].kind@) == 0 by {
        lemma_marker_prefix(node.children@[j].kind@);
    }
    let he = min_int(c.end_byte as int, le);
    let space = he < le && text_model(t, he, he + 1, Style::plain()).text == " "@;
    let next = if space { he + 1 } else { he };
    lemma_heading_loop_keeps_tier(t, rv, node, ls, le, 1, next, level, tier_style(level));
    let acc = heading_loop(t, rv, node, ls, le, 0, ls, 0, bold_plain());
    let rest = heading_loop(t, rv, node, ls, le, 1, next, level, tier_style(level));
    assert(acc.tier == rest.tier);
    assert(acc.spans[0] == hidden_model(t, min_int(ls, he), he));
}

proof fn lemma_named_marker_tier(k: Seq<char>, level: int)
    requires
        ({
            ||| level == 1 && k == "atx_h1_marker"@
            ||| level == 2 && k == "atx_h2_marker"@
            ||| level == 3 && k == "atx_h3_marker"@
            ||| level == 4 && k == "atx_h4_marker"@
            ||| level == 5 && k == "atx_h5_marker"@
            ||| level == 6 && k == "atx_h6_marker"@
        }),
    ensures
        marker_tier(k) == level,
{
    reveal_strlit("atx_h1_marker");
    reveal_strlit("atx_h2_marker");
    reveal_strlit("atx_h3_marker");
    reveal_strlit("atx_h4_marker");
    reveal_strlit("atx_h5_marker");
    reveal_strlit("atx_h6_marker");
    assert(k[5] == "atx_h1_marker"@[5] <==> level == 1);
    assert(k[5] == "atx_h2_marker"@[5] <==> level == 2);
    assert(k[5] == "atx_h3_marker"@[5] <==> level == 3);
    assert(k[5] == "atx_h4_marker"@[5] <==> level == 4);
    assert(k[5] == "atx_h5_marker"@[5] <==> level == 5);
}

/// A block quote marker shows as a `│ ` border with the `>` hidden, unless
/// the cursor reveals it, and then it shows its own text; a thematic break
/// shows as a rule of `─` exactly `width` columns wide, unless revealed,
/// and then as its own text.
pub proof fn law_quote_and_break_shown(
    t: Seq<char>,
    rv: Seq<(int, int)>,
    c: SyntaxNode,
    ls: int,
    le: int,
    width: nat,
)
    ensures
        ({
            let sp = quote_child_spans(t, rv, c, ls, le);
            let s = c.start_byte as int;
            let ce = if (c.end_byte as int) < le { c.end_byte as int } else { le };
            let raw = t.subrange(char_holding_byte(t, s), char_holding_byte(t, ce));
            c.kind@ == "block_quote_marker"@ ==> if overlaps(rv, s, c.end_byte as int) {
                sp.len() == 1 && sp[0].text == raw && !sp[0].decoration
            } else {
                sp.len() == 2 && sp[0].text == Seq::<char>::empty() && sp[0].start == s && sp[0].end == ce
                    && sp[1].decoration && sp[1].text == "│ "@
            }
        }),
        ({
            let sp = break_spans(t, rv, ls, le, width);
            &&& sp.len() == 1
            &&& sp[0].start == ls && sp[0].end == le
            &&& if overlaps(rv, ls, le) {
                sp[0].text == t.subrange(char_holding_byte(t, ls), char_holding_byte(t, le))
            } else {
                sp[0].text.len() == width && forall|i: int| 0 <= i < width ==> #[trigger] sp[0].text[i] == '─'
            }
        }),
{
}

/// A thematic break on the line `ls..le`: raw where revealed, otherwise a
/// dark gray rule `width` columns wide.
pub open spec fn break_spans(t: Seq<char>, rv: Seq<(int, int)>, ls: int, le: int, width: nat) -> Seq<SpanModel> {
    if overlaps(rv, ls, le) {
        seq![text_model(t, ls, le, or_plain(kind_style("thematic_break"@)))]
    } else {
        seq![replaced_model(t, ls, le, Seq::new(width, |i: int| '─'), Style { fg: Some(Color::DarkGray), ..Style::plain() })]
    }
}

/// `n` copies of `c`.
pub fn repeat_char(c: char, n: usize) -> (s: String)
    ensures
        s@ == Seq::new(n as nat, |i: int| c),
{
    let mut s = String::new();
    let mut i: usize = 0;
    while i < n
        invariant
            i <= n,
            s@ == Seq::new(i as nat, |k: int| c),
        decreases n - i,
    {
        string_push(&mut s, c);
        i += 1;
        assert(s@ =~= Seq::new(i as nat, |k: int| c));
    }
    s
}

/// Renders a thematic break: raw where revealed, a full-width rule
/// otherwise.
pub fn render_thematic_break(
    buffer: &Buffer,
    reveal_set: &RevealSet,
    line_start: usize,
    line_end: usize,
    viewport_width: usize,
    spans: &mut Vec<RenderSpan>,
)
    requires
        line_start <= line_end <= byte_len(buffer@),
    ensures
        span_models(final(spans)@) == span_models(old(spans)@)
            + break_spans(buffer@, reveal_set.model(), line_start as int, line_end as int, viewport_width as nat),
{
    if reveal_set.is_revealed(&(line_start..line_end)) {
        let style = match style_for_node("thematic_break") {
            Some(s) => s,
            None => Style::new(),
        };
        emit(spans, text_span(line_start, line_end, buffer, style));
    } else {
        let rule = repeat_char('─', viewport_width);
        emit(spans, replaced_span(line_start, line_end, buffer, rule, Style::new().fg(Color::DarkGray)));
    }
    proof {
        assert(span_models(spans@) =~= span_models(old(spans)@)
            + break_spans(buffer@, reveal_set.model(), line_start as int, line_end as int, viewport_width as nat));
    }
}

pub open spec fn quote_style() -> Style {
    Style { fg: Some(Color::Indexed(245)), ..Style::plain() }
}

pub open spec fn border_style() -> Style {
    Style { fg: Some(Color::DarkGray), ..Style::plain() }
}

/// The index of the first child of `node` from `i` on that is an inline
/// node, or -1.
pub open spec fn first_inline(node: SyntaxNode, i: int) -> int
    decreases node.children@.len() - i,
{
    if i < 0 || i >= node.children@.len() {
        -1
    } else if node.children@[i].kind@ == "inline"@ {
        i
    } else {
        first_inline(node, i + 1)
    }
}

/// What one child of a block quote shows on the line `ls..le`.
pub open spec fn quote_child_spans(t: Seq<char>, rv: Seq<(int, int)>, c: SyntaxNode, ls: int, le: int) -> Seq<SpanModel>
    decreases c, 2int,
{
    let k = c.kind@;
    let ce = min_int(c.end_byte as int, le);
    let cs = max_int(c.start_byte as int, ls);
    if k == "block_quote_marker"@ {
        if overlaps(rv, c.start_byte as int, c.end_byte as int) {
            seq![text_model(t, c.start_byte as int, ce, match kind_style("block_quote_marker"@) {
                Some(s) => s,
                None => border_style(),
            })]
        } else {
            seq![hidden_model(t, c.start_byte as int, ce), decoration_model("│ "@, border_style())]
        }
    } else if k == "block_quote"@ {
        quote_spans(t, rv, c, cs, ce)
    } else if k == "paragraph"@ || k == "list"@ {
        if c.children@.len() == 0 {
            Seq::empty()
        } else if first_inline(c, 0) >= 0 {
            inline_spans(t, rv, c.children@[first_inline(c, 0)], ls, le, quote_style())
        } else {
            seq![text_model(t, cs, ce, quote_style())]
        }
    } else {
        seq![text_model(t, cs, ce, quote_style())]
    }
}

/// A block quote on the line `ls..le`: markers replaced by a border
/// (raw where revealed), paragraphs' inline content and other parts in the
/// quote style, nested quotes the same way.
pub open spec fn quote_spans(t: Seq<char>, rv: Seq<(int, int)>, node: SyntaxNode, ls: int, le: int) -> Seq<SpanModel>
    decreases node, 1int,
{
    if node.children@.len() == 0 {
        seq![text_model(t, ls, le, quote_style())]
    } else {
        let (sp, pos) = quote_loop(t, rv, node, ls, le, 0, ls);
        sp + if pos < le { seq![text_model(t, pos, le, quote_style())] } else { Seq::empty() }
    }
}

pub open spec fn quote_loop(t: Seq<char>, rv: Seq<(int, int)>, node: SyntaxNode, ls: int, le: int, i: int, pos: int) -> (Seq<SpanModel>, int)
    decreases node, 0int, node.children@.len() - i,
{
    if i < 0 || i >= node.children@.len() {
        (Seq::empty(), pos)
    } else {
        let c = node.children@[i];
        if c.end_byte <= ls {
            quote_loop(t, rv, node, ls, le, i + 1, pos)
        } else if c.start_byte >= le {
            (Seq::empty(), pos)
        } else {
            let ce = min_int(c.end_byte as int, le);
            let gap = if pos < c.start_byte { seq![hidden_model(t, pos, c.start_byte as int)] } else { Seq::empty() };
            let me = quote_child_spans(t, rv, c, ls, le);
            let rest = quote_loop(t, rv, node, ls, le, i + 1, ce);
            (gap + me + rest.0, rest.1)
        }
    }
}

/// The first child of `node` that is an inline node.
fn find_inline(node: &SyntaxNode) -> (k: Option<usize>)
    ensures
        match k {
            Some(j) => first_inline(*node, 0) == j && j < node.children@.len(),
            None => first_inline(*node, 0) == -1,
        },
{
    let mut i: usize = 0;
    while i < node.children.len()
        invariant
            i <= node.children@.len(),
            first_inline(*node, 0) == first_inline(*node, i as int),
        decreases node.children@.len() - i,
    {
        if same_text(node.children[i].kind.as_str(), "inline") {
            return Some(i);
        }
        i += 1;
    }
    None
}

/// The border a concealed block quote marker turns into.
fn quote_border(border: Style) -> (sp: RenderSpan)
    ensures
        sp.model() == decoration_model("│ "@, border),
{
    RenderSpan {
        display_text: String::from_str("│ "),
        style: border,
        raw_byte_range: 0..0,
        raw_char_count: 0,
        is_decoration: true,
    }
}

/// Renders one child of a block quote on the line.
fn render_quote_child(
    c: &SyntaxNode,
    buffer: &Buffer,
    reveal_set: &RevealSet,
    line_start: usize,
    line_end: usize,
    spans: &mut Vec<RenderSpan>,
)
    requires
        c.fits(byte_len(buffer@) as int),
        line_start <= line_end <= byte_len(buffer@),
        c.start_byte < line_end,
        line_start < c.end_byte,
    ensures
        span_models(final(spans)@) == span_models(old(spans)@)
            + quote_child_spans(buffer@, reveal_set.model(), *c, line_start as int, line_end as int),
    decreases c, 2int,
{
    let ghost t = buffer@;
    let ghost s0 = span_models(spans@);
    let quote = Style::new().fg(Color::Indexed(245));
    let border = Style::new().fg(Color::DarkGray);
    let ce = if c.end_byte < line_end { c.end_byte } else { line_end };
    let cs = if c.start_byte > line_start { c.start_byte } else { line_start };
    let kind = c.kind.as_str();
    if same_text(kind, "block_quote_marker") {
        if reveal_set.is_revealed(&(c.start_byte..c.end_byte)) {
            let style = match style_for_node("block_quote_marker") {
                Some(s) => s,
                None => border,
            };
            emit(spans, text_span(c.start_byte, ce, buffer, style));
        } else {
            emit(spans, hidden_span(c.start_byte, ce, buffer));
            emit(spans, quote_border(border));
        }
    } else if same_text(kind, "block_quote") {
        render_block_quote(c, buffer, reveal_set, cs, ce, spans);
    } else if same_text(kind, "paragraph") || same_text(kind, "list") {
        if c.children.len() > 0 {
            match find_inline(c) {
                Some(j) => {
                    proof { assert(c.children@[j as int].fits(byte_len(t) as int)); }
                    render_inline(&c.children[j], buffer, reveal_set, line_start, line_end, quote, spans);
                },
                None => {
                    emit(spans, text_span(cs, ce, buffer, quote));
                },
            }
        }
    } else {
        emit(spans, text_span(cs, ce, buffer, quote));
    }
    proof { assert(span_models(spans@) =~= s0 + quote_child_spans(t, reveal_set.model(), *c, line_start as int, line_end as int)); }
}

/// Renders a block quote line: the `>` markers become a border (raw where
/// revealed), the content is shown in the quote style, nested quotes
/// alike.
pub fn render_block_quote(
    node: &SyntaxNode,
    buffer: &Buffer,
    reveal_set: &RevealSet,
    line_start: usize,
    line_end: usize,
    spans: &mut Vec<RenderSpan>,
)
    requires
        node.fits(byte_len(buffer@) as int),
        line_start <= line_end <= byte_len(buffer@),
    ensures
        span_models(final(spans)@) == span_models(old(spans)@)
            + quote_spans(buffer@, reveal_set.model(), *node, line_start as int, line_end as int),
    decreases node, 1int,
{
    let ghost t = buffer@;
    let ghost rv = reveal_set.model();
    let ghost s0 = span_models(spans@);
    let quote = Style::new().fg(Color::Indexed(245));
    let border = Style::new().fg(Color::DarkGray);
    if node.children.len() == 0 {
        emit(spans, text_span(line_start, line_end, buffer, quote));
        proof { assert(span_models(spans@) =~= s0 + quote_spans(t, rv, *node, line_start as int, line_end as int)); }
        return;
    }
    let mut pos = line_start;
    let mut i: usize = 0;
    let n = node.children.len();
    while i < n
        invariant
            n == node.children@.len(),
            i <= n,
            node.fits(byte_len(t) as int),
            t == buffer@,
            rv == reveal_set.model(),
            quote == quote_style(),
            border == border_style(),
            pos <= byte_len(t),
            line_start <= line_end <= byte_len(t),
            ({
                let whole = quote_loop(t, rv, *node, line_start as int, line_end as int, 0, line_start as int);
                let rest = quote_loop(t, rv, *node, line_start as int, line_end as int, i as int, pos as int);
                span_models(spans@) + rest.0 == s0 + whole.0 && rest.1 == whole.1
            }),
        decreases n - i,
    {
        let c = &node.children[i];
        proof { assert(c.fits(byte_len(t) as int)); }
        if c.end_byte <= line_start {
            i += 1;
        } else if c.start_byte >= line_end {
            i = n;
        } else {
            let ghost before = span_models(spans@);
            let ce = if c.end_byte < line_end { c.end_byte } else { line_end };
            let ghost rest = quote_loop(t, rv, *node, line_start as int, line_end as int, (i + 1) as int, ce as int);
            let ghost gap = if pos < c.start_byte { seq![hidden_model(t, pos as int, c.start_byte as int)] } else { Seq::<SpanModel>::empty() };
            if pos < c.start_byte {
                emit(spans, hidden_span(pos, c.start_byte, buffer));
            }
            assert(span_models(spans@) == before + gap);
            let ghost mid = span_models(spans@);
            render_quote_child(c, buffer, reveal_set, line_start, line_end, spans);
            proof {
                assert(span_models(spans@) + rest.0 =~= before + (gap + (span_models(spans@).subrange(mid.len() as int, span_models(spans@).len() as int)) + rest.0));
            }
            pos = ce;
            i += 1;
        }
    }
    if pos < line_end {
        emit(spans, text_span(pos, line_end, buffer, quote));
    }
    proof { assert(span_models(spans@) =~= s0 + quote_spans(t, rv, *node, line_start as int, line_end as int)); }
}

} // verus!
