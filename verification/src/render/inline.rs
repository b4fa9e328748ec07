//! Inline markdown: emphasis, code spans and links shown with their
//! delimiters hidden, or raw where the cursor reveals them.
use vstd::prelude::*;

use crate::chars::same_text;
use crate::editor::buffer::Buffer;
use crate::editor::text::byte_len;
use crate::markdown::highlight::{kind_style, style_for_node};
use crate::markdown::reveal_set::{overlaps, RevealSet};
use crate::markdown::syntax::SyntaxNode;
use crate::render::plan::RenderSpan;
use crate::render::table::{find_node_on_path, find_on_path};
use crate::editor::buffer::char_holding_byte;
use crate::render::spans::{
    chained, emit, hidden_model, hidden_span, lemma_chained_chars, lemma_chained_concat, lemma_chained_one, model_chars,
    span_models, text_model, text_span, SpanModel,
};
use crate::style::{Color, Modifier, Style};

verus! {

pub open spec fn or_plain(o: Option<Style>) -> Style {
    match o {
        Some(s) => s,
        None => Style::plain(),
    }
}

pub open spec fn italic_style() -> Style {
    Style::plain().spec_add_modifier(Modifier { italic: true, ..Modifier::none() })
}

pub open spec fn bold_style() -> Style {
    Style::plain().spec_add_modifier(Modifier { bold: true, ..Modifier::none() })
}

pub open spec fn strike_style() -> Style {
    Style::plain().spec_add_modifier(Modifier { crossed_out: true, ..Modifier::none() })
}

pub open spec fn code_style() -> Style {
    Style { bg: Some(Color::Indexed(236)), ..Style::plain() }
}

pub open spec fn link_style() -> Style {
    (Style { fg: Some(Color::Blue), ..Style::plain() }).spec_add_modifier(Modifier { underlined: true, ..Modifier::none() })
}

/// A node shown raw: each child in its highlight style, the text between
/// children plain; a leaf in its own highlight style.
pub open spec fn revealed_spans(t: Seq<char>, node: SyntaxNode) -> Seq<SpanModel> {
    if node.children@.len() == 0 {
        seq![text_model(t, node.start_byte as int, node.end_byte as int, or_plain(kind_style(node.kind@)))]
    } else {
        let (sp, pos) = revealed_loop(t, node, 0, node.start_byte as int);
        sp + if pos < node.end_byte { seq![text_model(t, pos, node.end_byte as int, Style::plain())] } else { Seq::empty() }
    }
}

pub open spec fn revealed_loop(t: Seq<char>, node: SyntaxNode, i: int, pos: int) -> (Seq<SpanModel>, int)
    decreases node.children@.len() - i,
{
    if i < 0 || i >= node.children@.len() {
        (Seq::empty(), pos)
    } else {
        let c = node.children@[i];
        let gap = if pos < c.start_byte { seq![text_model(t, pos, c.start_byte as int, Style::plain())] } else { Seq::empty() };
        let me = text_model(t, c.start_byte as int, c.end_byte as int, or_plain(kind_style(c.kind@)));
        let rest = revealed_loop(t, node, i + 1, c.end_byte as int);
        (gap.push(me) + rest.0, rest.1)
    }
}

/// An inline construct shown with its markup hidden: emphasis, strong
/// emphasis and strikethrough styled, code spans on a dark background,
/// links as their text; anything else as its text in `parent`.
pub open spec fn concealed_spans(t: Seq<char>, rv: Seq<(int, int)>, node: SyntaxNode, parent: Style) -> Seq<SpanModel>
    decreases node, 2int,
{
    let k = node.kind@;
    if k == "emphasis"@ {
        emphasis_spans(t, rv, node, parent.spec_patch(italic_style()))
    } else if k == "strong_emphasis"@ {
        emphasis_spans(t, rv, node, parent.spec_patch(bold_style()))
    } else if k == "strikethrough"@ {
        emphasis_spans(t, rv, node, parent.spec_patch(strike_style()))
    } else if k == "code_span"@ {
        code_span_spans(t, node)
    } else if k == "inline_link"@ || k == "full_reference_link"@ || k == "collapsed_reference_link"@ || k == "image"@ {
        link_spans(t, node)
    } else {
        seq![text_model(t, node.start_byte as int, node.end_byte as int, parent)]
    }
}

/// Emphasis in `merged`: delimiters hidden, nested constructs shown raw
/// where revealed and concealed otherwise.
pub open spec fn emphasis_spans(t: Seq<char>, rv: Seq<(int, int)>, node: SyntaxNode, merged: Style) -> Seq<SpanModel>
    decreases node, 1int,
{
    if node.children@.len() == 0 {
        seq![text_model(t, node.start_byte as int, node.end_byte as int, merged)]
    } else {
        let (sp, pos) = emphasis_loop(t, rv, node, merged, 0, node.start_byte as int);
        sp + if pos < node.end_byte { seq![text_model(t, pos, node.end_byte as int, merged)] } else { Seq::empty() }
    }
}

pub open spec fn emphasis_loop(t: Seq<char>, rv: Seq<(int, int)>, node: SyntaxNode, merged: Style, i: int, pos: int) -> (Seq<SpanModel>, int)
    decreases node, 0int, node.children@.len() - i,
{
    if i < 0 || i >= node.children@.len() {
        (Seq::empty(), pos)
    } else {
        let c = node.children@[i];
        let gap = if pos < c.start_byte { seq![text_model(t, pos, c.start_byte as int, merged)] } else { Seq::empty() };
        let me = if c.kind@ == "emphasis_delimiter"@ {
            seq![hidden_model(t, c.start_byte as int, c.end_byte as int)]
        } else if overlaps(rv, c.start_byte as int, c.end_byte as int) {
            revealed_spans(t, c)
        } else {
            concealed_spans(t, rv, c, merged)
        };
        let rest = emphasis_loop(t, rv, node, merged, i + 1, c.end_byte as int);
        (gap + me + rest.0, rest.1)
    }
}

/// A code span: backtick delimiters hidden, the rest on a dark background.
pub open spec fn code_span_spans(t: Seq<char>, node: SyntaxNode) -> Seq<SpanModel> {
    if node.children@.len() == 0 {
        seq![text_model(t, node.start_byte as int, node.end_byte as int, code_style())]
    } else {
        let (sp, pos) = code_span_loop(t, node, 0, node.start_byte as int);
        sp + if pos < node.end_byte { seq![text_model(t, pos, node.end_byte as int, code_style())] } else { Seq::empty() }
    }
}

pub open spec fn code_span_loop(t: Seq<char>, node: SyntaxNode, i: int, pos: int) -> (Seq<SpanModel>, int)
    decreases node.children@.len() - i,
{
    if i < 0 || i >= node.children@.len() {
        (Seq::empty(), pos)
    } else {
        let c = node.children@[i];
        let gap = if pos < c.start_byte { seq![text_model(t, pos, c.start_byte as int, code_style())] } else { Seq::empty() };
        let me = if c.kind@ == "code_span_delimiter"@ {
            hidden_model(t, c.start_byte as int, c.end_byte as int)
        } else {
            text_model(t, c.start_byte as int, c.end_byte as int, code_style())
        };
        let rest = code_span_loop(t, node, i + 1, c.end_byte as int);
        (gap.push(me) + rest.0, rest.1)
    }
}

/// A link or image: its text (or image description) shown in the link
/// style, everything else hidden.
pub open spec fn link_spans(t: Seq<char>, node: SyntaxNode) -> Seq<SpanModel> {
    if node.children@.len() == 0 {
        seq![text_model(t, node.start_byte as int, node.end_byte as int, link_style())]
    } else {
        let (sp, pos) = link_loop(t, node, 0, node.start_byte as int);
        sp + if pos < node.end_byte { seq![hidden_model(t, pos, node.end_byte as int)] } else { Seq::empty() }
    }
}

pub open spec fn link_loop(t: Seq<char>, node: SyntaxNode, i: int, pos: int) -> (Seq<SpanModel>, int)
    decreases node.children@.len() - i,
{
    if i < 0 || i >= node.children@.len() {
        (Seq::empty(), pos)
    } else {
        let c = node.children@[i];
        let gap = if pos < c.start_byte { seq![hidden_model(t, pos, c.start_byte as int)] } else { Seq::empty() };
        let me = if c.kind@ == "link_text"@ || c.kind@ == "image_description"@ {
            text_model(t, c.start_byte as int, c.end_byte as int, link_style())
        } else {
            hidden_model(t, c.start_byte as int, c.end_byte as int)
        };
        let rest = link_loop(t, node, i + 1, c.end_byte as int);
        (gap.push(me) + rest.0, rest.1)
    }
}

/// The part of an inline node on the line `ls..le`: the text between
/// constructs in `parent`, each construct shown raw where revealed and
/// concealed otherwise.
pub open spec fn inline_spans(t: Seq<char>, rv: Seq<(int, int)>, node: SyntaxNode, ls: int, le: int, parent: Style) -> Seq<SpanModel> {
    let s = if node.start_byte > ls { node.start_byte as int } else { ls };
    let e = if node.end_byte < le { node.end_byte as int } else { le };
    if s >= e {
        Seq::empty()
    } else {
        let (sp, pos) = inline_loop(t, rv, node, ls, le, parent, 0, s);
        sp + if pos < e { seq![text_model(t, pos, e, parent)] } else { Seq::empty() }
    }
}

pub open spec fn inline_loop(
    t: Seq<char>,
    rv: Seq<(int, int)>,
    node: SyntaxNode,
    ls: int,
    le: int,
    parent: Style,
    i: int,
    pos: int,
) -> (Seq<SpanModel>, int)
    decreases node.children@.len() - i,
{
    if i < 0 || i >= node.children@.len() {
        (Seq::empty(), pos)
    } else {
        let c = node.children@[i];
        if c.end_byte <= ls {
            inline_loop(t, rv, node, ls, le, parent, i + 1, pos)
        } else if c.start_byte >= le {
            (Seq::empty(), pos)
        } else {
            let gap = if pos < c.start_byte { seq![text_model(t, pos, c.start_byte as int, parent)] } else { Seq::empty() };
            let me = if overlaps(rv, c.start_byte as int, c.end_byte as int) {
                revealed_spans(t, c)
            } else {
                concealed_spans(t, rv, c, parent)
            };
            let next = if c.end_byte < le { c.end_byte as int } else { le };
            let rest = inline_loop(t, rv, node, ls, le, parent, i + 1, next);
            (gap + me + rest.0, rest.1)
        }
    }
}

/// Shows a node raw.
pub fn render_revealed(node: &SyntaxNode, buffer: &Buffer, spans: &mut Vec<RenderSpan>)
    requires
        node.fits(byte_len(buffer@) as int),
    ensures
        span_models(final(spans)@) == span_models(old(spans)@) + revealed_spans(buffer@, *node),
{
    let ghost t = buffer@;
    let ghost s0 = span_models(spans@);
    if node.children.len() == 0 {
        let style = match style_for_node(node.kind.as_str()) {
            Some(s) => s,
            None => Style::new(),
        };
        emit(spans, text_span(node.start_byte, node.end_byte, buffer, style));
        return;
    }
    let mut pos = node.start_byte;
    let mut i: usize = 0;
    while i < node.children.len()
        invariant
            i <= node.children@.len(),
            node.fits(byte_len(t) as int),
            t == buffer@,
            pos <= byte_len(t),
            ({
                let whole = revealed_loop(t, *node, 0, node.start_byte as int);
                let rest = revealed_loop(t, *node, i as int, pos as int);
                span_models(spans@) + rest.0 == s0 + whole.0 && rest.1 == whole.1
            }),
        decreases node.children@.len() - i,
    {
        let c = &node.children[i];
        proof { assert(c.fits(byte_len(t) as int)); }
        let ghost before = span_models(spans@);
        let ghost rest = revealed_loop(t, *node, (i + 1) as int, c.end_byte as int);
        if pos < c.start_byte {
            emit(spans, text_span(pos, c.start_byte, buffer, Style::new()));
        }
        let style = match style_for_node(c.kind.as_str()) {
            Some(s) => s,
            None => Style::new(),
        };
        emit(spans, text_span(c.start_byte, c.end_byte, buffer, style));
        proof {
            let gap = if pos < c.start_byte { seq![text_model(t, pos as int, c.start_byte as int, Style::plain())] } else { Seq::<SpanModel>::empty() };
            let me = text_model(t, c.start_byte as int, c.end_byte as int, or_plain(kind_style(c.kind@)));
            assert(span_models(spans@) == before + gap.push(me));
            assert(span_models(spans@) + rest.0 =~= before + (gap.push(me) + rest.0));
        }
        pos = c.end_byte;
        i += 1;
    }
    if pos < node.end_byte {
        emit(spans, text_span(pos, node.end_byte, buffer, Style::new()));
    }
    proof {
        let (sp, p) = revealed_loop(t, *node, 0, node.start_byte as int);
        assert(span_models(spans@) =~= s0 + revealed_spans(t, *node));
    }
}

fn style_italic() -> (s: Style)
    ensures
        s == italic_style(),
{
    Style::new().add_modifier(Modifier::italic())
}

fn style_bold() -> (s: Style)
    ensures
        s == bold_style(),
{
    Style::new().add_modifier(Modifier::bold())
}

fn style_strikethrough() -> (s: Style)
    ensures
        s == strike_style(),
{
    Style::new().add_modifier(Modifier::crossed_out())
}

/// Shows an inline construct with its markup hidden.
pub fn render_concealed(node: &SyntaxNode, buffer: &Buffer, reveal_set: &RevealSet, parent_style: Style, spans: &mut Vec<RenderSpan>)
    requires
        node.fits(byte_len(buffer@) as int),
    ensures
        span_models(final(spans)@) == span_models(old(spans)@) + concealed_spans(buffer@, reveal_set.model(), *node, parent_style),
    decreases node, 2int,
{
    let kind = node.kind.as_str();
    if same_text(kind, "emphasis") {
        render_concealed_emphasis(node, buffer, reveal_set, parent_style.patch(style_italic()), spans);
    } else if same_text(kind, "strong_emphasis") {
        render_concealed_emphasis(node, buffer, reveal_set, parent_style.patch(style_bold()), spans);
    } else if same_text(kind, "strikethrough") {
        render_concealed_emphasis(node, buffer, reveal_set, parent_style.patch(style_strikethrough()), spans);
    } else if same_text(kind, "code_span") {
        render_concealed_code_span(node, buffer, spans);
    } else if same_text(kind, "inline_link") || same_text(kind, "full_reference_link")
        || same_text(kind, "collapsed_reference_link") || same_text(kind, "image") {
        render_concealed_link(node, buffer, spans);
    } else {
        emit(spans, text_span(node.start_byte, node.end_byte, buffer, parent_style));
        proof {
            assert(span_models(spans@) =~= span_models(old(spans)@) + concealed_spans(buffer@, reveal_set.model(), *node, parent_style));
        }
    }
}

/// Shows emphasis in `merged` with its delimiters hidden.
fn render_concealed_emphasis(node: &SyntaxNode, buffer: &Buffer, reveal_set: &RevealSet, merged: Style, spans: &mut Vec<RenderSpan>)
    requires
        node.fits(byte_len(buffer@) as int),
    ensures
        span_models(final(spans)@) == span_models(old(spans)@) + emphasis_spans(buffer@, reveal_set.model(), *node, merged),
    decreases node, 1int,
{
    let ghost t = buffer@;
    let ghost rv = reveal_set.model();
    let ghost s0 = span_models(spans@);
    if node.children.len() == 0 {
        emit(spans, text_span(node.start_byte, node.end_byte, buffer, merged));
        proof { assert(span_models(spans@) =~= s0 + emphasis_spans(t, rv, *node, merged)); }
        return;
    }
    let mut pos = node.start_byte;
    let mut i: usize = 0;
    while i < node.children.len()
        invariant
            i <= node.children@.len(),
            node.fits(byte_len(t) as int),
            t == buffer@,
            rv == reveal_set.model(),
            pos <= byte_len(t),
            ({
                let whole = emphasis_loop(t, rv, *node, merged, 0, node.start_byte as int);
                let rest = emphasis_loop(t, rv, *node, merged, i as int, pos as int);
                span_models(spans@) + rest.0 == s0 + whole.0 && rest.1 == whole.1
            }),
        decreases node.children@.len() - i,
    {
        let c = &node.children[i];
        proof { assert(c.fits(byte_len(t) as int)); }
        let ghost before = span_models(spans@);
        let ghost rest = emphasis_loop(t, rv, *node, merged, (i + 1) as int, c.end_byte as int);
        let ghost gap = if pos < c.start_byte { seq![text_model(t, pos as int, c.start_byte as int, merged)] } else { Seq::<SpanModel>::empty() };
        if pos < c.start_byte {
            emit(spans, text_span(pos, c.start_byte, buffer, merged));
        }
        assert(span_models(spans@) == before + gap);
        let ghost mid = span_models(spans@);
        if same_text(c.kind.as_str(), "emphasis_delimiter") {
            emit(spans, hidden_span(c.start_byte, c.end_byte, buffer));
            assert(span_models(spans@) =~= mid + seq![hidden_model(t, c.start_byte as int, c.end_byte as int)]);
        } else if reveal_set.is_revealed(&(c.start_byte..c.end_byte)) {
            render_revealed(c, buffer, spans);
        } else {
            render_concealed(c, buffer, reveal_set, merged, spans);
        }
        proof {
            assert(span_models(spans@) + rest.0 =~= before + (gap + (span_models(spans@).subrange(mid.len() as int, span_models(spans@).len() as int)) + rest.0));
        }
        pos = c.end_byte;
        i += 1;
    }
    if pos < node.end_byte {
        emit(spans, text_span(pos, node.end_byte, buffer, merged));
    }
    proof { assert(span_models(spans@) =~= s0 + emphasis_spans(t, rv, *node, merged)); }
}

/// Shows a code span on a dark background with its delimiters hidden.
fn render_concealed_code_span(node: &SyntaxNode, buffer: &Buffer, spans: &mut Vec<RenderSpan>)
    requires
        node.fits(byte_len(buffer@) as int),
    ensures
        span_models(final(spans)@) == span_models(old(spans)@) + code_span_spans(buffer@, *node),
{
    let ghost t = buffer@;
    let ghost s0 = span_models(spans@);
    let code = Style::new().bg(Color::Indexed(236));
    if node.children.len() == 0 {
        emit(spans, text_span(node.start_byte, node.end_byte, buffer, code));
        proof { assert(span_models(spans@) =~= s0 + code_span_spans(t, *node)); }
        return;
    }
    let mut pos = node.start_byte;
    let mut i: usize = 0;
    while i < node.children.len()
        invariant
            i <= node.children@.len(),
            node.fits(byte_len(t) as int),
            t == buffer@,
            code == code_style(),
            pos <= byte_len(t),
            ({
                let whole = code_span_loop(t, *node, 0, node.start_byte as int);
                let rest = code_span_loop(t, *node, i as int, pos as int);
                span_models(spans@) + rest.0 == s0 + whole.0 && rest.1 == whole.1
            }),
        decreases node.children@.len() - i,
    {
        let c = &node.children[i];
        proof { assert(c.fits(byte_len(t) as int)); }
        let ghost before = span_models(spans@);
        let ghost rest = code_span_loop(t, *node, (i + 1) as int, c.end_byte as int);
        let ghost gap = if pos < c.start_byte { seq![text_model(t, pos as int, c.start_byte as int, code)] } else { Seq::<SpanModel>::empty() };
        if pos < c.start_byte {
            emit(spans, text_span(pos, c.start_byte, buffer, code));
        }
        let sp = if same_text(c.kind.as_str(), "code_span_delimiter") {
            hidden_span(c.start_byte, c.end_byte, buffer)
        } else {
            text_span(c.start_byte, c.end_byte, buffer, code)
        };
        let ghost me = sp.model();
        emit(spans, sp);
        proof {
            assert(span_models(spans@) =~= before + gap.push(me));
            assert(span_models(spans@) + rest.0 =~= before + (gap.push(me) + rest.0));
        }
        pos = c.end_byte;
        i += 1;
    }
    if pos < node.end_byte {
        emit(spans, text_span(pos, node.end_byte, buffer, code));
    }
    proof { assert(span_models(spans@) =~= s0 + code_span_spans(t, *node)); }
}

/// Shows a link or image as its text in the link style, hiding the rest.
fn render_concealed_link(node: &SyntaxNode, buffer: &Buffer, spans: &mut Vec<RenderSpan>)
    requires
        node.fits(byte_len(buffer@) as int),
    ensures
        span_models(final(spans)@) == span_models(old(spans)@) + link_spans(buffer@, *node),
{
    let ghost t = buffer@;
    let ghost s0 = span_models(spans@);
    let link = Style::new().fg(Color::Blue).add_modifier(Modifier::underlined());
    if node.children.len() == 0 {
        emit(spans, text_span(node.start_byte, node.end_byte, buffer, link));
        proof { assert(span_models(spans@) =~= s0 + link_spans(t, *node)); }
        return;
    }
    let mut pos = node.start_byte;
    let mut i: usize = 0;
    while i < node.children.len()
        invariant
            i <= node.children@.len(),
            node.fits(byte_len(t) as int),
            t == buffer@,
            link == link_style(),
            pos <= byte_len(t),
            ({
                let whole = link_loop(t, *node, 0, node.start_byte as int);
                let rest = link_loop(t, *node, i as int, pos as int);
                span_models(spans@) + rest.0 == s0 + whole.0 && rest.1 == whole.1
            }),
        decreases node.children@.len() - i,
    {
        let c = &node.children[i];
        proof { assert(c.fits(byte_len(t) as int)); }
        let ghost before = span_models(spans@);
        let ghost rest = link_loop(t, *node, (i + 1) as int, c.end_byte as int);
        let ghost gap = if pos < c.start_byte { seq![hidden_model(t, pos as int, c.start_byte as int)] } else { Seq::<SpanModel>::empty() };
        if pos < c.start_byte {
            emit(spans, hidden_span(pos, c.start_byte, buffer));
        }
        let kind = c.kind.as_str();
        let sp = if same_text(kind, "link_text") || same_text(kind, "image_description") {
            text_span(c.start_byte, c.end_byte, buffer, link)
        } else {
            hidden_span(c.start_byte, c.end_byte, buffer)
        };
        let ghost me = sp.model();
        emit(spans, sp);
        proof {
            assert(span_models(spans@) =~= before + gap.push(me));
            assert(span_models(spans@) + rest.0 =~= before + (gap.push(me) + rest.0));
        }
        pos = c.end_byte;
        i += 1;
    }
    if pos < node.end_byte {
        emit(spans, hidden_span(pos, node.end_byte, buffer));
    }
    proof { assert(span_models(spans@) =~= s0 + link_spans(t, *node)); }
}

/// Renders the part of an inline node on the line `line_start..line_end`
/// (byte offsets): the text between constructs in `parent_style`, each
/// construct raw where revealed and concealed otherwise.
pub fn render_inline(
    node: &SyntaxNode,
    buffer: &Buffer,
    reveal_set: &RevealSet,
    line_start: usize,
    line_end: usize,
    parent_style: Style,
    spans: &mut Vec<RenderSpan>,
)
    requires
        node.fits(byte_len(buffer@) as int),
    ensures
        span_models(final(spans)@) == span_models(old(spans)@)
            + inline_spans(buffer@, reveal_set.model(), *node, line_start as int, line_end as int, parent_style),
{
    let ghost t = buffer@;
    let ghost rv = reveal_set.model();
    let ghost s0 = span_models(spans@);
    let start = if node.start_byte > line_start { node.start_byte } else { line_start };
    let end = if node.end_byte < line_end { node.end_byte } else { line_end };
    if start >= end {
        proof { assert(span_models(spans@) =~= s0 + inline_spans(t, rv, *node, line_start as int, line_end as int, parent_style)); }
        return;
    }
    let mut pos = start;
    let mut i: usize = 0;
    let n = node.children.len();
    while i < n
        invariant
            n == node.children@.len(),
            i <= n,
            node.fits(byte_len(t) as int),
            t == buffer@,
            rv == reveal_set.model(),
            pos <= byte_len(t),
            end <= byte_len(t),
            ({
                let whole = inline_loop(t, rv, *node, line_start as int, line_end as int, parent_style, 0, start as int);
                let rest = inline_loop(t, rv, *node, line_start as int, line_end as int, parent_style, i as int, pos as int);
                span_models(spans@) + rest.0 == s0 + whole.0 && rest.1 == whole.1
            }),
        decreases n - i,
    {
        let c = &node.children[i];
        proof { assert(c.fits(byte_len(t) as int)); }
        if c.end_byte <= line_start {
            i += 1;
        } else if c.start_byte >= line_end {
            i = n;
        } else {
            let ghost before = span_models(spans@);
            let next = if c.end_byte < line_end { c.end_byte } else { line_end };
            let ghost rest = inline_loop(t, rv, *node, line_start as int, line_end as int, parent_style, (i + 1) as int, next as int);
            let ghost gap = if pos < c.start_byte { seq![text_model(t, pos as int, c.start_byte as int, parent_style)] } else { Seq::<SpanModel>::empty() };
            if pos < c.start_byte {
                emit(spans, text_span(pos, c.start_byte, buffer, parent_style));
            }
            assert(span_models(spans@) == before + gap);
            let ghost mid = span_models(spans@);
            if reveal_set.is_revealed(&(c.start_byte..c.end_byte)) {
                render_revealed(c, buffer, spans);
            } else {
                render_concealed(c, buffer, reveal_set, parent_style, spans);
            }
            proof {
                assert(span_models(spans@) + rest.0 =~= before + (gap + (span_models(spans@).subrange(mid.len() as int, span_models(spans@).len() as int)) + rest.0));
            }
            pos = next;
            i += 1;
        }
    }
    if pos < end {
        emit(spans, text_span(pos, end, buffer, parent_style));
    }
    proof { assert(span_models(spans@) =~= s0 + inline_spans(t, rv, *node, line_start as int, line_end as int, parent_style)); }
}

/// The first inline node met going down from `node` towards byte
/// `byte_offset`.
pub fn descend_to_inline_node(node: &SyntaxNode, byte_offset: usize) -> (r: Option<&SyntaxNode>)
    ensures
        match r {
            Some(n) => find_on_path(*node, byte_offset as int, "inline"@) == Some(*n),
            None => find_on_path(*node, byte_offset as int, "inline"@) is None,
        },
{
    find_node_on_path(node, byte_offset, "inline")
}


proof fn lemma_text_chained(t: Seq<char>, s: int, e: int, style: Style)
    ensures
        chained(t, seq![text_model(t, s, e, style)], s, e),
{
    lemma_chained_one(t, text_model(t, s, e, style));
}

proof fn lemma_hidden_chained(t: Seq<char>, s: int, e: int)
    ensures
        chained(t, seq![hidden_model(t, s, e)], s, e),
{
    lemma_chained_one(t, hidden_model(t, s, e));
}

/// The gap before a child: nothing where the child starts at `pos`.
proof fn lemma_gap_chained(t: Seq<char>, pos: int, start: int, gap: Seq<SpanModel>, g: SpanModel)
    requires
        pos <= start,
        gap == (if pos < start { seq![g] } else { Seq::<SpanModel>::empty() }),
        pos < start ==> chained(t, seq![g], pos, start),
    ensures
        chained(t, gap, pos, start),
{
}

proof fn lemma_child_order(node: SyntaxNode, i: int)
    requires
        node.nested(),
        0 <= i < node.children@.len(),
    ensures
        node.start_byte <= node.children@[i].start_byte <= node.children@[i].end_byte <= node.end_byte,
        node.children@[i].nested(),
        i + 1 < node.children@.len() ==> node.children@[i].end_byte <= node.children@[i + 1].start_byte,
{
    assert(node.children@[i].nested());
    if i + 1 < node.children@.len() {
        assert(node.children@[i].end_byte <= node.children@[i + 1].start_byte);
    }
}

proof fn lemma_revealed_loop(t: Seq<char>, node: SyntaxNode, i: int, pos: int)
    requires
        node.nested(),
        0 <= i <= node.children@.len(),
        i < node.children@.len() ==> pos <= node.children@[i].start_byte,
        pos <= node.end_byte,
    ensures
        chained(t, revealed_loop(t, node, i, pos).0, pos, revealed_loop(t, node, i, pos).1),
        pos <= revealed_loop(t, node, i, pos).1 <= node.end_byte,
    decreases node.children@.len() - i,
{
    if i < node.children@.len() {
        let c = node.children@[i];
        lemma_child_order(node, i);
        let cs = c.start_byte as int;
        let ce = c.end_byte as int;
        let gap = if pos < cs { seq![text_model(t, pos, cs, Style::plain())] } else { Seq::empty() };
        let me = text_model(t, cs, ce, or_plain(kind_style(c.kind@)));
        lemma_text_chained(t, pos, cs, Style::plain());
        lemma_gap_chained(t, pos, cs, gap, text_model(t, pos, cs, Style::plain()));
        lemma_text_chained(t, cs, ce, or_plain(kind_style(c.kind@)));
        lemma_revealed_loop(t, node, i + 1, ce);
        let rest = revealed_loop(t, node, i + 1, ce);
        lemma_chained_concat(t, gap, seq![me], pos, cs, ce);
        assert(gap.push(me) =~= gap + seq![me]);
        lemma_chained_concat(t, gap.push(me), rest.0, pos, ce, rest.1);
    } else {
        assert(chained(t, Seq::<SpanModel>::empty(), pos, pos));
    }
}

proof fn lemma_revealed(t: Seq<char>, node: SyntaxNode)
    requires
        node.nested(),
    ensures
        chained(t, revealed_spans(t, node), node.start_byte as int, node.end_byte as int),
{
    let ns = node.start_byte as int;
    let ne = node.end_byte as int;
    if node.children@.len() == 0 {
        lemma_text_chained(t, ns, ne, or_plain(kind_style(node.kind@)));
    } else {
        lemma_child_order(node, 0);
        lemma_revealed_loop(t, node, 0, ns);
        let (sp, pos) = revealed_loop(t, node, 0, ns);
        lemma_text_chained(t, pos, ne, Style::plain());
        let tail = if pos < ne { seq![text_model(t, pos, ne, Style::plain())] } else { Seq::<SpanModel>::empty() };
        lemma_gap_chained(t, pos, ne, tail, text_model(t, pos, ne, Style::plain()));
        lemma_chained_concat(t, sp, tail, ns, pos, ne);
    }
}

proof fn lemma_code_span_loop(t: Seq<char>, node: SyntaxNode, i: int, pos: int)
    requires
        node.nested(),
        0 <= i <= node.children@.len(),
        i < node.children@.len() ==> pos <= node.children@[i].start_byte,
        pos <= node.end_byte,
    ensures
        chained(t, code_span_loop(t, node, i, pos).0, pos, code_span_loop(t, node, i, pos).1),
        pos <= code_span_loop(t, node, i, pos).1 <= node.end_byte,
    decreases node.children@.len() - i,
{
    if i < node.children@.len() {
        let c = node.children@[i];
        lemma_child_order(node, i);
        let cs = c.start_byte as int;
        let ce = c.end_byte as int;
        let gap = if pos < cs { seq![text_model(t, pos, cs, code_style())] } else { Seq::empty() };
        let me = if c.kind@ == "code_span_delimiter"@ {
            hidden_model(t, cs, ce)
        } else {
            text_model(t, cs, ce, code_style())
        };
        lemma_text_chained(t, pos, cs, code_style());
        lemma_gap_chained(t, pos, cs, gap, text_model(t, pos, cs, code_style()));
        lemma_text_chained(t, cs, ce, code_style());
        lemma_hidden_chained(t, cs, ce);
        lemma_code_span_loop(t, node, i + 1, ce);
        let rest = code_span_loop(t, node, i + 1, ce);
        lemma_chained_concat(t, gap, seq![me], pos, cs, ce);
        assert(gap.push(me) =~= gap + seq![me]);
        lemma_chained_concat(t, gap.push(me), rest.0, pos, ce, rest.1);
    } else {
        assert(chained(t, Seq::<SpanModel>::empty(), pos, pos));
    }
}

proof fn lemma_link_loop(t: Seq<char>, node: SyntaxNode, i: int, pos: int)
    requires
        node.nested(),
        0 <= i <= node.children@.len(),
        i < node.children@.len() ==> pos <= node.children@[i].start_byte,
        pos <= node.end_byte,
    ensures
        chained(t, link_loop(t, node, i, pos).0, pos, link_loop(t, node, i, pos).1),
        pos <= link_loop(t, node, i, pos).1 <= node.end_byte,
    decreases node.children@.len() - i,
{
    if i < node.children@.len() {
        let c = node.children@[i];
        lemma_child_order(node, i);
        let cs = c.start_byte as int;
        let ce = c.end_byte as int;
        let gap = if pos < cs { seq![hidden_model(t, pos, cs)] } else { Seq::empty() };
        let me = if c.kind@ == "link_text"@ || c.kind@ == "image_description"@ {
            text_model(t, cs, ce, link_style())
        } else {
            hidden_model(t, cs, ce)
        };
        lemma_hidden_chained(t, pos, cs);
        lemma_gap_chained(t, pos, cs, gap, hidden_model(t, pos, cs));
        lemma_text_chained(t, cs, ce, link_style());
        lemma_hidden_chained(t, cs, ce);
        lemma_link_loop(t, node, i + 1, ce);
        let rest = link_loop(t, node, i + 1, ce);
        lemma_chained_concat(t, gap, seq![me], pos, cs, ce);
        assert(gap.push(me) =~= gap + seq![me]);
        lemma_chained_concat(t, gap.push(me), rest.0, pos, ce, rest.1);
    } else {
        assert(chained(t, Seq::<SpanModel>::empty(), pos, pos));
    }
}

proof fn lemma_concealed(t: Seq<char>, rv: Seq<(int, int)>, node: SyntaxNode, parent: Style)
    requires
        node.nested(),
    ensures
        chained(t, concealed_spans(t, rv, node, parent), node.start_byte as int, node.end_byte as int),
    decreases node, 2int,
{
    let ns = node.start_byte as int;
    let ne = node.end_byte as int;
    let k = node.kind@;
    if k == "emphasis"@ {
        lemma_emphasis(t, rv, node, parent.spec_patch(italic_style()));
    } else if k == "strong_emphasis"@ {
        lemma_emphasis(t, rv, node, parent.spec_patch(bold_style()));
    } else if k == "strikethrough"@ {
        lemma_emphasis(t, rv, node, parent.spec_patch(strike_style()));
    } else if k == "code_span"@ {
        if node.children@.len() == 0 {
            lemma_text_chained(t, ns, ne, code_style());
        } else {
            lemma_child_order(node, 0);
            lemma_code_span_loop(t, node, 0, ns);
            let (sp, pos) = code_span_loop(t, node, 0, ns);
            lemma_text_chained(t, pos, ne, code_style());
            let tail = if pos < ne { seq![text_model(t, pos, ne, code_style())] } else { Seq::<SpanModel>::empty() };
            lemma_gap_chained(t, pos, ne, tail, text_model(t, pos, ne, code_style()));
            lemma_chained_concat(t, sp, tail, ns, pos, ne);
        }
    } else if k == "inline_link"@ || k == "full_reference_link"@ || k == "collapsed_reference_link"@ || k == "image"@ {
        if node.children@.len() == 0 {
            lemma_text_chained(t, ns, ne, link_style());
        } else {
            lemma_child_order(node, 0);
            lemma_link_loop(t, node, 0, ns);
            let (sp, pos) = link_loop(t, node, 0, ns);
            lemma_hidden_chained(t, pos, ne);
            let tail = if pos < ne { seq![hidden_model(t, pos, ne)] } else { Seq::<SpanModel>::empty() };
            lemma_gap_chained(t, pos, ne, tail, hidden_model(t, pos, ne));
            lemma_chained_concat(t, sp, tail, ns, pos, ne);
        }
    } else {
        lemma_text_chained(t, ns, ne, parent);
    }
}

proof fn lemma_emphasis(t: Seq<char>, rv: Seq<(int, int)>, node: SyntaxNode, merged: Style)
    requires
        node.nested(),
    ensures
        chained(t, emphasis_spans(t, rv, node, merged), node.start_byte as int, node.end_byte as int),
    decreases node, 1int,
{
    let ns = node.start_byte as int;
    let ne = node.end_byte as int;
    if node.children@.len() == 0 {
        lemma_text_chained(t, ns, ne, merged);
    } else {
        lemma_child_order(node, 0);
        lemma_emphasis_loop(t, rv, node, merged, 0, ns);
        let (sp, pos) = emphasis_loop(t, rv, node, merged, 0, ns);
        lemma_text_chained(t, pos, ne, merged);
        let tail = if pos < ne { seq![text_model(t, pos, ne, merged)] } else { Seq::<SpanModel>::empty() };
        lemma_gap_chained(t, pos, ne, tail, text_model(t, pos, ne, merged));
        lemma_chained_concat(t, sp, tail, ns, pos, ne);
    }
}

proof fn lemma_emphasis_loop(t: Seq<char>, rv: Seq<(int, int)>, node: SyntaxNode, merged: Style, i: int, pos: int)
    requires
        node.nested(),
        0 <= i <= node.children@.len(),
        i < node.children@.len() ==> pos <= node.children@[i].start_byte,
        pos <= node.end_byte,
    ensures
        chained(t, emphasis_loop(t, rv, node, merged, i, pos).0, pos, emphasis_loop(t, rv, node, merged, i, pos).1),
        pos <= emphasis_loop(t, rv, node, merged, i, pos).1 <= node.end_byte,
    decreases node, 0int, node.children@.len() - i,
{
    if i < node.children@.len() {
        let c = node.children@[i];
        lemma_child_order(node, i);
        let cs = c.start_byte as int;
        let ce = c.end_byte as int;
        let gap = if pos < cs { seq![text_model(t, pos, cs, merged)] } else { Seq::empty() };
        let me = if c.kind@ == "emphasis_delimiter"@ {
            lemma_hidden_chained(t, cs, ce);
            seq![hidden_model(t, cs, ce)]
        } else if overlaps(rv, cs, ce) {
            lemma_revealed(t, c);
            revealed_spans(t, c)
        } else {
            lemma_concealed(t, rv, c, merged);
            concealed_spans(t, rv, c, merged)
        };
        lemma_text_chained(t, pos, cs, merged);
        lemma_gap_chained(t, pos, cs, gap, text_model(t, pos, cs, merged));
        lemma_emphasis_loop(t, rv, node, merged, i + 1, ce);
        let rest = emphasis_loop(t, rv, node, merged, i + 1, ce);
        lemma_chained_concat(t, gap, me, pos, cs, ce);
        lemma_chained_concat(t, gap + me, rest.0, pos, ce, rest.1);
    } else {
        assert(chained(t, Seq::<SpanModel>::empty(), pos, pos));
    }
}

/// No child of `node` runs across the edge of the line `ls..le`: each lies
/// inside the line or wholly before or after it.
pub open spec fn children_within_line(node: SyntaxNode, ls: int, le: int) -> bool {
    forall|i: int|
        0 <= i < node.children@.len() ==> {
            let c = #[trigger] node.children@[i];
            c.end_byte <= ls || c.start_byte >= le || (ls <= c.start_byte && c.end_byte <= le)
        }
}

proof fn lemma_inline_loop(
    t: Seq<char>,
    rv: Seq<(int, int)>,
    node: SyntaxNode,
    ls: int,
    le: int,
    parent: Style,
    i: int,
    pos: int,
)
    requires
        node.nested(),
        children_within_line(node, ls, le),
        0 <= i <= node.children@.len(),
        forall|j: int|
            i <= j < node.children@.len() && (#[trigger] node.children@[j]).end_byte > ls ==> pos
                <= node.children@[j].start_byte,
        pos <= node.end_byte,
        pos <= le,
    ensures
        ({
            let r = inline_loop(t, rv, node, ls, le, parent, i, pos);
            &&& chained(t, r.0, pos, r.1)
            &&& pos <= r.1 <= node.end_byte
            &&& r.1 <= le
        }),
    decreases node.children@.len() - i,
{
    if i < node.children@.len() {
        let c = node.children@[i];
        lemma_child_order(node, i);
        let cs = c.start_byte as int;
        let ce = c.end_byte as int;
        if ce <= ls {
            lemma_inline_loop(t, rv, node, ls, le, parent, i + 1, pos);
        } else if cs >= le {
            assert(chained(t, Seq::<SpanModel>::empty(), pos, pos));
        } else {
            assert(ls <= cs && ce <= le);
            let gap = if pos < cs { seq![text_model(t, pos, cs, parent)] } else { Seq::empty() };
            let me = if overlaps(rv, cs, ce) {
                lemma_revealed(t, c);
                revealed_spans(t, c)
            } else {
                lemma_concealed(t, rv, c, parent);
                concealed_spans(t, rv, c, parent)
            };
            lemma_text_chained(t, pos, cs, parent);
            lemma_gap_chained(t, pos, cs, gap, text_model(t, pos, cs, parent));
            assert forall|j: int|
                i + 1 <= j < node.children@.len() && (#[trigger] node.children@[j]).end_byte > ls implies ce
                    <= node.children@[j].start_byte by {
                assert(node.children@[i].end_byte <= node.children@[j].start_byte);
            }
            lemma_inline_loop(t, rv, node, ls, le, parent, i + 1, ce);
            let rest = inline_loop(t, rv, node, ls, le, parent, i + 1, ce);
            lemma_chained_concat(t, gap, me, pos, cs, ce);
            lemma_chained_concat(t, gap + me, rest.0, pos, ce, rest.1);
        }
    } else {
        assert(chained(t, Seq::<SpanModel>::empty(), pos, pos));
    }
}

proof fn lemma_emphasis_loop_marks(
    t: Seq<char>,
    rv: Seq<(int, int)>,
    node: SyntaxNode,
    merged: Style,
    i: int,
    pos: int,
)
    requires
        0 <= i,
    ensures
        forall|j: int|
            i <= j < node.children@.len() && (#[trigger] node.children@[j]).kind@ == "emphasis_delimiter"@
                ==> emphasis_loop(t, rv, node, merged, i, pos).0.contains(
                hidden_model(t, node.children@[j].start_byte as int, node.children@[j].end_byte as int),
            ),
        (forall|j: int| i <= j < node.children@.len() ==> (#[trigger] node.children@[j]).kind@ == "emphasis_delimiter"@)
            ==> forall|k: int|
            0 <= k < emphasis_loop(t, rv, node, merged, i, pos).0.len() ==> (#[trigger] emphasis_loop(
                t,
                rv,
                node,
                merged,
                i,
                pos,
            ).0[k]).text.len() == 0 || emphasis_loop(t, rv, node, merged, i, pos).0[k].style == merged,
    decreases node.children@.len() - i,
{
    if i < node.children@.len() {
        let c = node.children@[i];
        let gap: Seq<SpanModel> = if pos < c.start_byte { seq![text_model(t, pos, c.start_byte as int, merged)] } else { Seq::empty() };
        let me = if c.kind@ == "emphasis_delimiter"@ {
            seq![hidden_model(t, c.start_byte as int, c.end_byte as int)]
        } else if overlaps(rv, c.start_byte as int, c.end_byte as int) {
            revealed_spans(t, c)
        } else {
            concealed_spans(t, rv, c, merged)
        };
        lemma_emphasis_loop_marks(t, rv, node, merged, i + 1, c.end_byte as int);
        let rest = emphasis_loop(t, rv, node, merged, i + 1, c.end_byte as int);
        let sp = emphasis_loop(t, rv, node, merged, i, pos).0;
        assert(sp == gap + me + rest.0);
        assert forall|j: int|
            i <= j < node.children@.len() && (#[trigger] node.children@[j]).kind@ == "emphasis_delimiter"@
                implies sp.contains(hidden_model(t, node.children@[j].start_byte as int, node.children@[j].end_byte as int)) by {
            let h = hidden_model(t, node.children@[j].start_byte as int, node.children@[j].end_byte as int);
            if j == i {
                assert(sp[gap.len() as int] == h);
            } else {
                let k = choose|k: int| 0 <= k < rest.0.len() && rest.0[k] == h;
                assert(sp[gap.len() + me.len() + k] == h);
            }
        }
        if forall|j: int| i <= j < node.children@.len() ==> (#[trigger] node.children@[j]).kind@ == "emphasis_delimiter"@ {
            assert(c.kind@ == "emphasis_delimiter"@);
            assert forall|k: int| 0 <= k < sp.len() implies (#[trigger] sp[k]).text.len() == 0 || sp[k].style == merged by {
                if k >= gap.len() + me.len() {
                    assert(sp[k] == rest.0[k - gap.len() - me.len()]);
                } else if k >= gap.len() {
                    assert(sp[k] == me[k - gap.len()]);
                } else {
                    assert(sp[k] == gap[k]);
                }
            }
        }
    }
}

proof fn lemma_code_span_loop_marks(t: Seq<char>, node: SyntaxNode, i: int, pos: int)
    requires
        0 <= i,
    ensures
        forall|j: int|
            i <= j < node.children@.len() && (#[trigger] node.children@[j]).kind@ == "code_span_delimiter"@
                ==> code_span_loop(t, node, i, pos).0.contains(
                hidden_model(t, node.children@[j].start_byte as int, node.children@[j].end_byte as int),
            ),
        forall|k: int|
            0 <= k < code_span_loop(t, node, i, pos).0.len() ==> (#[trigger] code_span_loop(t, node, i, pos).0[k]).text.len()
                == 0 || code_span_loop(t, node, i, pos).0[k].style == code_style(),
    decreases node.children@.len() - i,
{
    if i < node.children@.len() {
        let c = node.children@[i];
        let gap: Seq<SpanModel> = if pos < c.start_byte { seq![text_model(t, pos, c.start_byte as int, code_style())] } else { Seq::empty() };
        let me = if c.kind@ == "code_span_delimiter"@ {
            hidden_model(t, c.start_byte as int, c.end_byte as int)
        } else {
            text_model(t, c.start_byte as int, c.end_byte as int, code_style())
        };
        lemma_code_span_loop_marks(t, node, i + 1, c.end_byte as int);
        let rest = code_span_loop(t, node, i + 1, c.end_byte as int);
        let sp = code_span_loop(t, node, i, pos).0;
        assert(sp == gap.push(me) + rest.0);
        assert forall|j: int|
            i <= j < node.children@.len() && (#[trigger] node.children@[j]).kind@ == "code_span_delimiter"@
                implies sp.contains(hidden_model(t, node.children@[j].start_byte as int, node.children@[j].end_byte as int)) by {
            let h = hidden_model(t, node.children@[j].start_byte as int, node.children@[j].end_byte as int);
            if j == i {
                assert(sp[gap.len() as int] == h);
            } else {
                let k = choose|k: int| 0 <= k < rest.0.len() && rest.0[k] == h;
                assert(sp[gap.len() + 1 + k] == h);
            }
        }
        assert forall|k: int| 0 <= k < sp.len() implies (#[trigger] sp[k]).text.len() == 0 || sp[k].style == code_style() by {
            if k > gap.len() {
                assert(sp[k] == rest.0[k - gap.len() - 1]);
            } else if k == gap.len() {
                assert(sp[k] == me);
            } else {
                assert(sp[k] == gap[k]);
            }
        }
    }
}

/// A span that stands for exactly the bytes of a child of `node` that is
/// its link text or image description.
pub open spec fn is_link_text_span(node: SyntaxNode, x: SpanModel) -> bool {
    exists|j: int|
        0 <= j < node.children@.len() && ((#[trigger] node.children@[j]).kind@ == "link_text"@
            || node.children@[j].kind@ == "image_description"@) && x.start == node.children@[j].start_byte
            && x.end == node.children@[j].end_byte
}

proof fn lemma_link_loop_marks(t: Seq<char>, node: SyntaxNode, i: int, pos: int)
    requires
        0 <= i,
    ensures
        forall|k: int|
            0 <= k < link_loop(t, node, i, pos).0.len() ==> (#[trigger] link_loop(t, node, i, pos).0[k]).text.len() == 0
                || (link_loop(t, node, i, pos).0[k].style == link_style() && is_link_text_span(
                node,
                link_loop(t, node, i, pos).0[k],
            )),
    decreases node.children@.len() - i,
{
    if i < node.children@.len() {
        let c = node.children@[i];
        let gap: Seq<SpanModel> = if pos < c.start_byte { seq![hidden_model(t, pos, c.start_byte as int)] } else { Seq::empty() };
        let me = if c.kind@ == "link_text"@ || c.kind@ == "image_description"@ {
            text_model(t, c.start_byte as int, c.end_byte as int, link_style())
        } else {
            hidden_model(t, c.start_byte as int, c.end_byte as int)
        };
        lemma_link_loop_marks(t, node, i + 1, c.end_byte as int);
        let rest = link_loop(t, node, i + 1, c.end_byte as int);
        let sp = link_loop(t, node, i, pos).0;
        assert(sp == gap.push(me) + rest.0);
        assert forall|k: int| 0 <= k < sp.len() implies (#[trigger] sp[k]).text.len() == 0 || (sp[k].style
            == link_style() && is_link_text_span(node, sp[k])) by {
            if k > gap.len() {
                assert(sp[k] == rest.0[k - gap.len() - 1]);
            } else if k == gap.len() {
                assert(sp[k] == me);
                if me.text.len() != 0 {
                    assert(node.children@[i] == c);
                }
            } else {
                assert(sp[k] == gap[k]);
            }
        }
    }
}

/// Concealed inline markup is hidden and its content styled: the
/// delimiters of emphasis, strong emphasis, strikethrough and code spans
/// show as spans with no text for exactly their bytes; the text of an
/// emphasis made of delimiters and text is italic, of strong emphasis
/// bold, of strikethrough crossed out, of a code span on the dark code
/// background; and a link or image with parts shows only its link text
/// or image description, blue and underlined, every other part (the
/// brackets, the URL, the title) hidden.
pub proof fn law_concealed_inline_markup(t: Seq<char>, rv: Seq<(int, int)>, node: SyntaxNode, parent: Style)
    ensures
        ({
            let k = node.kind@;
            let sp = concealed_spans(t, rv, node, parent);
            let only_delims = forall|j: int|
                0 <= j < node.children@.len() ==> (#[trigger] node.children@[j]).kind@ == "emphasis_delimiter"@;
            &&& (k == "emphasis"@ || k == "strong_emphasis"@ || k == "strikethrough"@) ==> forall|j: int|
                0 <= j < node.children@.len() && (#[trigger] node.children@[j]).kind@ == "emphasis_delimiter"@
                    ==> sp.contains(hidden_model(t, node.children@[j].start_byte as int, node.children@[j].end_byte as int))
            &&& k == "emphasis"@ && only_delims ==> forall|i: int|
                0 <= i < sp.len() ==> (#[trigger] sp[i]).text.len() == 0 || sp[i].style.add_modifier.italic
            &&& k == "strong_emphasis"@ && only_delims ==> forall|i: int|
                0 <= i < sp.len() ==> (#[trigger] sp[i]).text.len() == 0 || sp[i].style.add_modifier.bold
            &&& k == "strikethrough"@ && only_delims ==> forall|i: int|
                0 <= i < sp.len() ==> (#[trigger] sp[i]).text.len() == 0 || sp[i].style.add_modifier.crossed_out
            &&& k == "code_span"@ ==> (forall|j: int|
                0 <= j < node.children@.len() && (#[trigger] node.children@[j]).kind@ == "code_span_delimiter"@
                    ==> sp.contains(hidden_model(t, node.children@[j].start_byte as int, node.children@[j].end_byte as int)))
                && forall|i: int|
                0 <= i < sp.len() ==> (#[trigger] sp[i]).text.len() == 0 || sp[i].style.bg == Some(Color::Indexed(236))
            &&& (k == "inline_link"@ || k == "full_reference_link"@ || k == "collapsed_reference_link"@ || k
                == "image"@) && node.children@.len() > 0 ==> forall|i: int|
                0 <= i < sp.len() ==> (#[trigger] sp[i]).text.len() == 0 || (is_link_text_span(node, sp[i])
                    && sp[i].style.fg == Some(Color::Blue) && sp[i].style.add_modifier.underlined)
        }),
{
    reveal_strlit("emphasis");
    reveal_strlit("strong_emphasis");
    reveal_strlit("strikethrough");
    reveal_strlit("code_span");
    reveal_strlit("inline_link");
    reveal_strlit("full_reference_link");
    reveal_strlit("collapsed_reference_link");
    reveal_strlit("image");
    assert("emphasis"@.len() == 8);
    assert("strong_emphasis"@.len() == 15);
    assert("strikethrough"@.len() == 13);
    assert("code_span"@.len() == 9);
    assert("inline_link"@.len() == 11);
    assert("full_reference_link"@.len() == 19);
    assert("collapsed_reference_link"@.len() == 24);
    assert("image"@.len() == 5);
    let k = node.kind@;
    let sp = concealed_spans(t, rv, node, parent);
    if k == "emphasis"@ || k == "strong_emphasis"@ || k == "strikethrough"@ {
        let merged = if k == "emphasis"@ {
            parent.spec_patch(italic_style())
        } else if k == "strong_emphasis"@ {
            parent.spec_patch(bold_style())
        } else {
            parent.spec_patch(strike_style())
        };
        lemma_emphasis_spans_marks(t, rv, node, merged);
        assert(sp == emphasis_spans(t, rv, node, merged));
        assert(k == "emphasis"@ ==> merged.add_modifier.italic);
        assert(k == "strong_emphasis"@ ==> merged.add_modifier.bold);
        assert(k == "strikethrough"@ ==> merged.add_modifier.crossed_out);
    } else if k == "code_span"@ {
        lemma_code_span_spans_marks(t, node);
        assert(sp == code_span_spans(t, node));
    } else if k == "inline_link"@ || k == "full_reference_link"@ || k == "collapsed_reference_link"@ || k == "image"@ {
        lemma_link_spans_marks(t, node);
        assert(sp == link_spans(t, node));
    }
}

proof fn lemma_emphasis_spans_marks(t: Seq<char>, rv: Seq<(int, int)>, node: SyntaxNode, merged: Style)
    ensures
        ({
            let sp = emphasis_spans(t, rv, node, merged);
            &&& forall|j: int|
                0 <= j < node.children@.len() && (#[trigger] node.children@[j]).kind@ == "emphasis_delimiter"@
                    ==> sp.contains(hidden_model(t, node.children@[j].start_byte as int, node.children@[j].end_byte as int))
            &&& (forall|j: int| 0 <= j < node.children@.len() ==> (#[trigger] node.children@[j]).kind@ == "emphasis_delimiter"@)
                ==> forall|i: int| 0 <= i < sp.len() ==> (#[trigger] sp[i]).text.len() == 0 || sp[i].style == merged
        }),
{
    let sp = emphasis_spans(t, rv, node, merged);
    if node.children@.len() > 0 {
        lemma_emphasis_loop_marks(t, rv, node, merged, 0, node.start_byte as int);
        let (l, pos) = emphasis_loop(t, rv, node, merged, 0, node.start_byte as int);
        let tail: Seq<SpanModel> = if pos < node.end_byte { seq![text_model(t, pos, node.end_byte as int, merged)] } else { Seq::empty() };
        assert(sp == l + tail);
        assert forall|j: int|
            0 <= j < node.children@.len() && (#[trigger] node.children@[j]).kind@ == "emphasis_delimiter"@
                implies sp.contains(hidden_model(t, node.children@[j].start_byte as int, node.children@[j].end_byte as int)) by {
            let h = hidden_model(t, node.children@[j].start_byte as int, node.children@[j].end_byte as int);
            let m = choose|m: int| 0 <= m < l.len() && l[m] == h;
            assert(sp[m] == h);
        }
        if forall|j: int| 0 <= j < node.children@.len() ==> (#[trigger] node.children@[j]).kind@ == "emphasis_delimiter"@ {
            assert forall|i: int| 0 <= i < sp.len() implies (#[trigger] sp[i]).text.len() == 0 || sp[i].style == merged by {
                if i >= l.len() {
                    assert(sp[i] == tail[i - l.len()]);
                } else {
                    assert(sp[i] == l[i]);
                }
            }
        }
    }
}

proof fn lemma_code_span_spans_marks(t: Seq<char>, node: SyntaxNode)
    ensures
        ({
            let sp = code_span_spans(t, node);
            &&& forall|j: int|
                0 <= j < node.children@.len() && (#[trigger] node.children@[j]).kind@ == "code_span_delimiter"@
                    ==> sp.contains(hidden_model(t, node.children@[j].start_byte as int, node.children@[j].end_byte as int))
            &&& forall|i: int| 0 <= i < sp.len() ==> (#[trigger] sp[i]).text.len() == 0 || sp[i].style == code_style()
        }),
{
    let sp = code_span_spans(t, node);
    if node.children@.len() > 0 {
        lemma_code_span_loop_marks(t, node, 0, node.start_byte as int);
        let (l, pos) = code_span_loop(t, node, 0, node.start_byte as int);
        let tail: Seq<SpanModel> = if pos < node.end_byte { seq![text_model(t, pos, node.end_byte as int, code_style())] } else { Seq::empty() };
        assert(sp == l + tail);
        assert forall|j: int|
            0 <= j < node.children@.len() && (#[trigger] node.children@[j]).kind@ == "code_span_delimiter"@
                implies sp.contains(hidden_model(t, node.children@[j].start_byte as int, node.children@[j].end_byte as int)) by {
            let h = hidden_model(t, node.children@[j].start_byte as int, node.children@[j].end_byte as int);
            let m = choose|m: int| 0 <= m < l.len() && l[m] == h;
            assert(sp[m] == h);
        }
        assert forall|i: int| 0 <= i < sp.len() implies (#[trigger] sp[i]).text.len() == 0 || sp[i].style == code_style() by {
            if i >= l.len() {
                assert(sp[i] == tail[i - l.len()]);
            } else {
                assert(sp[i] == l[i]);
            }
        }
    }
}

proof fn lemma_link_spans_marks(t: Seq<char>, node: SyntaxNode)
    ensures
        node.children@.len() > 0 ==> forall|i: int|
            0 <= i < link_spans(t, node).len() ==> (#[trigger] link_spans(t, node)[i]).text.len() == 0 || (
            is_link_text_span(node, link_spans(t, node)[i]) && link_spans(t, node)[i].style == link_style()),
{
    let sp = link_spans(t, node);
    if node.children@.len() > 0 {
        lemma_link_loop_marks(t, node, 0, node.start_byte as int);
        let (l, pos) = link_loop(t, node, 0, node.start_byte as int);
        let tail: Seq<SpanModel> = if pos < node.end_byte { seq![hidden_model(t, pos, node.end_byte as int)] } else { Seq::empty() };
        assert(sp == l + tail);
        assert forall|i: int| 0 <= i < sp.len() implies (#[trigger] sp[i]).text.len() == 0 || (is_link_text_span(node, sp[i])
            && sp[i].style == link_style()) by {
            if i >= l.len() {
                assert(sp[i] == tail[i - l.len()]);
            } else {
                assert(sp[i] == l[i]);
            }
        }
    }
}

/// Rendering a line of inline markdown accounts for every raw char of the
/// line, whatever it hides: the spans stand for the line's part of the
/// node one after another, with no byte left out or counted twice, and
/// their raw char counts add up to the chars of that part. This holds
/// where the tree is nested and no construct runs across the edge of the
/// line.
pub proof fn law_inline_covers_line(
    t: Seq<char>,
    rv: Seq<(int, int)>,
    node: SyntaxNode,
    ls: int,
    le: int,
    parent: Style,
)
    requires
        node.nested(),
        children_within_line(node, ls, le),
    ensures
        ({
            let s = if node.start_byte > ls { node.start_byte as int } else { ls };
            let e = if node.end_byte < le { node.end_byte as int } else { le };
            let spans = inline_spans(t, rv, node, ls, le, parent);
            &&& s < e ==> chained(t, spans, s, e)
            &&& s < e ==> model_chars(spans) == char_holding_byte(t, e) - char_holding_byte(t, s)
            &&& s >= e ==> spans.len() == 0
        }),
{
    let s = if node.start_byte > ls { node.start_byte as int } else { ls };
    let e = if node.end_byte < le { node.end_byte as int } else { le };
    if s < e {
        assert forall|j: int|
            0 <= j < node.children@.len() && (#[trigger] node.children@[j]).end_byte > ls implies s
                <= node.children@[j].start_byte by {
            lemma_child_order(node, j);
        }
        lemma_inline_loop(t, rv, node, ls, le, parent, 0, s);
        let (sp, pos) = inline_loop(t, rv, node, ls, le, parent, 0, s);
        lemma_text_chained(t, pos, e, parent);
        let tail = if pos < e { seq![text_model(t, pos, e, parent)] } else { Seq::<SpanModel>::empty() };
        lemma_gap_chained(t, pos, e, tail, text_model(t, pos, e, parent));
        lemma_chained_concat(t, sp, tail, s, pos, e);
        lemma_chained_chars(t, inline_spans(t, rv, node, ls, le, parent), s, e);
    }
}

} // verus!
