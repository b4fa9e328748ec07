//! Spans as plain values, and the spans that show or hide buffer text.
use vstd::prelude::*;
use std::ops::Range;

use crate::editor::buffer::{char_holding_byte, Buffer};
use crate::editor::text::byte_len;
use crate::render::plan::RenderSpan;
use crate::style::Style;

verus! {

/// A render span as plain values.
pub ghost struct SpanModel {
    pub text: Seq<char>,
    pub style: Style,
    pub start: int,
    pub end: int,
    pub chars: int,
    pub decoration: bool,
}

impl RenderSpan {
    pub open spec fn model(self) -> SpanModel {
        SpanModel {
            text: self.display_text@,
            style: self.style,
            start: self.raw_byte_range.start as int,
            end: self.raw_byte_range.end as int,
            chars: self.raw_char_count as int,
            decoration: self.is_decoration,
        }
    }
}

pub open spec fn span_models(v: Seq<RenderSpan>) -> Seq<SpanModel> {
    v.map_values(|s: RenderSpan| s.model())
}

/// The span that shows bytes `s..e` of `t` in `style`.
pub open spec fn text_model(t: Seq<char>, s: int, e: int, style: Style) -> SpanModel {
    let a = char_holding_byte(t, s);
    let b = char_holding_byte(t, e);
    SpanModel { text: t.subrange(a, b), style, start: s, end: e, chars: b - a, decoration: false }
}

/// The span that hides bytes `s..e` of `t`: it shows nothing.
pub open spec fn hidden_model(t: Seq<char>, s: int, e: int) -> SpanModel {
    SpanModel {
        text: Seq::empty(),
        style: Style::plain(),
        start: s,
        end: e,
        chars: char_holding_byte(t, e) - char_holding_byte(t, s),
        decoration: false,
    }
}

/// The span that stands for bytes `s..e` of `t` and shows `shown` instead.
pub open spec fn replaced_model(t: Seq<char>, s: int, e: int, shown: Seq<char>, style: Style) -> SpanModel {
    SpanModel {
        text: shown,
        style,
        start: s,
        end: e,
        chars: char_holding_byte(t, e) - char_holding_byte(t, s),
        decoration: false,
    }
}

/// A decoration: text shown that stands for no buffer text.
pub open spec fn decoration_model(shown: Seq<char>, style: Style) -> SpanModel {
    SpanModel { text: shown, style, start: 0, end: 0, chars: 0, decoration: true }
}

/// `models` stand for bytes `s..e` of `t` one after another: each takes
/// up where the one before it ended and counts the raw chars of its own
/// range.
pub open spec fn chained(t: Seq<char>, models: Seq<SpanModel>, s: int, e: int) -> bool
    decreases models.len(),
{
    if models.len() == 0 {
        s == e
    } else {
        let m = models[0];
        &&& !m.decoration
        &&& m.start == s
        &&& m.chars == char_holding_byte(t, m.end) - char_holding_byte(t, s)
        &&& chained(t, models.drop_first(), m.end, e)
    }
}

/// Raw chars counted by the spans that stand for buffer text.
pub open spec fn model_chars(models: Seq<SpanModel>) -> int
    decreases models.len(),
{
    if models.len() == 0 {
        0
    } else {
        (if models[0].decoration { 0 } else { models[0].chars }) + model_chars(models.drop_first())
    }
}

pub proof fn lemma_chained_concat(t: Seq<char>, a: Seq<SpanModel>, b: Seq<SpanModel>, s: int, m: int, e: int)
    requires
        chained(t, a, s, m),
        chained(t, b, m, e),
    ensures
        chained(t, a + b, s, e),
        model_chars(a + b) == model_chars(a) + model_chars(b),
    decreases a.len(),
{
    if a.len() == 0 {
        assert(a + b =~= b);
    } else {
        lemma_chained_concat(t, a.drop_first(), b, a[0].end, m, e);
        assert((a + b).drop_first() =~= a.drop_first() + b);
    }
}

pub proof fn lemma_chained_chars(t: Seq<char>, models: Seq<SpanModel>, s: int, e: int)
    requires
        chained(t, models, s, e),
    ensures
        model_chars(models) == char_holding_byte(t, e) - char_holding_byte(t, s),
    decreases models.len(),
{
    if models.len() > 0 {
        lemma_chained_chars(t, models.drop_first(), models[0].end, e);
    }
}

pub proof fn lemma_chained_one(t: Seq<char>, m: SpanModel)
    requires
        !m.decoration,
        m.chars == char_holding_byte(t, m.end) - char_holding_byte(t, m.start),
    ensures
        chained(t, seq![m], m.start, m.end),
{
    assert(seq![m].drop_first() =~= Seq::<SpanModel>::empty());
    assert(chained(t, Seq::<SpanModel>::empty(), m.end, m.end));
    assert(seq![m][0] == m);
}

/// A span showing bytes `start..end` of the buffer in `style`.
pub fn text_span(start: usize, end: usize, buffer: &Buffer, style: Style) -> (sp: RenderSpan)
    requires
        start <= end <= byte_len(buffer@),
    ensures
        sp.model() == text_model(buffer@, start as int, end as int, style),
{
    let text = buffer.text_for_byte_range(start, end);
    let char_count = buffer.char_count_for_byte_range(start, end);
    RenderSpan { display_text: text, style, raw_byte_range: Range { start, end }, raw_char_count: char_count, is_decoration: false }
}

/// A span hiding bytes `start..end` of the buffer.
pub fn hidden_span(start: usize, end: usize, buffer: &Buffer) -> (sp: RenderSpan)
    requires
        start <= end <= byte_len(buffer@),
    ensures
        sp.model() == hidden_model(buffer@, start as int, end as int),
{
    let char_count = buffer.char_count_for_byte_range(start, end);
    RenderSpan {
        display_text: String::new(),
        style: Style::new(),
        raw_byte_range: Range { start, end },
        raw_char_count: char_count,
        is_decoration: false,
    }
}

/// A span standing for bytes `start..end` of the buffer and showing
/// `shown` in `style`.
pub fn replaced_span(start: usize, end: usize, buffer: &Buffer, shown: String, style: Style) -> (sp: RenderSpan)
    requires
        start <= end <= byte_len(buffer@),
    ensures
        sp.model() == replaced_model(buffer@, start as int, end as int, shown@, style),
{
    let char_count = buffer.char_count_for_byte_range(start, end);
    RenderSpan { display_text: shown, style, raw_byte_range: Range { start, end }, raw_char_count: char_count, is_decoration: false }
}

/// Appends a span.
pub fn emit(spans: &mut Vec<RenderSpan>, sp: RenderSpan)
    ensures
        span_models(final(spans)@) == span_models(old(spans)@).push(sp.model()),
{
    spans.push(sp);
    assert(span_models(spans@) =~= span_models(old(spans)@).push(sp.model()));
}

} // verus!
