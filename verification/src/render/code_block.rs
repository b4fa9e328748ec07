//! Fenced code blocks: boxed with their language, contents highlighted.
use vstd::prelude::*;
use syntect::easy::HighlightLines;
use syntect::highlighting::{FontStyle, ThemeSet};
use syntect::parsing::SyntaxSet;

use crate::chars::{char_width, same_text, string_pop, string_push, unicode_char_width};
use crate::render::block::repeat_char;
use crate::render::table::{find_node_on_path, find_on_path, lemma_found_fits};
use crate::editor::buffer::Buffer;
use crate::editor::text::byte_len;
use crate::markdown::reveal_set::{overlaps, RevealSet};
use crate::markdown::syntax::SyntaxNode;
use crate::render::plan::RenderSpan;
use crate::render::spans::{decoration_model, emit, replaced_model, replaced_span, span_models, text_model, text_span, SpanModel};
use crate::style::{Color, Modifier, Style};

verus! {

#[verifier::external_type_specification]
#[verifier::external_body]
pub struct ExSyntaxSet(SyntaxSet);

#[verifier::external_type_specification]
#[verifier::external_body]
pub struct ExThemeSet(ThemeSet);

/// The grammars and the color theme code is highlighted with.
pub struct CodeHighlighter {
    syntaxes: SyntaxSet,
    themes: ThemeSet,
    /// Set where the sets are `syntect`'s defaults, which only
    /// `CodeHighlighter::new` loads.
    defaults: Ghost<bool>,
}

/// A highlighted piece of a code line with `syntect`'s style as plain
/// values.
#[derive(Debug)]
pub struct RawToken {
    pub text: String,
    pub red: u8,
    pub green: u8,
    pub blue: u8,
    pub bold: bool,
    pub italic: bool,
    pub underline: bool,
}

/// A code token as plain values.
pub ghost struct TokenModel {
    pub text: Seq<char>,
    pub red: u8,
    pub green: u8,
    pub blue: u8,
    pub bold: bool,
    pub italic: bool,
    pub underline: bool,
}

impl RawToken {
    pub open spec fn model(self) -> TokenModel {
        TokenModel {
            text: self.text@,
            red: self.red,
            green: self.green,
            blue: self.blue,
            bold: self.bold,
            italic: self.italic,
            underline: self.underline,
        }
    }
}

pub open spec fn token_models(v: Seq<RawToken>) -> Seq<TokenModel> {
    v.map_values(|x: RawToken| x.model())
}

pub open spec fn line_token_models(v: Seq<Vec<RawToken>>) -> Seq<Seq<TokenModel>> {
    v.map_values(|x: Vec<RawToken>| token_models(x@))
}

pub open spec fn views(v: Seq<String>) -> Seq<Seq<char>> {
    v.map_values(|s: String| s@)
}

/// The texts of `tokens`, one after another.
pub open spec fn joined(tokens: Seq<TokenModel>) -> Seq<char>
    decreases tokens.len(),
{
    if tokens.len() == 0 {
        Seq::empty()
    } else {
        joined(tokens.drop_last()) + tokens.last().text
    }
}

/// The tokens `syntect` gives `lines` (each ending in its line feed but the
/// last) in the language `lang` with the default grammars and the default
/// theme named `theme`; `None` where no grammar has that name or
/// extension, there is no such theme, or a line fails to parse.
pub uninterp spec fn code_tokens(lang: Seq<char>, theme: Seq<char>, lines: Seq<Seq<char>>) -> Option<Seq<Seq<TokenModel>>>;

/// The theme code blocks are highlighted with.
pub open spec fn code_theme() -> Seq<char> {
    "base16-eighties.dark"@
}

/// The name of the theme code blocks are highlighted with.
fn code_theme_name() -> (s: &'static str)
    ensures
        s@ == code_theme(),
{
    "base16-eighties.dark"
}

/// Calls `SyntaxSet::load_defaults_newlines`: `syntect`'s default
/// grammars, for lines that end in a line feed.
#[verifier::external_body]
fn load_default_syntaxes() -> SyntaxSet {
    SyntaxSet::load_defaults_newlines()
}

/// Calls `ThemeSet::load_defaults`: `syntect`'s default themes.
#[verifier::external_body]
fn load_default_themes() -> ThemeSet {
    ThemeSet::load_defaults()
}

/// Highlights `lines` with `HighlightLines` (`SyntaxSet::find_syntax_by_token`
/// for the grammar, the theme `theme` of the loaded themes); the result is
/// named by `code_tokens`. As the
/// documentation of `HighlightIterator` says, the tokens of a line make up
/// the line.
#[verifier::external_body]
fn highlight_raw(h: &CodeHighlighter, lang: &str, theme: &str, lines: &Vec<String>) -> (r: Option<Vec<Vec<RawToken>>>)
    requires
        h.has_defaults(),
    ensures
        r matches Some(v) ==> code_tokens(lang@, theme@, views(lines@)) == Some(line_token_models(v@)),
        r is None ==> code_tokens(lang@, theme@, views(lines@)) is None,
        r matches Some(v) ==> v@.len() == lines@.len()
            && forall|k: int| 0 <= k < v@.len() ==> joined(#[trigger] token_models(v@[k]@)) == lines@[k]@,
{
    let syntax = h.syntaxes.find_syntax_by_token(lang)?;
    let mut hl = HighlightLines::new(syntax, h.themes.themes.get(theme)?);
    let mut out = Vec::new();
    for line in lines {
        let pieces = hl.highlight_line(line, &h.syntaxes).ok()?;
        out.push(pieces.into_iter().map(|(s, t)| RawToken {
            text: t.to_string(), red: s.foreground.r, green: s.foreground.g, blue: s.foreground.b,
            bold: s.font_style.contains(FontStyle::BOLD), italic: s.font_style.contains(FontStyle::ITALIC),
            underline: s.font_style.contains(FontStyle::UNDERLINE),
        }).collect());
    }
    Some(out)
}

impl CodeHighlighter {
    #[verifier::type_invariant]
    spec fn inv(self) -> bool {
        self.defaults@
    }

    /// The highlighter holds `syntect`'s default grammars (for lines that
    /// end in a line feed) and default themes, which `code_tokens` is
    /// stated for.
    pub closed spec fn has_defaults(&self) -> bool {
        self.defaults@
    }

    /// The default grammars and themes.
    pub fn new() -> (h: CodeHighlighter)
        ensures
            h.has_defaults(),
    {
        CodeHighlighter { syntaxes: load_default_syntaxes(), themes: load_default_themes(), defaults: Ghost(true) }
    }
}

/// The style of a token: its foreground color and its bold, italic and
/// underline; the background is left to the caller.
pub open spec fn token_style(tok: TokenModel) -> Style {
    let s0 = Style { fg: Some(Color::Rgb(tok.red, tok.green, tok.blue)), ..Style::plain() };
    let s1 = if tok.bold { s0.spec_add_modifier(Modifier { bold: true, ..Modifier::none() }) } else { s0 };
    let s2 = if tok.italic { s1.spec_add_modifier(Modifier { italic: true, ..Modifier::none() }) } else { s1 };
    if tok.underline { s2.spec_add_modifier(Modifier { underlined: true, ..Modifier::none() }) } else { s2 }
}

/// Converts a token's `syntect` style to a terminal style.
pub fn syntect_to_ratatui(tok: &RawToken) -> (s: Style)
    ensures
        s == token_style(tok.model()),
{
    let mut s = Style::new().fg(Color::Rgb(tok.red, tok.green, tok.blue));
    if tok.bold {
        s = s.add_modifier(Modifier::bold());
    }
    if tok.italic {
        s = s.add_modifier(Modifier::italic());
    }
    if tok.underline {
        s = s.add_modifier(Modifier::underlined());
    }
    s
}

/// `s` cut after each line feed (the pieces keep their line feeds; the
/// last piece, possibly empty, has none).
pub open spec fn split_lines(s: Seq<char>) -> Seq<Seq<char>>
    decreases s.len(),
{
    if s.len() == 0 {
        seq![Seq::empty()]
    } else {
        let prev = split_lines(s.drop_last());
        let cur = prev.last().push(s.last());
        let upd = prev.drop_last().push(cur);
        if s.last() == '\n' { upd.push(Seq::empty()) } else { upd }
    }
}

/// Cuts `s` after each line feed.
fn split_keep(s: &str) -> (r: Vec<String>)
    ensures
        views(r@) == split_lines(s@),
{
    let mut done: Vec<String> = Vec::new();
    let mut cur = String::new();
    let ghost full = s@;
    for ch in it: s.chars()
        invariant
            it.seq() == full,
            views(done@).push(cur@) == split_lines(full.take(it.index() as int)),
    {
        proof {
            let k = it.index() as int;
            assert(full.take(k + 1).drop_last() =~= full.take(k));
        }
        string_push(&mut cur, ch);
        if ch == '\n' {
            done.push(cur);
            cur = String::new();
        }
    }
    assert(full.take(full.len() as int) =~= full);
    done.push(cur);
    done
}

/// `a + b`, or `usize::MAX` where that is larger.
pub open spec fn sat_add(a: int, b: int) -> int {
    if a + b > usize::MAX { usize::MAX as int } else { a + b }
}

/// `a - b`, or zero where that is negative.
pub open spec fn sat_sub(a: int, b: int) -> int {
    if a > b { a - b } else { 0 }
}

/// Columns of `s`, each char as wide as `unicode_width` makes it (zero for
/// control chars), summed up to `usize::MAX`.
pub open spec fn plain_cells(s: Seq<char>) -> int
    decreases s.len(),
{
    if s.len() == 0 {
        0
    } else {
        sat_add(plain_cells(s.drop_last()), match char_width(s.last()) {
            Some(w) => w as int,
            None => 0,
        })
    }
}

/// Columns of `s` (see `plain_cells`).
fn plain_width(s: &str) -> (w: usize)
    ensures
        w == plain_cells(s@),
{
    let mut w: usize = 0;
    let ghost full = s@;
    for ch in it: s.chars()
        invariant
            it.seq() == full,
            w == plain_cells(full.take(it.index() as int)),
    {
        proof {
            let k = it.index() as int;
            assert(full.take(k + 1).drop_last() =~= full.take(k));
        }
        let cw = match unicode_char_width(ch) {
            Some(x) => x,
            None => 0,
        };
        w = w.saturating_add(cw);
    }
    assert(full.take(full.len() as int) =~= full);
    w
}

/// The tokens of the code line `ls..le` whose block content starts at
/// byte `cstart`: the content up to the line is highlighted as a whole
/// (so that constructs spanning lines are seen), and the line's tokens
/// are kept, without a trailing line feed or an empty last token.
pub open spec fn content_tokens(t: Seq<char>, lang: Seq<char>, cstart: int, ls: int, le: int) -> Option<Seq<TokenModel>> {
    let full = text_model(t, cstart, le, Style::plain()).text;
    match code_tokens(lang, code_theme(), split_lines(full)) {
        None => None,
        Some(all) => if all.len() == 0 {
            None
        } else {
            let toks = all.last();
            let cur = text_model(t, ls, le, Style::plain()).text;
            let ends_nl = cur.len() > 0 && cur.last() == '\n';
            let t1 = if !ends_nl && toks.len() > 0 && toks.last().text.len() > 0 && toks.last().text.last() == '\n' {
                toks.drop_last().push(TokenModel { text: toks.last().text.drop_last(), ..toks.last() })
            } else {
                toks
            };
            Some(if t1.len() > 0 && t1.last().text.len() == 0 { t1.drop_last() } else { t1 })
        },
    }
}

fn ends_with_newline(s: &str) -> (b: bool)
    ensures
        b == (s@.len() > 0 && s@.last() == '\n'),
{
    let n = s.unicode_len();
    n > 0 && s.get_char(n - 1) == '\n'
}

/// Highlights the code line `line_start..line_end` of a block whose
/// content starts at byte `content_start`.
fn highlight_content_line(
    h: &CodeHighlighter,
    buffer: &Buffer,
    lang: &str,
    content_start: usize,
    line_start: usize,
    line_end: usize,
) -> (r: Option<Vec<RawToken>>)
    requires
        content_start <= line_start <= line_end <= byte_len(buffer@),
    ensures
        match r {
            Some(v) => content_tokens(buffer@, lang@, content_start as int, line_start as int, line_end as int)
                == Some(token_models(v@)),
            None => content_tokens(buffer@, lang@, content_start as int, line_start as int, line_end as int) is None,
        },
{
    let full_text = buffer.text_for_byte_range(content_start, line_end);
    let lines = split_keep(full_text.as_str());
    proof { use_type_invariant(h); }
    let mut all = match highlight_raw(h, lang, code_theme_name(), &lines) {
        Some(a) => a,
        None => {
            return None;
        },
    };
    let ghost allm = line_token_models(all@);
    let mut tokens = match all.pop() {
        Some(x) => x,
        None => {
            return None;
        },
    };
    proof { assert(allm.last() == token_models(tokens@)); }
    let ghost toks = token_models(tokens@);
    let current = buffer.text_for_byte_range(line_start, line_end);
    if !ends_with_newline(current.as_str()) {
        if tokens.len() > 0 {
            let mut last = tokens.pop().unwrap();
            if ends_with_newline(last.text.as_str()) {
                let _ = string_pop(&mut last.text);
            }
            tokens.push(last);
            proof {
                assert(token_models(tokens@) =~= if toks.last().text.len() > 0 && toks.last().text.last() == '\n' {
                    toks.drop_last().push(TokenModel { text: toks.last().text.drop_last(), ..toks.last() })
                } else {
                    toks
                });
            }
        }
    }
    let ghost t1 = token_models(tokens@);
    if tokens.len() > 0 && tokens[tokens.len() - 1].text.as_str().unicode_len() == 0 {
        let _ = tokens.pop();
        proof { assert(token_models(tokens@) =~= t1.drop_last()); }
    }
    Some(tokens)
}

/// What a fenced code block's children tell: its info string, where the
/// opening fence ends and where the closing fence starts.
pub ghost struct FenceInfo {
    pub info: Seq<char>,
    pub open_end: int,
    pub close_start: int,
}

pub open spec fn fence_loop(t: Seq<char>, node: SyntaxNode, i: int, acc: FenceInfo) -> FenceInfo
    decreases node.children@.len() - i,
{
    if i < 0 || i >= node.children@.len() {
        acc
    } else {
        let c = node.children@[i];
        let k = c.kind@;
        let next = if k == "fenced_code_block_delimiter"@ {
            if c.start_byte == node.start_byte {
                FenceInfo { open_end: c.end_byte as int, ..acc }
            } else {
                FenceInfo { close_start: c.start_byte as int, ..acc }
            }
        } else if k == "info_string"@ {
            FenceInfo { info: text_model(t, c.start_byte as int, c.end_byte as int, Style::plain()).text, ..acc }
        } else {
            acc
        };
        fence_loop(t, node, i + 1, next)
    }
}

pub open spec fn fence_info(t: Seq<char>, node: SyntaxNode) -> FenceInfo {
    fence_loop(t, node, 0, FenceInfo { info: Seq::empty(), open_end: node.start_byte as int, close_start: node.end_byte as int })
}

/// The index of the first byte `b` in `s` from `i` on, or -1.
pub open spec fn byte_index(s: Seq<u8>, b: u8, i: int) -> int
    decreases s.len() - i,
{
    if i < 0 || i >= s.len() {
        -1
    } else if s[i] == b {
        i
    } else {
        byte_index(s, b, i + 1)
    }
}

/// The first byte of the block's first content line: just after the line
/// feed that ends the opening fence's line.
pub open spec fn first_content_byte(t: Seq<char>, open_end: int, block_end: int) -> int {
    let text = if open_end <= block_end { text_model(t, open_end, block_end, Style::plain()).text } else { Seq::empty() };
    let k = byte_index(vstd::utf8::encode_utf8(text), 10u8, 0);
    sat_add(sat_add(open_end, if k < 0 { 0 } else { k }), 1)
}

pub open spec fn code_bg() -> Color {
    Color::Indexed(235)
}

pub open spec fn fence_border() -> Style {
    Style { fg: Some(Color::DarkGray), ..Style::plain() }
}

/// The top border: the language label (the info string between spaces)
/// after a corner, and a rule to the other corner.
pub open spec fn top_border(info: Seq<char>, width: int) -> Seq<char> {
    let label = if info.len() == 0 { Seq::empty() } else { " "@ + info + " "@ };
    let label_len: int = if info.len() == 0 { 0 } else { sat_add(byte_len(info) as usize as int, 2) };
    let remaining = sat_sub(width, sat_add(2, label_len));
    "┌─"@ + label + Seq::new(sat_sub(remaining, 1) as nat, |i: int| '─') + "┐"@
}

pub open spec fn bottom_border(width: int) -> Seq<char> {
    "└"@ + Seq::new(sat_sub(width, 2) as nat, |i: int| '─') + "┘"@
}

/// The borders of a concealed code block span the width they are drawn
/// for: the top border runs from a `┌` corner to a `┐` corner and the
/// bottom one from `└` to `┘`, each exactly `width` chars long, where the
/// width leaves room for the corners and the language label (an ASCII
/// info string, one char per byte).
pub proof fn law_borders_span_width(info: Seq<char>, width: int)
    requires
        width <= usize::MAX,
        byte_len(info) == info.len(),
        width >= if info.len() == 0 { 3 } else { info.len() + 5 },
    ensures
        top_border(info, width).len() == width,
        top_border(info, width)[0] == '┌',
        top_border(info, width)[width - 1] == '┐',
        bottom_border(width).len() == width,
        bottom_border(width)[0] == '└',
        bottom_border(width)[width - 1] == '┘',
{
    reveal_strlit("┌─");
    reveal_strlit("┐");
    reveal_strlit("└");
    reveal_strlit("┘");
    reveal_strlit(" ");
    let label: Seq<char> = if info.len() == 0 { Seq::empty() } else { " "@ + info + " "@ };
    let label_len: int = if info.len() == 0 { 0 } else { sat_add(byte_len(info) as usize as int, 2) };
    let remaining = sat_sub(width, sat_add(2, label_len));
    let rule = Seq::new(sat_sub(remaining, 1) as nat, |i: int| '─');
    assert(top_border(info, width) == "┌─"@ + label + rule + "┐"@);
    assert(label.len() == label_len);
}

/// The spans of highlighted tokens from `i` on, starting at byte `off`,
/// and the columns they take added to `w`.
pub open spec fn token_spans(toks: Seq<TokenModel>, i: int, off: int, w: int) -> (Seq<SpanModel>, int)
    decreases toks.len() - i,
{
    if i < 0 || i >= toks.len() {
        (Seq::empty(), w)
    } else {
        let tok = toks[i];
        let end = sat_add(off, byte_len(tok.text) as usize as int);
        let sp = SpanModel {
            text: tok.text,
            style: Style { bg: Some(code_bg()), ..token_style(tok) },
            start: off,
            end,
            chars: tok.text.len() as int,
            decoration: false,
        };
        let rest = token_spans(toks, i + 1, end, sat_add(w, plain_cells(tok.text)));
        (seq![sp] + rest.0, rest.1)
    }
}

/// A content line of a concealed block between borders: its highlighted
/// tokens (where the language is known) padded to the inner width, or the
/// plain text in green, padded.
pub open spec fn content_line_spans(t: Seq<char>, info: Seq<char>, cstart: int, ls: int, le: int, width: int) -> Seq<SpanModel> {
    let inner = sat_sub(width, 4);
    let left = decoration_model("│ "@, fence_border());
    let right = decoration_model(" │"@, fence_border());
    let toks = if info.len() > 0 { content_tokens(t, info, cstart, ls, le) } else { None };
    let middle = match toks {
        Some(v) => {
            let (sp, w) = token_spans(v, 0, ls, 0);
            let pad = sat_sub(inner, w);
            sp + if pad > 0 {
                seq![decoration_model(Seq::new(pad as nat, |i: int| ' '), Style { bg: Some(code_bg()), ..Style::plain() })]
            } else {
                Seq::empty()
            }
        },
        None => {
            let raw = text_model(t, ls, le, Style::plain()).text;
            let pad = sat_sub(inner, plain_cells(raw));
            seq![replaced_model(t, ls, le, raw + Seq::new(pad as nat, |i: int| ' '),
                Style { fg: Some(Color::Green), bg: Some(code_bg()), ..Style::plain() })]
        },
    };
    seq![left] + middle + seq![right]
}

/// A line of a fenced code block on `ls..le`: raw in green where the
/// block is revealed; otherwise the opening fence line becomes the top
/// border, the closing one the bottom border, and content lines are boxed.
pub open spec fn code_block_spans(t: Seq<char>, rv: Seq<(int, int)>, node: SyntaxNode, ls: int, le: int, width: int) -> Seq<SpanModel> {
    if overlaps(rv, node.start_byte as int, node.end_byte as int) {
        seq![text_model(t, ls, le, Style { fg: Some(Color::Green), ..Style::plain() })]
    } else {
        let f = fence_info(t, node);
        let first = first_content_byte(t, f.open_end, node.end_byte as int);
        if ls < first {
            seq![replaced_model(t, ls, le, top_border(f.info, width), fence_border())]
        } else if ls >= f.close_start {
            seq![replaced_model(t, ls, le, bottom_border(width), fence_border())]
        } else {
            content_line_spans(t, f.info, first, ls, le, width)
        }
    }
}

/// Reads the info string and the fences' positions from the block's
/// children.
fn read_fence(node: &SyntaxNode, buffer: &Buffer) -> (r: (String, usize, usize))
    requires
        node.fits(byte_len(buffer@) as int),
    ensures
        ({
            let f = fence_info(buffer@, *node);
            r.0@ == f.info && r.1 == f.open_end && r.2 == f.close_start
        }),
{
    let mut info = String::new();
    let mut open_end = node.start_byte;
    let mut close_start = node.end_byte;
    let mut i: usize = 0;
    while i < node.children.len()
        invariant
            i <= node.children@.len(),
            node.fits(byte_len(buffer@) as int),
            fence_info(buffer@, *node) == fence_loop(buffer@, *node, i as int,
                FenceInfo { info: info@, open_end: open_end as int, close_start: close_start as int }),
        decreases node.children@.len() - i,
    {
        let c = &node.children[i];
        proof { assert(c.fits(byte_len(buffer@) as int)); }
        let kind = c.kind.as_str();
        if same_text(kind, "fenced_code_block_delimiter") {
            if c.start_byte == node.start_byte {
                open_end = c.end_byte;
            } else {
                close_start = c.start_byte;
            }
        } else if same_text(kind, "info_string") {
            info = buffer.text_for_byte_range(c.start_byte, c.end_byte);
        }
        i += 1;
    }
    (info, open_end, close_start)
}

/// The first byte of the block's first content line.
fn first_content_line_byte(buffer: &Buffer, open_end: usize, block_end: usize) -> (b: usize)
    requires
        block_end <= byte_len(buffer@),
    ensures
        b == first_content_byte(buffer@, open_end as int, block_end as int),
{
    let text = if open_end <= block_end { buffer.text_for_byte_range(open_end, block_end) } else { String::new() };
    let bytes = text.as_str().as_bytes();
    let ghost bs = vstd::utf8::encode_utf8(text@);
    let ghost tx = if open_end <= block_end { text_model(buffer@, open_end as int, block_end as int, Style::plain()).text } else { Seq::empty() };
    assert(tx == text@);
    let mut k: usize = 0;
    while k < bytes.len()
        invariant
            bytes@ == bs,
            bs == vstd::utf8::encode_utf8(tx),
            tx == (if open_end <= block_end { text_model(buffer@, open_end as int, block_end as int, Style::plain()).text } else { Seq::empty() }),
            k <= bs.len(),
            byte_index(bs, 10u8, 0) == byte_index(bs, 10u8, k as int),
        decreases bs.len() - k,
    {
        if bytes[k] == 10u8 {
            assert(byte_index(bs, 10u8, k as int) == k);
            return open_end.saturating_add(k).saturating_add(1);
        }
        k += 1;
    }
    open_end.saturating_add(0).saturating_add(1)
}

fn build_top_border(info: &String, width: usize) -> (s: String)
    ensures
        s@ == top_border(info@, width as int),
{
    let empty = info.as_str().unicode_len() == 0;
    let mut label = String::new();
    let mut label_len: usize = 0;
    if !empty {
        label.append(" ");
        label.append(info.as_str());
        label.append(" ");
        label_len = info.as_str().len().saturating_add(2);
    }
    let remaining = width.saturating_sub(2usize.saturating_add(label_len));
    let mut out = String::from_str("┌─");
    out.append(label.as_str());
    out.append(repeat_char('─', remaining.saturating_sub(1)).as_str());
    out.append("┐");
    out
}

fn build_bottom_border(width: usize) -> (s: String)
    ensures
        s@ == bottom_border(width as int),
{
    let mut out = String::from_str("└");
    out.append(repeat_char('─', width.saturating_sub(2)).as_str());
    out.append("┘");
    out
}

fn decoration(text: &str, style: Style) -> (sp: RenderSpan)
    ensures
        sp.model() == decoration_model(text@, style),
{
    RenderSpan { display_text: String::from_str(text), style, raw_byte_range: 0..0, raw_char_count: 0, is_decoration: true }
}

/// Emits the spans of highlighted tokens from byte `start`; gives the
/// columns they take.
fn emit_tokens(tokens: &Vec<RawToken>, start: usize, spans: &mut Vec<RenderSpan>) -> (w: usize)
    ensures
        ({
            let r = token_spans(token_models(tokens@), 0, start as int, 0);
            span_models(final(spans)@) == span_models(old(spans)@) + r.0 && w == r.1
        }),
{
    let ghost toks = token_models(tokens@);
    let ghost s0 = span_models(spans@);
    let mut off = start;
    let mut width: usize = 0;
    let mut i: usize = 0;
    while i < tokens.len()
        invariant
            i <= tokens@.len(),
            toks == token_models(tokens@),
            ({
                let whole = token_spans(toks, 0, start as int, 0);
                let rest = token_spans(toks, i as int, off as int, width as int);
                span_models(spans@) + rest.0 == s0 + whole.0 && rest.1 == whole.1
            }),
        decreases tokens@.len() - i,
    {
        let tok = &tokens[i];
        let end = off.saturating_add(tok.text.as_str().len());
        let sp = RenderSpan {
            display_text: tok.text.clone(),
            style: syntect_to_ratatui(tok).bg(Color::Indexed(235)),
            raw_byte_range: off..end,
            raw_char_count: tok.text.as_str().unicode_len(),
            is_decoration: false,
        };
        let ghost before = span_models(spans@);
        let ghost me = sp.model();
        emit(spans, sp);
        let tw = plain_width(tok.text.as_str());
        proof {
            let rest = token_spans(toks, (i + 1) as int, end as int, sat_add(width as int, tw as int));
            assert(span_models(spans@) + rest.0 =~= before + (seq![me] + rest.0));
        }
        off = end;
        width = width.saturating_add(tw);
        i += 1;
    }
    width
}

/// Emits a content line of a concealed block between its borders.
fn render_content_line(
    h: &CodeHighlighter,
    buffer: &Buffer,
    info: &String,
    content_start: usize,
    line_start: usize,
    line_end: usize,
    viewport_width: usize,
    spans: &mut Vec<RenderSpan>,
)
    requires
        content_start <= line_start <= line_end <= byte_len(buffer@),
    ensures
        span_models(final(spans)@) == span_models(old(spans)@)
            + content_line_spans(buffer@, info@, content_start as int, line_start as int, line_end as int, viewport_width as int),
{
    let ghost s0 = span_models(spans@);
    let border = Style::new().fg(Color::DarkGray);
    let inner = viewport_width.saturating_sub(4);
    emit(spans, decoration("│ ", border));
    let ghost mid = span_models(spans@);
    let highlighted = if info.as_str().unicode_len() > 0 {
        highlight_content_line(h, buffer, info.as_str(), content_start, line_start, line_end)
    } else {
        None
    };
    match highlighted {
        Some(tokens) => {
            let w = emit_tokens(&tokens, line_start, spans);
            let pad = inner.saturating_sub(w);
            if pad > 0 {
                emit(spans, decoration(repeat_char(' ', pad).as_str(), Style::new().bg(Color::Indexed(235))));
            }
        },
        None => {
            let raw = buffer.text_for_byte_range(line_start, line_end);
            let pad = inner.saturating_sub(plain_width(raw.as_str()));
            let mut padded = raw;
            padded.append(repeat_char(' ', pad).as_str());
            emit(spans, replaced_span(line_start, line_end, buffer, padded, Style::new().bg(Color::Indexed(235)).fg(Color::Green)));
        },
    }
    let ghost mid2 = span_models(spans@);
    emit(spans, decoration(" │", border));
    proof {
        let m = mid2.subrange(mid.len() as int, mid2.len() as int);
        assert(mid2 =~= mid + m);
        assert(span_models(spans@) =~= s0 + (seq![decoration_model("│ "@, fence_border())] + m + seq![decoration_model(" │"@, fence_border())]));
    }
}

/// Renders a line of the fenced code block `node`.
fn render_code_block_node(
    h: &CodeHighlighter,
    node: &SyntaxNode,
    buffer: &Buffer,
    reveal_set: &RevealSet,
    line_start: usize,
    line_end: usize,
    viewport_width: usize,
    spans: &mut Vec<RenderSpan>,
)
    requires
        node.fits(byte_len(buffer@) as int),
        line_start <= line_end <= byte_len(buffer@),
    ensures
        span_models(final(spans)@) == span_models(old(spans)@)
            + code_block_spans(buffer@, reveal_set.model(), *node, line_start as int, line_end as int, viewport_width as int),
{
    let ghost s0 = span_models(spans@);
    if reveal_set.is_revealed(&(node.start_byte..node.end_byte)) {
        emit(spans, text_span(line_start, line_end, buffer, Style::new().fg(Color::Green)));
        proof { assert(span_models(spans@) =~= s0 + code_block_spans(buffer@, reveal_set.model(), *node, line_start as int, line_end as int, viewport_width as int)); }
        return;
    }
    let (info, open_end, close_start) = read_fence(node, buffer);
    let first = first_content_line_byte(buffer, open_end, node.end_byte);
    let border = Style::new().fg(Color::DarkGray);
    if line_start < first {
        emit(spans, replaced_span(line_start, line_end, buffer, build_top_border(&info, viewport_width), border));
    } else if line_start >= close_start {
        emit(spans, replaced_span(line_start, line_end, buffer, build_bottom_border(viewport_width), border));
    } else {
        render_content_line(h, buffer, &info, first, line_start, line_end, viewport_width, spans);
    }
    proof { assert(span_models(spans@) =~= s0 + code_block_spans(buffer@, reveal_set.model(), *node, line_start as int, line_end as int, viewport_width as int)); }
}

/// A code block line on `ls..le`: raw where no code block is met going
/// down from `root` towards it, otherwise as `code_block_spans` says.
pub open spec fn code_line_spans(t: Seq<char>, rv: Seq<(int, int)>, root: SyntaxNode, ls: int, le: int, width: int) -> Seq<SpanModel> {
    match find_on_path(root, ls, "fenced_code_block"@) {
        None => seq![text_model(t, ls, le, Style::plain())],
        Some(block) => code_block_spans(t, rv, block, ls, le, width),
    }
}

/// Renders a line of a fenced code block: raw in green where the cursor
/// reveals the block; otherwise the fences become the box's top border
/// (with the language) and bottom border, and content lines are boxed and
/// highlighted.
pub fn render_fenced_code_block_line(
    h: &CodeHighlighter,
    root: &SyntaxNode,
    buffer: &Buffer,
    reveal_set: &RevealSet,
    line_start: usize,
    line_end: usize,
    viewport_width: usize,
    spans: &mut Vec<RenderSpan>,
)
    requires
        root.fits(byte_len(buffer@) as int),
        line_start <= line_end <= byte_len(buffer@),
    ensures
        span_models(final(spans)@) == span_models(old(spans)@)
            + code_line_spans(buffer@, reveal_set.model(), *root, line_start as int, line_end as int, viewport_width as int),
{
    proof { lemma_found_fits(*root, line_start as int, "fenced_code_block"@, byte_len(buffer@) as int); }
    match find_node_on_path(root, line_start, "fenced_code_block") {
        Some(block) => render_code_block_node(h, block, buffer, reveal_set, line_start, line_end, viewport_width, spans),
        None => {
            emit(spans, text_span(line_start, line_end, buffer, Style::new()));
            proof {
                assert(span_models(spans@) =~= span_models(old(spans)@)
                    + code_line_spans(buffer@, reveal_set.model(), *root, line_start as int, line_end as int, viewport_width as int));
            }
        },
    }
}

/// A highlighted piece of a code line and its terminal style.
#[derive(Debug)]
pub struct StyledToken {
    pub text: String,
    pub style: Style,
}

pub open spec fn styled_models(v: Seq<StyledToken>) -> Seq<(Seq<char>, Style)> {
    v.map_values(|t: StyledToken| (t.text@, t.style))
}

pub open spec fn styled_of(v: Seq<TokenModel>) -> Seq<(Seq<char>, Style)> {
    v.map_values(|t: TokenModel| (t.text, token_style(t)))
}

/// Highlights `lines` (each ending in its line feed) in the language
/// `lang`: the tokens of each line with their styles (see `code_tokens`);
/// `None` for a language without a grammar.
pub fn highlight_code_lines(h: &CodeHighlighter, lang: &str, lines: &Vec<String>) -> (r: Option<Vec<Vec<StyledToken>>>)
    ensures
        match code_tokens(lang@, code_theme(), views(lines@)) {
            None => r is None,
            Some(all) => r matches Some(v) && v@.len() == all.len()
                && forall|k: int| 0 <= k < all.len() ==> styled_models(#[trigger] v@[k]@) == styled_of(all[k]),
        },
{
    proof { use_type_invariant(h); }
    let raw = match highlight_raw(h, lang, code_theme_name(), lines) {
        Some(v) => v,
        None => {
            return None;
        },
    };
    let ghost all = line_token_models(raw@);
    let mut out: Vec<Vec<StyledToken>> = Vec::new();
    let mut k: usize = 0;
    while k < raw.len()
        invariant
            k <= raw@.len(),
            all == line_token_models(raw@),
            out@.len() == k,
            forall|j: int| 0 <= j < k ==> styled_models(#[trigger] out@[j]@) == styled_of(all[j]),
        decreases raw@.len() - k,
    {
        let line = &raw[k];
        let mut styled: Vec<StyledToken> = Vec::new();
        let mut i: usize = 0;
        while i < line.len()
            invariant
                i <= line@.len(),
                styled_models(styled@) == styled_of(token_models(line@)).take(i as int),
            decreases line@.len() - i,
        {
            let t = &line[i];
            let ghost before = styled_models(styled@);
            let item = StyledToken { text: t.text.clone(), style: syntect_to_ratatui(t) };
            assert(token_models(line@)[i as int] == t.model());
            assert((item.text@, item.style) == styled_of(token_models(line@))[i as int]);
            styled.push(item);
            assert(styled_models(styled@) =~= before.push((item.text@, item.style)));
            assert(styled_models(styled@) =~= styled_of(token_models(line@)).take(i + 1));
            i += 1;
        }
        assert(styled_of(token_models(line@)).take(line@.len() as int) =~= styled_of(token_models(line@)));
        out.push(styled);
        k += 1;
    }
    Some(out)
}

} // verus!
