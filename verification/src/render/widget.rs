//! What the editor area shows: each rendered line painted cell by cell,
//! wrapped at the viewport's width, with the selection highlighted.
use vstd::prelude::*;

use crate::chars::{char_width, unicode_char_width};
use crate::editor::buffer::Buffer;
use crate::editor::text::{char_index, lemma_pos_le_index, lemma_valid_index, line_count};
use crate::editor::Editor;
use crate::paths::{file_name_of, path_file_name};
use crate::render::code_block::sat_add;
use crate::render::plan::{RenderLine, RenderSpan};
use crate::style::{Color, Style};

verus! {

/// Text to put at a cell of the viewport (column `x`, row `y`).
#[derive(Debug)]
pub struct Paint {
    pub x: usize,
    pub y: usize,
    pub text: String,
    pub style: Style,
}

pub ghost struct PaintModel {
    pub x: int,
    pub y: int,
    pub text: Seq<char>,
    pub style: Style,
}

impl Paint {
    pub open spec fn model(self) -> PaintModel {
        PaintModel { x: self.x as int, y: self.y as int, text: self.text@, style: self.style }
    }
}

pub open spec fn paint_models(v: Seq<Paint>) -> Seq<PaintModel> {
    v.map_values(|p: Paint| p.model())
}

fn emit_paint(out: &mut Vec<Paint>, p: Paint)
    ensures
        paint_models(final(out)@) == paint_models(old(out)@).push(p.model()),
{
    out.push(p);
    assert(paint_models(out@) =~= paint_models(old(out)@).push(p.model()));
}

pub open spec fn selection_style() -> Style {
    Style { fg: Some(Color::White), bg: Some(Color::Indexed(24)), ..Style::plain() }
}

/// Whether raw column `col` of line `line` lies in the editor's selection
/// (columns too far out to index the text are not).
pub open spec fn is_selected(e: Editor, line: int, col: int) -> bool {
    match e.selection {
        Some(s) => col <= usize::MAX - e.buffer@.len() && {
            let (a, b) = s.char_range(e.buffer@);
            let p = char_index(e.buffer@, line, col);
            a <= p && p < b
        },
        None => false,
    }
}

fn selected_at(editor: &Editor, line: usize, col: usize) -> (b: bool)
    requires
        editor.wf(),
        line < line_count(editor.buffer@),
    ensures
        b == is_selected(*editor, line as int, col as int),
{
    match &editor.selection {
        Some(sel) => {
            if col > usize::MAX - editor.buffer.len_chars() {
                return false;
            }
            proof {
                let t = editor.buffer@;
                lemma_valid_index(t, sel.anchor.0 as int, sel.anchor.1 as int);
                lemma_valid_index(t, sel.head.0 as int, sel.head.1 as int);
                let (a, b) = sel.spec_ordered();
                lemma_pos_le_index(t, a, b);
                crate::editor::buffer::lemma_line_starts_ordered(t, line as int);
                use_type_invariant(&editor.buffer);
                Buffer::lemma_fits(&editor.buffer);
            }
            sel.contains(line, col, &editor.buffer)
        },
        None => false,
    }
}

/// The columns a char takes at display column `col`: up to the next tab
/// stop (every four columns) for a tab, its width otherwise.
pub open spec fn char_cols(ch: char, col: int) -> int {
    if ch == '\t' {
        4 - col % 4
    } else {
        match char_width(ch) {
            Some(w) => w as int,
            None => 0,
        }
    }
}

/// What painting a line needs to know besides its spans.
pub ghost struct PaintCtx {
    pub line: int,
    pub start_row: int,
    pub width: int,
    pub height: int,
    pub editor: Editor,
    pub display_to_raw: Seq<usize>,
}

/// The raw column a display column maps to (see `display_to_raw_col`).
pub open spec fn raw_at(d2r: Seq<usize>, col: int) -> int {
    if d2r.len() == 0 { 0 } else if col < d2r.len() { d2r[col] as int } else { d2r.last() as int }
}

/// The style a char of `span` is painted in at display column `col`: the
/// selection's where the char shows selected raw text.
pub open spec fn paint_style(ctx: PaintCtx, span: RenderSpan, col: int) -> Style {
    if !span.is_decoration && ctx.editor.selection is Some && is_selected(ctx.editor, ctx.line, raw_at(ctx.display_to_raw, col)) {
        selection_style()
    } else {
        span.style
    }
}

/// The blanks a tab paints from column `col`, `i` of its `w` columns on.
pub open spec fn tab_paints(ctx: PaintCtx, col: int, w: int, i: int, style: Style) -> Seq<PaintModel>
    decreases w - i,
{
    if i >= w || i < 0 {
        Seq::empty()
    } else {
        let c = sat_add(col, i);
        let row = sat_add(ctx.start_row, c / ctx.width);
        let me = if row < ctx.height {
            seq![PaintModel { x: c % ctx.width, y: row, text: " "@, style }]
        } else {
            Seq::empty()
        };
        me + tab_paints(ctx, col, w, i + 1, style)
    }
}

/// The chars of `span` from `j` on, painted from display column `col`:
/// each in its cell (a wide char that would cross the right edge moves to
/// the next row), stopping at a line feed or below the viewport; gives the
/// column reached.
pub open spec fn span_paints(ctx: PaintCtx, span: RenderSpan, j: int, col: int) -> (Seq<PaintModel>, int)
    decreases span.display_text@.len() - j,
{
    let text = span.display_text@;
    if j < 0 || j >= text.len() || text[j] == '\n' {
        (Seq::empty(), col)
    } else {
        let ch = text[j];
        let w = char_cols(ch, col);
        let x0 = col % ctx.width;
        let c1 = if w > 1 && x0 + w > ctx.width { sat_add(col, ctx.width - x0) } else { col };
        let x = if w > 1 && x0 + w > ctx.width { 0 } else { x0 };
        let row = sat_add(ctx.start_row, c1 / ctx.width);
        if row >= ctx.height {
            (Seq::empty(), c1)
        } else {
            let style = paint_style(ctx, span, c1);
            let mine = if ch == '\t' {
                tab_paints(ctx, c1, w, 0, style)
            } else {
                seq![PaintModel { x, y: row, text: seq![ch], style }]
            };
            let rest = span_paints(ctx, span, j + 1, sat_add(c1, w));
            (mine + rest.0, rest.1)
        }
    }
}

/// The spans of a line from `i` on, painted from display column `col`.
pub open spec fn line_paints(ctx: PaintCtx, spans: Seq<RenderSpan>, i: int, col: int) -> (Seq<PaintModel>, int)
    decreases spans.len() - i,
{
    if i < 0 || i >= spans.len() {
        (Seq::empty(), col)
    } else {
        let (p, c) = span_paints(ctx, spans[i], 0, col);
        let rest = line_paints(ctx, spans, i + 1, c);
        (p + rest.0, rest.1)
    }
}

/// Screen rows a line painted up to display column `col` takes: at least
/// one.
pub open spec fn rows_taken(col: int, width: int) -> int {
    if col > 0 { (sat_add(col, width) - 1) / width } else { 1 }
}

fn ctx_of(rl: &RenderLine, start_row: usize, width: usize, height: usize, editor: &Editor) -> (c: Ghost<PaintCtx>)
    ensures
        c@ == (PaintCtx {
            line: rl.line_idx as int,
            start_row: start_row as int,
            width: width as int,
            height: height as int,
            editor: *editor,
            display_to_raw: rl.position_map.display_to_raw@,
        }),
{
    Ghost(PaintCtx {
        line: rl.line_idx as int,
        start_row: start_row as int,
        width: width as int,
        height: height as int,
        editor: *editor,
        display_to_raw: rl.position_map.display_to_raw@,
    })
}

/// Paints the blanks of a tab of `w` columns from column `col`.
fn paint_tab(ctx: Ghost<PaintCtx>, col: usize, w: usize, start_row: usize, width: usize, height: usize, style: Style, out: &mut Vec<Paint>)
    requires
        width > 0,
        ctx@.width == width,
        ctx@.start_row == start_row,
        ctx@.height == height,
    ensures
        paint_models(final(out)@) == paint_models(old(out)@) + tab_paints(ctx@, col as int, w as int, 0, style),
{
    let ghost o0 = paint_models(out@);
    let mut i: usize = 0;
    while i < w
        invariant
            i <= w,
            width > 0,
            ctx@.width == width,
            ctx@.start_row == start_row,
            ctx@.height == height,
            paint_models(out@) + tab_paints(ctx@, col as int, w as int, i as int, style)
                == o0 + tab_paints(ctx@, col as int, w as int, 0, style),
        decreases w - i,
    {
        let ghost before = paint_models(out@);
        let c = col.saturating_add(i);
        let row = start_row.saturating_add(c / width);
        if row < height {
            emit_paint(out, Paint { x: c % width, y: row, text: String::from_str(" "), style });
        }
        proof {
            let rest = tab_paints(ctx@, col as int, w as int, i + 1, style);
            assert(paint_models(out@) + rest =~= before + tab_paints(ctx@, col as int, w as int, i as int, style));
        }
        i += 1;
    }
}

/// Paints the chars of one span from display column `col`; gives the
/// column reached.
#[verifier::rlimit(40)]
fn paint_span(
    ctx: Ghost<PaintCtx>,
    rl: &RenderLine,
    span: &RenderSpan,
    col: usize,
    start_row: usize,
    width: usize,
    height: usize,
    editor: &Editor,
    out: &mut Vec<Paint>,
) -> (c: usize)
    requires
        width > 0,
        editor.wf(),
        rl.line_idx < line_count(editor.buffer@),
        ctx@ == (PaintCtx {
            line: rl.line_idx as int,
            start_row: start_row as int,
            width: width as int,
            height: height as int,
            editor: *editor,
            display_to_raw: rl.position_map.display_to_raw@,
        }),
    ensures
        ({
            let r = span_paints(ctx@, *span, 0, col as int);
            paint_models(final(out)@) == paint_models(old(out)@) + r.0 && c == r.1
        }),
{
    let ghost o0 = paint_models(out@);
    let ghost text = span.display_text@;
    let n = span.display_text.as_str().unicode_len();
    let mut dc = col;
    let mut j: usize = 0;
    while j < n
        invariant
            n == text.len(),
            text == span.display_text@,
            j <= n,
            width > 0,
            editor.wf(),
            rl.line_idx < line_count(editor.buffer@),
            ctx@ == (PaintCtx {
                line: rl.line_idx as int,
                start_row: start_row as int,
                width: width as int,
                height: height as int,
                editor: *editor,
                display_to_raw: rl.position_map.display_to_raw@,
            }),
            ({
                let whole = span_paints(ctx@, *span, 0, col as int);
                let rest = span_paints(ctx@, *span, j as int, dc as int);
                paint_models(out@) + rest.0 == o0 + whole.0 && rest.1 == whole.1
            }),
        decreases n - j,
    {
        let ch = span.display_text.as_str().get_char(j);
        if ch == '\n' {
            j = n;
        } else {
            let ghost before = paint_models(out@);
            let ghost rest0 = span_paints(ctx@, *span, j as int, dc as int);
            let w: usize = if ch == '\t' {
                4 - dc % 4
            } else {
                match unicode_char_width(ch) {
                    Some(x) => x,
                    None => 0,
                }
            };
            let x0 = dc % width;
            let wraps = w > 1 && w > width - x0;
            let c1 = if wraps { dc.saturating_add(width - x0) } else { dc };
            let x = if wraps { 0 } else { x0 };
            let row = start_row.saturating_add(c1 / width);
            if row >= height {
                dc = c1;
                j = n;
            } else {
                let raw_col = rl.position_map.display_to_raw_col(c1);
                let style = if !span.is_decoration && editor.selection.is_some() && selected_at(editor, rl.line_idx, raw_col) {
                    Style::new().bg(Color::Indexed(24)).fg(Color::White)
                } else {
                    span.style
                };
                if ch == '\t' {
                    paint_tab(ctx, c1, w, start_row, width, height, style, out);
                } else {
                    let mut cell = String::new();
                    crate::chars::string_push(&mut cell, ch);
                    emit_paint(out, Paint { x, y: row, text: cell, style });
                }
                proof {
                    let rest = span_paints(ctx@, *span, j + 1, sat_add(c1 as int, w as int));
                    assert(paint_models(out@) + rest.0 =~= before + rest0.0);
                }
                dc = c1.saturating_add(w);
                j += 1;
            }
        }
    }
    dc
}

/// Paints a rendered line from screen row `start_screen_row` of a
/// viewport `viewport_width` by `viewport_height`, wrapping it at the
/// width; gives the rows it takes (one for an empty line or a zero
/// width).
pub fn render_text_line(
    render_line: &RenderLine,
    start_screen_row: usize,
    viewport_width: usize,
    viewport_height: usize,
    editor: &Editor,
    out: &mut Vec<Paint>,
) -> (rows: usize)
    requires
        editor.wf(),
        render_line.line_idx < line_count(editor.buffer@),
    ensures
        viewport_width == 0 ==> rows == 1 && paint_models(final(out)@) == paint_models(old(out)@),
        viewport_width > 0 ==> ({
            let ctx = PaintCtx {
                line: render_line.line_idx as int,
                start_row: start_screen_row as int,
                width: viewport_width as int,
                height: viewport_height as int,
                editor: *editor,
                display_to_raw: render_line.position_map.display_to_raw@,
            };
            let r = line_paints(ctx, render_line.spans@, 0, 0);
            paint_models(final(out)@) == paint_models(old(out)@) + r.0 && rows == rows_taken(r.1, viewport_width as int)
        }),
{
    if viewport_width == 0 {
        return 1;
    }
    let ctx = ctx_of(render_line, start_screen_row, viewport_width, viewport_height, editor);
    let ghost o0 = paint_models(out@);
    let mut col: usize = 0;
    let mut i: usize = 0;
    while i < render_line.spans.len()
        invariant
            i <= render_line.spans@.len(),
            viewport_width > 0,
            editor.wf(),
            render_line.line_idx < line_count(editor.buffer@),
            ctx@ == (PaintCtx {
                line: render_line.line_idx as int,
                start_row: start_screen_row as int,
                width: viewport_width as int,
                height: viewport_height as int,
                editor: *editor,
                display_to_raw: render_line.position_map.display_to_raw@,
            }),
            ({
                let whole = line_paints(ctx@, render_line.spans@, 0, 0);
                let rest = line_paints(ctx@, render_line.spans@, i as int, col as int);
                paint_models(out@) + rest.0 == o0 + whole.0 && rest.1 == whole.1
            }),
        decreases render_line.spans@.len() - i,
    {
        let ghost before = paint_models(out@);
        let ghost rest0 = line_paints(ctx@, render_line.spans@, i as int, col as int);
        col = paint_span(ctx, render_line, &render_line.spans[i], col, start_screen_row, viewport_width, viewport_height, editor, out);
        proof {
            let rest = line_paints(ctx@, render_line.spans@, i + 1, col as int);
            assert(paint_models(out@) + rest.0 =~= before + rest0.0);
        }
        i += 1;
    }
    if col > 0 {
        (col.saturating_add(viewport_width) - 1) / viewport_width
    } else {
        1
    }
}

/// The editor area: the rendered lines from the top of the viewport down,
/// then `~` on the rows below the text.
pub struct EditorWidget<'a> {
    pub editor: &'a Editor,
    pub render_lines: &'a [RenderLine],
    /// Whether headings can be drawn as images.
    pub images: bool,
    /// When true, image areas are kept as the terminal shows them.
    pub skip_unchanged_images: bool,
}

/// Rows of the viewport given to the image of render line `line`: drawn
/// anew, or kept as they are where `skip` is set.
#[derive(Debug, Clone, Copy, PartialEq, Eq, Structural)]
pub struct ImageSlot {
    pub line: usize,
    pub row: usize,
    pub rows: usize,
    pub skip: bool,
}

/// What the editor widget lays out from render line `i` on, from screen
/// row `row`: paints for text lines, slots for image headings, and the
/// row reached.
pub open spec fn layout_loop(
    e: Editor,
    lines: Seq<RenderLine>,
    images: bool,
    skip: bool,
    width: int,
    height: int,
    i: int,
    row: int,
) -> (Seq<PaintModel>, Seq<ImageSlot>, int)
    decreases lines.len() - i,
{
    if i < 0 || i >= lines.len() || row >= height {
        (Seq::empty(), Seq::empty(), row)
    } else {
        let rl = lines[i];
        if rl.image_header is Some && (skip || images) {
            let want = rl.image_header.unwrap().display_rows as int;
            let n = if want < height - row { want } else { height - row };
            let rest = layout_loop(e, lines, images, skip, width, height, i + 1, row + n);
            (rest.0, seq![ImageSlot { line: i as usize, row: row as usize, rows: n as usize, skip }] + rest.1, rest.2)
        } else {
            let ctx = PaintCtx {
                line: rl.line_idx as int,
                start_row: row,
                width,
                height,
                editor: e,
                display_to_raw: rl.position_map.display_to_raw@,
            };
            let (p, rows) = if width == 0 {
                (Seq::empty(), 1int)
            } else {
                let r = line_paints(ctx, rl.spans@, 0, 0);
                (r.0, rows_taken(r.1, width))
            };
            let rest = layout_loop(e, lines, images, skip, width, height, i + 1, sat_add(row, rows));
            (p + rest.0, rest.1, rest.2)
        }
    }
}

/// The `~` marks on rows `row..height`.
pub open spec fn tildes(row: int, height: int) -> Seq<PaintModel>
    decreases height - row,
{
    if row >= height {
        Seq::empty()
    } else {
        seq![PaintModel { x: 0, y: row, text: "~"@, style: Style { fg: Some(Color::DarkGray), ..Style::plain() } }]
            + tildes(row + 1, height)
    }
}

impl<'a> EditorWidget<'a> {
    /// Lays the lines out in a viewport `width` by `height`: each text line
    /// painted (see `render_text_line`) below the one before; a heading with
    /// an image header gets as many of its rows as fit, drawn as an image or
    /// kept; the rows below are marked `~`.
    pub fn layout(&self, width: usize, height: usize) -> (r: (Vec<Paint>, Vec<ImageSlot>))
        requires
            self.editor.wf(),
            forall|i: int| 0 <= i < self.render_lines@.len() ==> (#[trigger] self.render_lines@[i]).line_idx
                < line_count(self.editor.buffer@),
        ensures
            ({
                let l = layout_loop(*self.editor, self.render_lines@, self.images, self.skip_unchanged_images,
                    width as int, height as int, 0, 0);
                &&& paint_models(r.0@) == l.0 + tildes(l.2, height as int)
                &&& r.1@ == l.1
            }),
    {
        let mut paints: Vec<Paint> = Vec::new();
        let mut slots: Vec<ImageSlot> = Vec::new();
        let ghost e = *self.editor;
        let ghost lines = self.render_lines@;
        let mut row: usize = 0;
        let mut i: usize = 0;
        while row < height && i < self.render_lines.len()
            invariant
                e == *self.editor,
                lines == self.render_lines@,
                self.editor.wf(),
                forall|k: int| 0 <= k < lines.len() ==> (#[trigger] lines[k]).line_idx < line_count(e.buffer@),
                i <= lines.len(),
                ({
                    let whole = layout_loop(e, lines, self.images, self.skip_unchanged_images, width as int, height as int, 0, 0);
                    let rest = layout_loop(e, lines, self.images, self.skip_unchanged_images, width as int, height as int, i as int, row as int);
                    &&& paint_models(paints@) + rest.0 == whole.0
                    &&& slots@ + rest.1 == whole.1
                    &&& rest.2 == whole.2
                }),
            decreases lines.len() - i,
        {
            let rl = &self.render_lines[i];
            let ghost p0 = paint_models(paints@);
            let ghost s0 = slots@;
            let ghost rest0 = layout_loop(e, lines, self.images, self.skip_unchanged_images, width as int, height as int, i as int, row as int);
            let is_image = match &rl.image_header {
                Some(_) => self.skip_unchanged_images || self.images,
                None => false,
            };
            if is_image {
                let want = match &rl.image_header {
                    Some(h) => h.display_rows as usize,
                    None => 0,
                };
                let n = if want < height - row { want } else { height - row };
                slots.push(ImageSlot { line: i, row, rows: n, skip: self.skip_unchanged_images });
                proof {
                    let rest = layout_loop(e, lines, self.images, self.skip_unchanged_images, width as int, height as int, i + 1, (row + n) as int);
                    assert(slots@ + rest.1 =~= s0 + rest0.1);
                }
                row = row + n;
            } else {
                let rows = render_text_line(rl, row, width, height, self.editor, &mut paints);
                proof {
                    let rest = layout_loop(e, lines, self.images, self.skip_unchanged_images, width as int, height as int, i + 1, sat_add(row as int, rows as int));
                    assert(paint_models(paints@) + rest.0 =~= p0 + rest0.0);
                }
                row = row.saturating_add(rows);
            }
            i += 1;
        }
        let ghost whole = layout_loop(e, lines, self.images, self.skip_unchanged_images, width as int, height as int, 0, 0);
        assert(paint_models(paints@) == whole.0);
        let ghost before_tildes = paint_models(paints@);
        let mut r = row;
        while r < height
            invariant
                row <= r,
                before_tildes == whole.0,
                row == whole.2,
                paint_models(paints@) + tildes(r as int, height as int) == before_tildes + tildes(row as int, height as int),
            decreases height - r,
        {
            let ghost b = paint_models(paints@);
            emit_paint(&mut paints, Paint { x: 0, y: r, text: String::from_str("~"), style: Style::new().fg(Color::DarkGray) });
            proof {
                assert(paint_models(paints@) + tildes(r + 1, height as int) =~= b + tildes(r as int, height as int));
            }
            r += 1;
        }
        (paints, slots)
    }
}

/// The decimal digits of `n`.
pub open spec fn decimal(n: nat) -> Seq<char>
    decreases n,
{
    let d = (('0' as u8) + (n % 10) as u8) as char;
    if n < 10 { seq![d] } else { decimal(n / 10).push(d) }
}

/// Writes `n` in decimal.
pub fn decimal_string(n: usize) -> (s: String)
    ensures
        s@ == decimal(n as nat),
    decreases n,
{
    let d = ((48u8 + (n % 10) as u8) as char);
    assert(d == (('0' as u8) + (n % 10) as u8) as char);
    if n < 10 {
        let mut s = String::new();
        crate::chars::string_push(&mut s, d);
        s
    } else {
        let mut s = decimal_string(n / 10);
        crate::chars::string_push(&mut s, d);
        s
    }
}

/// The status line: the file's name (`[untitled]` for none) and ` [+]`
/// where there are unsaved changes on the left, the cursor's line and
/// column (from one) and the encoding on the right, spaces between.
pub open spec fn status_text(e: Editor, width: int) -> Seq<char> {
    let name = match e.file_path {
        Some(p) => file_name_of(p@),
        None => "[untitled]"@,
    };
    let left = " "@ + name + if e.dirty { " [+]"@ } else { Seq::empty() };
    let right = "Ln "@ + decimal((e.cursor.line + 1) as nat) + ", Col "@ + decimal((e.cursor.col + 1) as nat) + "  UTF-8 "@;
    let used = sat_add(crate::editor::text::byte_len(left) as usize as int, crate::editor::text::byte_len(right) as usize as int);
    let pad = if width > used { width - used } else { 0 };
    left + Seq::new(pad as nat, |i: int| ' ') + right
}

/// The status line for a bar `width` columns wide (see `status_text`),
/// shown on a dark background.
pub fn status_line(editor: &Editor, width: usize) -> (s: String)
    requires
        editor.wf(),
    ensures
        s@ == status_text(*editor, width as int),
{
    proof {
        use_type_invariant(&editor.buffer);
        Buffer::lemma_fits(&editor.buffer);
        lemma_valid_index(editor.buffer@, editor.cursor.line as int, editor.cursor.col as int);
        crate::editor::buffer::lemma_line_starts_ordered(editor.buffer@, editor.cursor.line as int);
    }
    let name = match &editor.file_path {
        Some(p) => path_file_name(p),
        None => String::from_str("[untitled]"),
    };
    let mut left = String::from_str(" ");
    left.append(name.as_str());
    if editor.dirty {
        left.append(" [+]");
    }
    let mut right = String::from_str("Ln ");
    right.append(decimal_string(editor.cursor.line + 1).as_str());
    right.append(", Col ");
    right.append(decimal_string(editor.cursor.col + 1).as_str());
    right.append("  UTF-8 ");
    let used = left.as_str().len().saturating_add(right.as_str().len());
    let pad = width.saturating_sub(used);
    let mut out = left;
    out.append(crate::render::block::repeat_char(' ', pad).as_str());
    out.append(right.as_str());
    out
}

/// The style of the status bar.
pub fn status_style() -> (s: Style)
    ensures
        s == (Style { fg: Some(Color::White), bg: Some(Color::Indexed(236)), ..Style::plain() }),
{
    Style::new().bg(Color::Indexed(236)).fg(Color::White)
}

} // verus!
