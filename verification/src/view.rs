//! What a frame of the editor shows: which buffer lines are rendered and
//! which are visible, how far down the cursor's line starts, where the
//! images of headings go, and where the cursor is put.
use vstd::prelude::*;

use crate::editor::Editor;
use crate::finder::{blank_string, blanks, first_chars, put, take_chars, Rect};
use crate::paths::{file_name_of, path_file_name};
use crate::render::plan::{line_rows, line_width, RenderLine};
use crate::render::widget::{paint_models, Paint, PaintModel};
use crate::session::TabEntry;
use crate::style::{Color, Style};

verus! {

/// Where the image of a heading goes on screen and what it shows.
#[derive(Debug, Clone, PartialEq, Eq)]
pub struct ImageLayoutEntry {
    pub screen_row: u16,
    pub rows: u16,
    pub text: String,
    pub tier: u8,
}

/// An image layout entry as plain values.
pub ghost struct ImageModel {
    pub screen_row: u16,
    pub rows: u16,
    pub text: Seq<char>,
    pub tier: u8,
}

impl ImageLayoutEntry {
    pub open spec fn model(self) -> ImageModel {
        ImageModel { screen_row: self.screen_row, rows: self.rows, text: self.text@, tier: self.tier }
    }
}

pub open spec fn image_models(v: Seq<ImageLayoutEntry>) -> Seq<ImageModel> {
    v.map_values(|e: ImageLayoutEntry| e.model())
}

/// Every line's width plus `vw` fits a `usize`.
pub open spec fn lines_fit(lines: Seq<RenderLine>, vw: int) -> bool {
    forall|i: int| 0 <= i < lines.len() ==> line_width((#[trigger] lines[i]).spans@) + vw <= usize::MAX
}

/// The buffer lines rendered around the cursor's line: `viewport_height +
/// 10` on each side of it, within the buffer.
pub fn prefetch_range(cursor_line: usize, viewport_height: usize, total_lines: usize) -> (r: (usize, usize))
    requires
        cursor_line + viewport_height + 10 <= usize::MAX,
    ensures
        r.0 == (if cursor_line > viewport_height + 10 { cursor_line - viewport_height - 10 } else { 0 }),
        r.1 == (if cursor_line + viewport_height + 10 < total_lines {
            cursor_line + viewport_height + 10
        } else {
            total_lines as int
        }),
{
    let margin = viewport_height + 10;
    let start = cursor_line.saturating_sub(margin);
    let end = if cursor_line + margin < total_lines { cursor_line + margin } else { total_lines };
    (start, end)
}

/// Screen rows of buffer line `line` where the lines from `first` on were
/// rendered as `lines`: a line that was not rendered counts one row.
pub open spec fn rows_at(lines: Seq<RenderLine>, first: int, line: int, vw: int) -> int {
    if first <= line < first + lines.len() {
        line_rows(lines[line - first], vw)
    } else {
        1
    }
}

/// The line below the visible ones: lines are taken from `end` on, with
/// `filled` rows already taken, until they take `need` rows or the
/// buffer's `total` lines run out.
pub open spec fn fill_to(lines: Seq<RenderLine>, first: int, total: int, vw: int, need: int, end: int, filled: int) -> int
    decreases total - end,
{
    if end >= total || filled >= need {
        end
    } else {
        fill_to(lines, first, total, vw, need, end + 1, filled + rows_at(lines, first, end, vw))
    }
}

proof fn lemma_fill_to_full(lines: Seq<RenderLine>, first: int, total: int, vw: int, need: int, end: int, f: int, g: int)
    requires
        f >= need,
        g >= need,
    ensures
        fill_to(lines, first, total, vw, need, end, f) == fill_to(lines, first, total, vw, need, end, g),
{
}

/// The first buffer line below those visible from `scroll_offset`, where
/// the lines from `first` on were rendered as `lines` at width
/// `viewport_width`: lines are taken until they fill `viewport_height + 5`
/// rows or the buffer's `total_lines` run out.
pub fn visible_end(
    lines: &[RenderLine],
    first: usize,
    total_lines: usize,
    scroll_offset: usize,
    viewport_width: usize,
    viewport_height: usize,
) -> (e: usize)
    requires
        lines_fit(lines@, viewport_width as int),
        viewport_height + 5 <= usize::MAX,
    ensures
        e == fill_to(lines@, first as int, total_lines as int, viewport_width as int, viewport_height + 5, scroll_offset as int, 0),
{
    let need = viewport_height + 5;
    let mut end = scroll_offset;
    let mut filled: usize = 0;
    let ghost mut taken: int = 0;
    while end < total_lines && filled < need
        invariant
            lines_fit(lines@, viewport_width as int),
            need == viewport_height + 5,
            filled == (if taken > usize::MAX { usize::MAX as int } else { taken }),
            taken >= 0,
            fill_to(lines@, first as int, total_lines as int, viewport_width as int, need as int, end as int, taken)
                == fill_to(lines@, first as int, total_lines as int, viewport_width as int, need as int, scroll_offset as int, 0),
        decreases total_lines - end,
    {
        let rows = if end >= first && end - first < lines.len() {
            let l = &lines[end - first];
            assert(line_width(l.spans@) + viewport_width <= usize::MAX);
            l.screen_rows(viewport_width)
        } else {
            1
        };
        assert(rows == rows_at(lines@, first as int, end as int, viewport_width as int));
        proof {
            if taken + rows >= need {
                lemma_fill_to_full(lines@, first as int, total_lines as int, viewport_width as int, need as int, end + 1,
                    taken + rows, if taken + rows > usize::MAX { usize::MAX as int } else { taken + rows });
            }
            taken = taken + rows;
        }
        filled = filled.saturating_add(rows);
        end += 1;
    }
    end
}

/// Screen rows taken by the first `n` of `lines`.
pub open spec fn rows_before(lines: Seq<RenderLine>, vw: int, n: int) -> int
    decreases n,
{
    if n <= 0 || n > lines.len() {
        0
    } else {
        rows_before(lines, vw, n - 1) + line_rows(lines[n - 1], vw)
    }
}

/// Where the images of the first `n` of `lines` go: each heading with an
/// image header at the screen row its line starts on (kept to 16 bits).
pub open spec fn image_entries(lines: Seq<RenderLine>, vw: int, n: int) -> Seq<ImageModel>
    decreases n,
{
    if n <= 0 || n > lines.len() {
        Seq::empty()
    } else {
        let prev = image_entries(lines, vw, n - 1);
        match lines[n - 1].image_header {
            Some(h) => prev.push(
                ImageModel { screen_row: rows_before(lines, vw, n - 1) as u16, rows: h.display_rows, text: h.text@, tier: h.tier },
            ),
            None => prev,
        }
    }
}

proof fn lemma_rows_before_mono(lines: Seq<RenderLine>, vw: int, i: int, j: int)
    requires
        0 <= i <= j <= lines.len(),
        vw >= 0,
    ensures
        0 <= rows_before(lines, vw, i) <= rows_before(lines, vw, j),
    decreases j,
{
    if j > 0 {
        lemma_rows_before_mono(lines, vw, if i < j { i } else { j - 1 }, j - 1);
        lemma_line_rows_nonneg(lines[j - 1], vw);
    }
}

proof fn lemma_line_rows_nonneg(l: RenderLine, vw: int)
    requires
        vw >= 0,
    ensures
        line_rows(l, vw) >= 0,
{
    if vw > 0 && l.image_header is None && line_width(l.spans@) > 0 {
        let w = line_width(l.spans@) as int;
        assert((w + vw - 1) / vw >= 0) by (nonlinear_arith)
            requires
                w > 0,
                vw > 0,
        ;
    }
}

/// Screen rows taken by all of `lines`, where that fits a `usize`.
pub fn total_rows(lines: &[RenderLine], viewport_width: usize) -> (r: Option<usize>)
    requires
        lines_fit(lines@, viewport_width as int),
    ensures
        match r {
            Some(n) => n == rows_before(lines@, viewport_width as int, lines@.len() as int),
            None => rows_before(lines@, viewport_width as int, lines@.len() as int) > usize::MAX,
        },
{
    let mut total: usize = 0;
    let mut i: usize = 0;
    while i < lines.len()
        invariant
            i <= lines@.len(),
            lines_fit(lines@, viewport_width as int),
            total == rows_before(lines@, viewport_width as int, i as int),
        decreases lines@.len() - i,
    {
        assert(line_width(lines@[i as int].spans@) + viewport_width <= usize::MAX);
        let rows = lines[i].screen_rows(viewport_width);
        if rows > usize::MAX - total {
            proof { lemma_rows_before_mono(lines@, viewport_width as int, i + 1, lines@.len() as int); }
            return None;
        }
        total += rows;
        i += 1;
    }
    Some(total)
}

/// How far down the cursor's line starts (the rows of the lines before
/// `cursor_index`, or of all lines where it is past them) and where the
/// images of headings go.
pub fn screen_layout(lines: &[RenderLine], viewport_width: usize, cursor_index: usize) -> (r: (usize, Vec<ImageLayoutEntry>))
    requires
        lines_fit(lines@, viewport_width as int),
        rows_before(lines@, viewport_width as int, lines@.len() as int) <= usize::MAX,
    ensures
        r.0 == rows_before(
            lines@,
            viewport_width as int,
            if cursor_index < lines@.len() { cursor_index as int } else { lines@.len() as int },
        ),
        image_models(r.1@) == image_entries(lines@, viewport_width as int, lines@.len() as int),
{
    let mut cursor_row: usize = 0;
    let mut row: usize = 0;
    let mut images: Vec<ImageLayoutEntry> = Vec::new();
    let mut i: usize = 0;
    while i < lines.len()
        invariant
            i <= lines@.len(),
            lines_fit(lines@, viewport_width as int),
            rows_before(lines@, viewport_width as int, lines@.len() as int) <= usize::MAX,
            row == rows_before(lines@, viewport_width as int, i as int),
            cursor_row == rows_before(lines@, viewport_width as int, if cursor_index < i { cursor_index as int } else { i as int }),
            image_models(images@) == image_entries(lines@, viewport_width as int, i as int),
        decreases lines@.len() - i,
    {
        proof { lemma_rows_before_mono(lines@, viewport_width as int, i + 1, lines@.len() as int); }
        let l = &lines[i];
        assert(line_width(l.spans@) + viewport_width <= usize::MAX);
        let rows = l.screen_rows(viewport_width);
        match &l.image_header {
            Some(img) => {
                let ghost before = images@;
                images.push(ImageLayoutEntry { screen_row: row as u16, rows: img.display_rows, text: img.text.clone(), tier: img.tier });
                assert(image_models(images@) =~= image_models(before).push(images@.last().model()));
            },
            None => {},
        }
        if i < cursor_index {
            cursor_row += rows;
        }
        row += rows;
        i += 1;
    }
    (cursor_row, images)
}

/// Where the cursor goes in an editor area `area_height` rows high: its
/// display column wrapped at `viewport_width` (not wrapped at width zero),
/// below the `line_row` rows before its line, kept on the area's last row
/// at most. Gives `(column, row)`.
pub fn cursor_cell(display_col: usize, line_row: usize, viewport_width: usize, area_height: u16) -> (c: (usize, usize))
    ensures
        ({
            let (wrap, x) = if viewport_width == 0 {
                (0int, display_col as int)
            } else {
                ((display_col / viewport_width) as int, (display_col % viewport_width) as int)
            };
            let last = if area_height > 0 { area_height - 1 } else { 0 };
            &&& c.0 == x
            &&& c.1 == if line_row + wrap < last { line_row + wrap } else { last }
        }),
{
    let (wrap, x) = if viewport_width > 0 {
        (display_col / viewport_width, display_col % viewport_width)
    } else {
        (0, display_col)
    };
    let row = line_row.saturating_add(wrap);
    let last = area_height.saturating_sub(1) as usize;
    (x, if row < last { row } else { last })
}

/// A tab's title: the file's name (`[untitled]` for none), ` +` where it
/// has unsaved changes, a space on each side.
pub open spec fn tab_title(e: Editor) -> Seq<char> {
    let name = match e.file_path {
        Some(p) => file_name_of(p@),
        None => "[untitled]"@,
    };
    " "@ + name + (if e.dirty { " +"@ } else { Seq::empty() }) + " "@
}

pub open spec fn tab_base_style() -> Style {
    Style { fg: Some(Color::Indexed(245)), bg: Some(Color::Indexed(235)), ..Style::plain() }
}

pub open spec fn tab_active_style() -> Style {
    Style { fg: Some(Color::White), bg: Some(Color::Indexed(238)), ..Style::plain() }
}

/// The titles of tabs `i..` from column `x` of a bar that ends at column
/// `right` on row `y`: each cut to the room left, until the bar is full.
pub open spec fn tab_paints(tabs: Seq<TabEntry>, active: int, y: int, right: int, i: int, x: int) -> Seq<PaintModel>
    decreases tabs.len() - i,
{
    if i < 0 || i >= tabs.len() || x >= right {
        Seq::empty()
    } else {
        let shown = first_chars(tab_title(tabs[i].editor), right - x);
        let style = if i == active { tab_active_style() } else { tab_base_style() };
        seq![PaintModel { x, y, text: shown, style }] + tab_paints(tabs, active, y, right, i + 1, x + shown.len())
    }
}

/// What the tab bar paints over `area`: its row blank, then one title per
/// open tab from the left, the active one highlighted.
pub open spec fn tab_bar_paints(tabs: Seq<TabEntry>, active: int, area: Rect) -> Seq<PaintModel> {
    let (x, y, w) = (area.x as int, area.y as int, area.width as int);
    seq![PaintModel { x, y, text: blanks(w), style: tab_base_style() }] + tab_paints(tabs, active, y, x + w, 0, x)
}

fn tab_title_string(e: &Editor) -> (s: String)
    ensures
        s@ == tab_title(*e),
{
    let mut s = String::from_str(" ");
    match &e.file_path {
        Some(p) => s.append(path_file_name(p).as_str()),
        None => s.append("[untitled]"),
    }
    if e.dirty {
        s.append(" +");
    }
    s.append(" ");
    s
}

/// Paints the tab bar over `area` (see `tab_bar_paints`).
pub fn tab_bar(tabs: &[TabEntry], active: usize, area: Rect) -> (out: Vec<Paint>)
    ensures
        paint_models(out@) == tab_bar_paints(tabs@, active as int, area),
{
    let mut out: Vec<Paint> = Vec::new();
    let base = Style::new().bg(Color::Indexed(235)).fg(Color::Indexed(245));
    let active_style = Style::new().bg(Color::Indexed(238)).fg(Color::White);
    let x0 = area.x as usize;
    let y = area.y as usize;
    let right = x0 + area.width as usize;
    put(&mut out, x0, y, blank_string(area.width as usize), base);
    let ghost head = paint_models(out@);
    let mut x = x0;
    let mut i: usize = 0;
    while i < tabs.len() && x < right
        invariant
            i <= tabs@.len(),
            x0 <= x <= right,
            right == x0 + area.width,
            y == area.y,
            x0 == area.x,
            base == tab_base_style(),
            active_style == tab_active_style(),
            head + tab_paints(tabs@, active as int, y as int, right as int, 0, x0 as int)
                == paint_models(out@) + tab_paints(tabs@, active as int, y as int, right as int, i as int, x as int),
        decreases tabs@.len() - i,
    {
        let title = tab_title_string(&tabs[i].editor);
        let shown = take_chars(title.as_str(), right - x);
        let n = shown.as_str().unicode_len();
        let style = if i == active { active_style } else { base };
        let ghost before = paint_models(out@);
        put(&mut out, x, y, shown, style);
        proof {
            let rest = tab_paints(tabs@, active as int, y as int, right as int, (i + 1) as int, (x + n) as int);
            assert(paint_models(out@) + rest =~= before + tab_paints(tabs@, active as int, y as int, right as int, i as int, x as int));
        }
        x = x + n;
        i += 1;
    }
    assert(tab_paints(tabs@, active as int, y as int, right as int, i as int, x as int) =~= Seq::<PaintModel>::empty());
    assert(paint_models(out@) =~= tab_bar_paints(tabs@, active as int, area));
    out
}

/// Where the cursor goes in the finder popup `popup`: on the input row,
/// after the border, ` > ` and the query's `query_len` bytes (a byte count
/// kept to 16 bits), and never on the right border.
pub fn finder_cursor(popup: Rect, query_len: usize) -> (c: (u16, u16))
    requires
        popup.width >= 2,
        popup.x + popup.width <= u16::MAX,
        popup.y < u16::MAX,
    ensures
        ({
            let want = popup.x + 4 + (query_len as u16);
            let limit = popup.x + popup.width - 2;
            &&& c.0 == if want < limit { want } else { limit }
            &&& c.1 == popup.y + 1
        }),
{
    let q = query_len as u16;
    let want = popup.x as u32 + 4 + q as u32;
    let limit = popup.x + popup.width - 2;
    let x = if want < limit as u32 { want as u16 } else { limit };
    (x, popup.y + 1)
}

} // verus!
