//! Pipe tables: drawn as boxes with their columns aligned.
use vstd::prelude::*;

use crate::chars::{char_is_whitespace, is_whitespace_char, same_text, string_push, text_width, unicode_str_width};
use crate::editor::buffer::Buffer;
use crate::editor::text::byte_len;
use crate::markdown::reveal_set::{overlaps, RevealSet};
use crate::markdown::syntax::SyntaxNode;
use crate::render::block::repeat_char;
use crate::render::code_block::sat_add;
use crate::render::plan::RenderSpan;
use crate::render::spans::{emit, replaced_model, replaced_span, span_models, text_model, text_span, SpanModel};
use crate::style::{Color, Modifier, Style};

verus! {

/// The index of the first child of `node` from `i` on that ends after
/// byte `b` (where a syntax cursor goes for that byte), or -1.
pub open spec fn child_for_byte(node: SyntaxNode, b: int, i: int) -> int
    decreases node.children@.len() - i,
{
    if i < 0 || i >= node.children@.len() {
        -1
    } else if node.children@[i].end_byte > b {
        i
    } else {
        child_for_byte(node, b, i + 1)
    }
}

/// The first node of kind `kind` met going down from `node` towards byte
/// `b`.
pub open spec fn find_on_path(node: SyntaxNode, b: int, kind: Seq<char>) -> Option<SyntaxNode>
    decreases node,
{
    if node.kind@ == kind {
        Some(node)
    } else {
        let j = child_for_byte(node, b, 0);
        if 0 <= j < node.children@.len() {
            find_on_path(node.children@[j], b, kind)
        } else {
            None
        }
    }
}

/// The first child of `node` that ends after byte `b`.
pub fn child_index_for_byte(node: &SyntaxNode, b: usize) -> (k: Option<usize>)
    ensures
        match k {
            Some(j) => child_for_byte(*node, b as int, 0) == j && j < node.children@.len(),
            None => child_for_byte(*node, b as int, 0) == -1,
        },
{
    let mut i: usize = 0;
    while i < node.children.len()
        invariant
            i <= node.children@.len(),
            child_for_byte(*node, b as int, 0) == child_for_byte(*node, b as int, i as int),
        decreases node.children@.len() - i,
    {
        if node.children[i].end_byte > b {
            return Some(i);
        }
        i += 1;
    }
    None
}

/// Finds the first node of kind `kind` going down from `node` towards
/// byte `b`.
pub fn find_node_on_path<'a>(node: &'a SyntaxNode, b: usize, kind: &str) -> (r: Option<&'a SyntaxNode>)
    ensures
        match r {
            Some(n) => find_on_path(*node, b as int, kind@) == Some(*n),
            None => find_on_path(*node, b as int, kind@) is None,
        },
    decreases node,
{
    if same_text(node.kind.as_str(), kind) {
        return Some(node);
    }
    match child_index_for_byte(node, b) {
        Some(j) => find_node_on_path(&node.children[j], b, kind),
        None => None,
    }
}

/// The index of the first char of `s` from `i` on that is not white
/// space (the length if none).
pub open spec fn lead_end(s: Seq<char>, i: int) -> int
    decreases s.len() - i,
{
    if i < 0 || i >= s.len() {
        s.len() as int
    } else if is_whitespace_char(s[i]) {
        lead_end(s, i + 1)
    } else {
        i
    }
}

/// The end of `s` without the white space that trails it, looking back
/// from `j`.
pub open spec fn trail_start(s: Seq<char>, j: int) -> int
    decreases j,
{
    if j <= 0 || j > s.len() {
        if j > s.len() { s.len() as int } else { 0 }
    } else if is_whitespace_char(s[j - 1]) {
        trail_start(s, j - 1)
    } else {
        j
    }
}

/// `s` without leading and trailing white space.
pub open spec fn trimmed(s: Seq<char>) -> Seq<char> {
    let a = lead_end(s, 0);
    let b = trail_start(s, s.len() as int);
    if a < b { s.subrange(a, b) } else { Seq::empty() }
}

proof fn lemma_trail_bounds(s: Seq<char>, j: int)
    requires
        0 <= j <= s.len(),
    ensures
        0 <= trail_start(s, j) <= j,
    decreases j,
{
    if j > 0 && is_whitespace_char(s[j - 1]) {
        lemma_trail_bounds(s, j - 1);
    }
}

proof fn lemma_lead_bounds(s: Seq<char>, i: int)
    requires
        0 <= i <= s.len(),
    ensures
        i <= lead_end(s, i) <= s.len(),
    decreases s.len() - i,
{
    if i < s.len() && is_whitespace_char(s[i]) {
        lemma_lead_bounds(s, i + 1);
    }
}

/// `s` without leading and trailing white space (`str::trim`).
pub fn trim(s: &str) -> (r: String)
    ensures
        r@ == trimmed(s@),
{
    let n = s.unicode_len();
    let mut a: usize = 0;
    while a < n && char_is_whitespace(s.get_char(a))
        invariant
            n == s@.len(),
            a <= n,
            lead_end(s@, 0) == lead_end(s@, a as int),
        decreases n - a,
    {
        a += 1;
    }
    let mut b: usize = n;
    while b > 0 && char_is_whitespace(s.get_char(b - 1))
        invariant
            n == s@.len(),
            b <= n,
            trail_start(s@, n as int) == trail_start(s@, b as int),
        decreases b,
    {
        b -= 1;
    }
    proof {
        lemma_lead_bounds(s@, 0);
        lemma_trail_bounds(s@, n as int);
    }
    if a < b {
        String::from_str(s.substring_char(a, b))
    } else {
        String::new()
    }
}

pub open spec fn views(v: Seq<String>) -> Seq<Seq<char>> {
    v.map_values(|s: String| s@)
}

/// The trimmed texts of the cells of a table row.
pub open spec fn cells_loop(t: Seq<char>, row: SyntaxNode, i: int) -> Seq<Seq<char>>
    decreases i,
{
    if i <= 0 || i > row.children@.len() {
        Seq::empty()
    } else {
        let prev = cells_loop(t, row, i - 1);
        let c = row.children@[i - 1];
        if c.kind@ == "pipe_table_cell"@ {
            prev.push(trimmed(text_model(t, c.start_byte as int, c.end_byte as int, Style::plain()).text))
        } else {
            prev
        }
    }
}

pub open spec fn row_cells(t: Seq<char>, row: SyntaxNode) -> Seq<Seq<char>> {
    cells_loop(t, row, row.children@.len() as int)
}

/// Extracts the trimmed cell texts of a table row.
pub fn extract_cells(row: &SyntaxNode, buffer: &Buffer) -> (cells: Vec<String>)
    requires
        row.fits(byte_len(buffer@) as int),
    ensures
        views(cells@) == row_cells(buffer@, *row),
{
    let mut cells: Vec<String> = Vec::new();
    let mut i: usize = 0;
    while i < row.children.len()
        invariant
            i <= row.children@.len(),
            row.fits(byte_len(buffer@) as int),
            views(cells@) == cells_loop(buffer@, *row, i as int),
        decreases row.children@.len() - i,
    {
        let c = &row.children[i];
        proof { assert(c.fits(byte_len(buffer@) as int)); }
        if same_text(c.kind.as_str(), "pipe_table_cell") {
            let text = buffer.text_for_byte_range(c.start_byte, c.end_byte);
            let cell = trim(text.as_str());
            cells.push(cell);
            assert(views(cells@) =~= cells_loop(buffer@, *row, (i + 1) as int));
        } else {
            assert(views(cells@) =~= cells_loop(buffer@, *row, (i + 1) as int));
        }
        i += 1;
    }
    cells
}

/// Column widths after taking in the cells `cells[..i]`.
pub open spec fn widen(ws: Seq<int>, cells: Seq<Seq<char>>, i: int) -> Seq<int>
    decreases i,
{
    if i <= 0 || i > cells.len() {
        ws
    } else {
        let prev = widen(ws, cells, i - 1);
        let w = text_width(cells[i - 1]) as int;
        if i - 1 >= prev.len() {
            prev.push(w)
        } else if w > prev[i - 1] {
            prev.update(i - 1, w)
        } else {
            prev
        }
    }
}

/// Column widths after the rows `node.children[..i]` (headers and data
/// rows count, the delimiter row does not).
pub open spec fn widths_loop(t: Seq<char>, node: SyntaxNode, i: int) -> Seq<int>
    decreases i,
{
    if i <= 0 || i > node.children@.len() {
        Seq::empty()
    } else {
        let prev = widths_loop(t, node, i - 1);
        let r = node.children@[i - 1];
        if r.kind@ == "pipe_table_header"@ || r.kind@ == "pipe_table_row"@ {
            let cells = row_cells(t, r);
            widen(prev, cells, cells.len() as int)
        } else {
            prev
        }
    }
}

/// The widest cell of each column, at least three.
pub open spec fn column_widths(t: Seq<char>, table: SyntaxNode) -> Seq<int> {
    widths_loop(t, table, table.children@.len() as int).map_values(|w: int| if w < 3 { 3 } else { w })
}

pub open spec fn as_ints(v: Seq<usize>) -> Seq<int> {
    v.map_values(|w: usize| w as int)
}

/// Widens `widths` to fit `cells`.
fn widen_to(widths: &mut Vec<usize>, cells: &Vec<String>)
    ensures
        as_ints(final(widths)@) == widen(as_ints(old(widths)@), views(cells@), cells@.len() as int),
{
    let ghost w0 = as_ints(widths@);
    let mut i: usize = 0;
    while i < cells.len()
        invariant
            i <= cells@.len(),
            as_ints(widths@) == widen(w0, views(cells@), i as int),
        decreases cells@.len() - i,
    {
        let w = unicode_str_width(cells[i].as_str());
        if i >= widths.len() {
            widths.push(w);
        } else if w > widths[i] {
            widths.set(i, w);
        }
        assert(as_ints(widths@) =~= widen(w0, views(cells@), (i + 1) as int));
        i += 1;
    }
}

/// The column widths of a table: the widest cell of each column (headers
/// and data rows), at least three.
pub fn analyze_table(table: &SyntaxNode, buffer: &Buffer) -> (widths: Vec<usize>)
    requires
        table.fits(byte_len(buffer@) as int),
    ensures
        as_ints(widths@) == column_widths(buffer@, *table),
{
    let mut widths: Vec<usize> = Vec::new();
    let mut i: usize = 0;
    while i < table.children.len()
        invariant
            i <= table.children@.len(),
            table.fits(byte_len(buffer@) as int),
            as_ints(widths@) == widths_loop(buffer@, *table, i as int),
        decreases table.children@.len() - i,
    {
        let r = &table.children[i];
        proof { assert(r.fits(byte_len(buffer@) as int)); }
        let kind = r.kind.as_str();
        if same_text(kind, "pipe_table_header") || same_text(kind, "pipe_table_row") {
            let cells = extract_cells(r, buffer);
            widen_to(&mut widths, &cells);
        }
        i += 1;
    }
    let ghost raw = as_ints(widths@);
    let mut k: usize = 0;
    while k < widths.len()
        invariant
            k <= widths@.len(),
            raw.len() == widths@.len(),
            raw == widths_loop(buffer@, *table, table.children@.len() as int),
            forall|j: int| 0 <= j < k ==> widths@[j] as int == (if raw[j] < 3 { 3 } else { raw[j] }),
            forall|j: int| k <= j < widths@.len() ==> widths@[j] as int == raw[j],
        decreases widths@.len() - k,
    {
        if widths[k] < 3 {
            widths.set(k, 3);
        }
        k += 1;
    }
    assert(as_ints(widths@) =~= column_widths(buffer@, *table));
    widths
}

/// The cell `i` of `cells`, empty where the row has fewer cells.
pub open spec fn cell_at(cells: Seq<Seq<char>>, i: int) -> Seq<char> {
    if 0 <= i < cells.len() { cells[i] } else { Seq::empty() }
}

/// The first `n` columns of a content row, each padded to its width.
pub open spec fn content_cols(cells: Seq<Seq<char>>, widths: Seq<int>, n: int) -> Seq<char>
    decreases n,
{
    if n <= 0 || n > widths.len() {
        Seq::empty()
    } else {
        let c = cell_at(cells, n - 1);
        let w = text_width(c) as int;
        let pad = if widths[n - 1] > w { widths[n - 1] - w } else { 0 };
        content_cols(cells, widths, n - 1) + " "@ + c + Seq::new(pad as nat, |k: int| ' ') + " │"@
    }
}

/// A header or data row: `│ cell │ cell │`, each cell padded to its
/// column's width.
pub open spec fn content_row(cells: Seq<Seq<char>>, widths: Seq<int>) -> Seq<char> {
    "│"@ + content_cols(cells, widths, widths.len() as int)
}

/// The first `n` columns of the delimiter row.
pub open spec fn delimiter_cols(widths: Seq<int>, n: int) -> Seq<char>
    decreases n,
{
    if n <= 0 || n > widths.len() {
        Seq::empty()
    } else {
        delimiter_cols(widths, n - 1) + Seq::new(sat_add(widths[n - 1], 2) as nat, |k: int| '─')
            + if n - 1 < widths.len() - 1 { "┼"@ } else { Seq::empty() }
    }
}

/// The delimiter row: `├─────┼─────┤`.
pub open spec fn delimiter_row(widths: Seq<int>) -> Seq<char> {
    "├"@ + delimiter_cols(widths, widths.len() as int) + "┤"@
}

/// Formats a header or data row.
pub fn format_content_row(cells: &[String], col_widths: &[usize]) -> (s: String)
    ensures
        s@ == content_row(views(cells@), as_ints(col_widths@)),
{
    let mut result = String::from_str("│");
    let mut i: usize = 0;
    while i < col_widths.len()
        invariant
            i <= col_widths@.len(),
            result@ == "│"@ + content_cols(views(cells@), as_ints(col_widths@), i as int),
        decreases col_widths@.len() - i,
    {
        let empty = String::new();
        let cell = if i < cells.len() { &cells[i] } else { &empty };
        let w = unicode_str_width(cell.as_str());
        let pad = col_widths[i].saturating_sub(w);
        result.append(" ");
        result.append(cell.as_str());
        result.append(repeat_char(' ', pad).as_str());
        result.append(" │");
        proof {
            assert(cell@ == cell_at(views(cells@), i as int));
            assert(result@ =~= "│"@ + content_cols(views(cells@), as_ints(col_widths@), (i + 1) as int));
        }
        i += 1;
    }
    result
}

/// Formats the delimiter row.
pub fn format_delimiter_row(col_widths: &[usize]) -> (s: String)
    ensures
        s@ == delimiter_row(as_ints(col_widths@)),
{
    let mut result = String::from_str("├");
    let mut i: usize = 0;
    while i < col_widths.len()
        invariant
            i <= col_widths@.len(),
            result@ == "├"@ + delimiter_cols(as_ints(col_widths@), i as int),
        decreases col_widths@.len() - i,
    {
        result.append(repeat_char('─', col_widths[i].saturating_add(2)).as_str());
        if i < col_widths.len() - 1 {
            result.append("┼");
        }
        proof {
            assert(result@ =~= "├"@ + delimiter_cols(as_ints(col_widths@), (i + 1) as int));
        }
        i += 1;
    }
    result.append("┤");
    result
}

/// Which row of a table a line is.
#[derive(Debug, Clone, Copy, PartialEq, Eq, Structural)]
pub enum RowKind {
    Header,
    Delimiter,
    Data,
}

/// The row holding the line `ls..le`, met going down from `node` towards
/// `ls`, and its cells; a data row without cells where none is met.
pub open spec fn row_of(t: Seq<char>, node: SyntaxNode, ls: int, le: int) -> (RowKind, Seq<Seq<char>>)
    decreases node,
{
    let k = node.kind@;
    let holds = node.start_byte <= ls && node.end_byte >= le;
    if k == "pipe_table_header"@ && holds {
        (RowKind::Header, row_cells(t, node))
    } else if k == "pipe_table_delimiter_row"@ && holds {
        (RowKind::Delimiter, Seq::empty())
    } else if k == "pipe_table_row"@ && holds {
        (RowKind::Data, row_cells(t, node))
    } else {
        let j = child_for_byte(node, ls, 0);
        if 0 <= j < node.children@.len() {
            row_of(t, node.children@[j], ls, le)
        } else {
            (RowKind::Data, Seq::empty())
        }
    }
}

/// Finds the row that holds the line and its cells.
pub fn identify_row(node: &SyntaxNode, buffer: &Buffer, line_start: usize, line_end: usize) -> (r: (RowKind, Vec<String>))
    requires
        node.fits(byte_len(buffer@) as int),
    ensures
        (r.0, views(r.1@)) == row_of(buffer@, *node, line_start as int, line_end as int),
    decreases node,
{
    let kind = node.kind.as_str();
    let holds = node.start_byte <= line_start && node.end_byte >= line_end;
    if same_text(kind, "pipe_table_header") && holds {
        return (RowKind::Header, extract_cells(node, buffer));
    }
    if same_text(kind, "pipe_table_delimiter_row") && holds {
        let none: Vec<String> = Vec::new();
        assert(views(none@) =~= Seq::<Seq<char>>::empty());
        return (RowKind::Delimiter, none);
    }
    if same_text(kind, "pipe_table_row") && holds {
        return (RowKind::Data, extract_cells(node, buffer));
    }
    match child_index_for_byte(node, line_start) {
        Some(j) => {
            proof { assert(node.children@[j as int].fits(byte_len(buffer@) as int)); }
            identify_row(&node.children[j], buffer, line_start, line_end)
        },
        None => {
            let none: Vec<String> = Vec::new();
            assert(views(none@) =~= Seq::<Seq<char>>::empty());
            (RowKind::Data, none)
        },
    }
}

pub open spec fn table_border() -> Style {
    Style { fg: Some(Color::DarkGray), ..Style::plain() }
}

/// A table line on `ls..le`: raw where there is no table on the way to it
/// or the table is revealed; otherwise the row drawn as a box row with
/// the table's column widths (a header row in bold).
pub open spec fn table_line_spans(t: Seq<char>, rv: Seq<(int, int)>, root: SyntaxNode, ls: int, le: int) -> Seq<SpanModel> {
    match find_on_path(root, ls, "pipe_table"@) {
        None => seq![text_model(t, ls, le, Style::plain())],
        Some(table) => if overlaps(rv, table.start_byte as int, table.end_byte as int) {
            seq![text_model(t, ls, le, Style::plain())]
        } else {
            let widths = column_widths(t, table);
            let (kind, cells) = row_of(t, root, ls, le);
            let shown = match kind {
                RowKind::Delimiter => delimiter_row(widths),
                _ => content_row(cells, widths),
            };
            let style = match kind {
                RowKind::Header => table_border().spec_add_modifier(Modifier { bold: true, ..Modifier::none() }),
                _ => table_border(),
            };
            seq![replaced_model(t, ls, le, shown, style)]
        },
    }
}

/// Renders a line of a pipe table: raw where the cursor reveals the table,
/// otherwise as a row of a box-drawn table with aligned columns.
pub fn render_pipe_table_line(
    root: &SyntaxNode,
    buffer: &Buffer,
    reveal_set: &RevealSet,
    line_start: usize,
    line_end: usize,
    spans: &mut Vec<RenderSpan>,
)
    requires
        root.fits(byte_len(buffer@) as int),
        line_start <= line_end <= byte_len(buffer@),
    ensures
        span_models(final(spans)@) == span_models(old(spans)@)
            + table_line_spans(buffer@, reveal_set.model(), *root, line_start as int, line_end as int),
{
    let ghost s0 = span_models(spans@);
    proof { lemma_found_fits(*root, line_start as int, "pipe_table"@, byte_len(buffer@) as int); }
    let table = match find_node_on_path(root, line_start, "pipe_table") {
        Some(tb) => tb,
        None => {
            emit(spans, text_span(line_start, line_end, buffer, Style::new()));
            proof { assert(span_models(spans@) =~= s0 + table_line_spans(buffer@, reveal_set.model(), *root, line_start as int, line_end as int)); }
            return;
        },
    };
    if reveal_set.is_revealed(&(table.start_byte..table.end_byte)) {
        emit(spans, text_span(line_start, line_end, buffer, Style::new()));
        proof { assert(span_models(spans@) =~= s0 + table_line_spans(buffer@, reveal_set.model(), *root, line_start as int, line_end as int)); }
        return;
    }
    let widths = analyze_table(table, buffer);
    let (kind, cells) = identify_row(root, buffer, line_start, line_end);
    let border = Style::new().fg(Color::DarkGray);
    let shown = match kind {
        RowKind::Delimiter => format_delimiter_row(widths.as_slice()),
        _ => format_content_row(cells.as_slice(), widths.as_slice()),
    };
    let style = match kind {
        RowKind::Header => border.add_modifier(Modifier::bold()),
        _ => border,
    };
    emit(spans, replaced_span(line_start, line_end, buffer, shown, style));
    proof { assert(span_models(spans@) =~= s0 + table_line_spans(buffer@, reveal_set.model(), *root, line_start as int, line_end as int)); }
}

/// A node found going down from a node that fits the text fits it too.
pub proof fn lemma_found_fits(node: SyntaxNode, b: int, kind: Seq<char>, total: int)
    requires
        node.fits(total),
    ensures
        find_on_path(node, b, kind) matches Some(n) ==> n.fits(total),
    decreases node,
{
    if node.kind@ != kind {
        let j = child_for_byte(node, b, 0);
        if 0 <= j < node.children@.len() {
            assert(node.children@[j].fits(total));
            lemma_found_fits(node.children@[j], b, kind, total);
        }
    }
}


proof fn lemma_row_lengths(cells: Seq<Seq<char>>, widths: Seq<int>, n: int)
    requires
        0 <= n <= widths.len(),
        forall|i: int| 0 <= i < widths.len() ==> 0 <= #[trigger] widths[i] && widths[i] + 2 <= usize::MAX,
        forall|i: int|
            0 <= i < widths.len() ==> text_width(#[trigger] cell_at(cells, i)) == cell_at(cells, i).len()
                && cell_at(cells, i).len() <= widths[i],
    ensures
        content_cols(cells, widths, n).len() == delimiter_cols(widths, n).len() + if n == widths.len() && n > 0 {
            1int
        } else {
            0int
        },
    decreases n,
{
    reveal_strlit(" ");
    reveal_strlit(" │");
    reveal_strlit("┼");
    if n > 0 {
        lemma_row_lengths(cells, widths, n - 1);
        let c = cell_at(cells, n - 1);
        assert(text_width(c) == c.len() && c.len() <= widths[n - 1]);
        assert(widths[n - 1] + 2 <= usize::MAX);
    }
}

/// A drawn table line is in bold exactly where it is the header row: a
/// line of a table the cursor does not reveal shows as one dark gray span,
/// bold on the header row and not bold on the delimiter and data rows;
/// a line shown raw (no table, or the table revealed) is not bold either.
pub proof fn law_table_header_bold(t: Seq<char>, rv: Seq<(int, int)>, root: SyntaxNode, ls: int, le: int)
    ensures
        table_line_spans(t, rv, root, ls, le).len() == 1,
        table_line_spans(t, rv, root, ls, le)[0].style.add_modifier.bold <==> (match find_on_path(
            root,
            ls,
            "pipe_table"@,
        ) {
            Some(table) => !overlaps(rv, table.start_byte as int, table.end_byte as int) && row_of(
                t,
                root,
                ls,
                le,
            ).0 == RowKind::Header,
            None => false,
        }),
        (match find_on_path(root, ls, "pipe_table"@) {
            Some(table) => !overlaps(rv, table.start_byte as int, table.end_byte as int),
            None => false,
        }) ==> table_line_spans(t, rv, root, ls, le)[0].style.fg == Some(Color::DarkGray),
{
}

/// The rows of a table line up: a header or data row is exactly as long as
/// the delimiter row, so every column border falls in the same place. This
/// holds where the table has at least one column and each cell shows one
/// column per char and is no wider than its column.
pub proof fn law_rows_align(cells: Seq<Seq<char>>, widths: Seq<int>)
    requires
        widths.len() >= 1,
        forall|i: int| 0 <= i < widths.len() ==> 0 <= #[trigger] widths[i] && widths[i] + 2 <= usize::MAX,
        forall|i: int|
            0 <= i < widths.len() ==> text_width(#[trigger] cell_at(cells, i)) == cell_at(cells, i).len()
                && cell_at(cells, i).len() <= widths[i],
    ensures
        content_row(cells, widths).len() == delimiter_row(widths).len(),
{
    reveal_strlit("│");
    reveal_strlit("├");
    reveal_strlit("┤");
    lemma_row_lengths(cells, widths, widths.len() as int);
}

} // verus!
