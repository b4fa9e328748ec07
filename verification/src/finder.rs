//! The fuzzy file finder: a query, the markdown files it is matched
//! against, and the ranked matches.
use vstd::prelude::*;
use nucleo_matcher::pattern::{AtomKind, CaseMatching, Normalization, Pattern};
use nucleo_matcher::{Config, Matcher, Utf32Str};

use crate::chars::{string_pop, string_push};
use crate::paths::{paths_ordered, sort_paths, sorted_paths, texts};
use crate::render::block::repeat_char;
use crate::render::widget::{paint_models, Paint, PaintModel};
use crate::style::{Color, Modifier, Style};

verus! {

pub struct FilteredEntry {
    pub path: String,
    pub display: String,
    pub score: u32,
}

/// A filtered entry as plain values.
pub ghost struct EntryModel {
    pub path: Seq<char>,
    pub display: Seq<char>,
    pub score: u32,
}

impl FilteredEntry {
    pub open spec fn model(self) -> EntryModel {
        EntryModel { path: self.path@, display: self.display@, score: self.score }
    }
}

pub open spec fn entry_models(v: Seq<FilteredEntry>) -> Seq<EntryModel> {
    v.map_values(|e: FilteredEntry| e.model())
}

pub struct FinderState {
    pub query: String,
    pub all_files: Vec<String>,
    pub filtered: Vec<FilteredEntry>,
    pub selected_index: usize,
    pub scroll_offset: usize,
    pub root: String,
}

/// The path `path` as shown relative to `root` (unchanged where `root` is
/// not a prefix of it).
pub uninterp spec fn relative_to(path: Seq<char>, root: Seq<char>) -> Seq<char>;

/// Calls `Path::strip_prefix` and `Path::to_string_lossy`: the path shown
/// relative to the root, or whole where it lies elsewhere. The result is
/// named by `relative_to`.
#[verifier::external_body]
fn relative_display(path: &String, root: &String) -> (s: String)
    ensures
        s@ == relative_to(path@, root@),
{
    let p = std::path::Path::new(path.as_str());
    p.strip_prefix(root.as_str()).unwrap_or(p).to_string_lossy().into_owned()
}

/// The score `nucleo_matcher` gives `haystack` for the fuzzy pattern
/// `query` (smart case, smart normalization, path matching), or `None`
/// where it does not match.
pub uninterp spec fn fuzzy_score(query: Seq<char>, haystack: Seq<char>) -> Option<u32>;

/// Calls `Pattern::score` with a fuzzy `Pattern` built from `query` and a
/// `Matcher` configured for paths; the result is named by `fuzzy_score`.
#[verifier::external_body]
fn match_score(query: &String, haystack: &String) -> (r: Option<u32>)
    ensures
        r == fuzzy_score(query@, haystack@),
{
    let mut matcher = Matcher::new(Config::DEFAULT.match_paths());
    let pattern = Pattern::new(query.as_str(), CaseMatching::Smart, Normalization::Smart, AtomKind::Fuzzy);
    let mut buf = Vec::new();
    pattern.score(Utf32Str::new(haystack.as_str(), &mut buf), &mut matcher)
}

/// `sorted` (highest score first) with `e` placed after every entry that
/// scores at least as much.
pub open spec fn insert_ranked(sorted: Seq<EntryModel>, e: EntryModel) -> Seq<EntryModel> {
    let k = first_below(sorted, e.score, 0);
    sorted.take(k).push(e) + sorted.skip(k)
}

/// The first index from `i` whose score is below `score`, or the length.
pub open spec fn first_below(s: Seq<EntryModel>, score: u32, i: int) -> int
    decreases s.len() - i,
{
    if i >= s.len() {
        s.len() as int
    } else if s[i].score < score {
        i
    } else {
        first_below(s, score, i + 1)
    }
}

/// Entries ordered by score, highest first; entries with equal scores keep
/// their order (a stable sort).
pub open spec fn ranked(s: Seq<EntryModel>) -> Seq<EntryModel>
    decreases s.len(),
{
    if s.len() == 0 {
        Seq::empty()
    } else {
        insert_ranked(ranked(s.drop_last()), s.last())
    }
}

/// The files of `files` that match `query`, in order, with their scores.
pub open spec fn matches_of(files: Seq<String>, root: Seq<char>, query: Seq<char>) -> Seq<EntryModel>
    decreases files.len(),
{
    if files.len() == 0 {
        Seq::empty()
    } else {
        let rest = matches_of(files.drop_last(), root, query);
        let f = files.last();
        let d = relative_to(f@, root);
        match fuzzy_score(query, d) {
            Some(sc) => rest.push(EntryModel { path: f@, display: d, score: sc }),
            None => rest,
        }
    }
}

/// Every file, unranked, with score zero.
pub open spec fn all_entries(files: Seq<String>, root: Seq<char>) -> Seq<EntryModel> {
    Seq::new(files.len(), |i: int| EntryModel { path: files[i]@, display: relative_to(files[i]@, root), score: 0 })
}

/// What the finder lists for `query`: every file when the query is empty,
/// else the matches, best first.
pub open spec fn listing(files: Seq<String>, root: Seq<char>, query: Seq<char>) -> Seq<EntryModel> {
    if query.len() == 0 {
        all_entries(files, root)
    } else {
        ranked(matches_of(files, root, query))
    }
}

proof fn lemma_entries_push(s: Seq<FilteredEntry>, e: FilteredEntry)
    ensures
        entry_models(s.push(e)) == entry_models(s).push(e.model()),
{
    assert(entry_models(s.push(e)) =~= entry_models(s).push(e.model()));
}

proof fn lemma_first_below_bounds(s: Seq<EntryModel>, score: u32, i: int)
    requires
        0 <= i <= s.len(),
    ensures
        i <= first_below(s, score, i) <= s.len(),
        forall|j: int| i <= j < first_below(s, score, i) ==> s[j].score >= score,
        first_below(s, score, i) < s.len() ==> s[first_below(s, score, i)].score < score,
    decreases s.len() - i,
{
    if i < s.len() && s[i].score >= score {
        lemma_first_below_bounds(s, score, i + 1);
    }
}

/// Ranks entries by score, highest first, keeping the order of equal
/// scores.
pub fn rank_by_score(entries: Vec<FilteredEntry>) -> (out: Vec<FilteredEntry>)
    ensures
        entry_models(out@) == ranked(entry_models(entries@)),
{
    let mut out: Vec<FilteredEntry> = Vec::new();
    let mut rest = entries;
    let ghost input = entry_models(rest@);
    let mut taken: usize = 0;
    let n = rest.len();
    proof {
        assert(entry_models(out@) =~= ranked(input.take(0)));
    }
    while rest.len() > 0
        invariant
            n == input.len(),
            taken + rest@.len() == n,
            entry_models(rest@) == input.skip(taken as int),
            entry_models(out@) == ranked(input.take(taken as int)),
        decreases rest@.len(),
    {
        let ghost before = rest@;
        let e = rest.remove(0);
        proof {
            assert(e.model() == entry_models(before)[0]);
            assert(e.model() == input[taken as int]);
            assert(input.take(taken + 1).drop_last() =~= input.take(taken as int));
            assert(input.take(taken + 1).last() == input[taken as int]);
            assert forall|j: int| 0 <= j < rest@.len() implies
                #[trigger] entry_models(rest@)[j] == input.skip(taken + 1)[j] by {
                assert(rest@[j] == before[j + 1]);
                assert(entry_models(before)[j + 1] == input.skip(taken as int)[j + 1]);
            }
            assert(entry_models(rest@) =~= input.skip(taken + 1));
        }
        let ghost sorted = entry_models(out@);
        let mut k: usize = 0;
        while k < out.len() && out[k].score >= e.score
            invariant
                k <= out@.len(),
                sorted == entry_models(out@),
                first_below(sorted, e.score, 0) == first_below(sorted, e.score, k as int),
            decreases out@.len() - k,
        {
            k += 1;
        }
        proof {
            assert(first_below(sorted, e.score, k as int) == k);
        }
        out.insert(k, e);
        taken += 1;
        proof {
            assert(entry_models(out@) =~= insert_ranked(sorted, e.model()));
        }
    }
    proof {
        assert(input.take(n as int) =~= input);
    }
    out
}

/// Every file, unranked, with score zero, built in order.
fn list_all(files: &Vec<String>, root: &String) -> (out: Vec<FilteredEntry>)
    ensures
        entry_models(out@) == all_entries(files@, root@),
{
    let mut out: Vec<FilteredEntry> = Vec::new();
    let mut i: usize = 0;
    while i < files.len()
        invariant
            i <= files@.len(),
            entry_models(out@) == all_entries(files@, root@).take(i as int),
        decreases files@.len() - i,
    {
        let display = relative_display(&files[i], root);
        let e = FilteredEntry { path: files[i].clone(), display, score: 0 };
        proof { lemma_entries_push(out@, e); }
        out.push(e);
        i += 1;
        assert(entry_models(out@) =~= all_entries(files@, root@).take(i as int));
    }
    assert(all_entries(files@, root@).take(i as int) =~= all_entries(files@, root@));
    out
}

/// The files that match `query`, in order, with their scores.
fn collect_matches(files: &Vec<String>, root: &String, query: &String) -> (out: Vec<FilteredEntry>)
    ensures
        entry_models(out@) == matches_of(files@, root@, query@),
{
    let mut out: Vec<FilteredEntry> = Vec::new();
    let mut i: usize = 0;
    assert(files@.take(0) =~= Seq::<String>::empty());
    while i < files.len()
        invariant
            i <= files@.len(),
            entry_models(out@) == matches_of(files@.take(i as int), root@, query@),
        decreases files@.len() - i,
    {
        let display = relative_display(&files[i], root);
        let scored = match_score(query, &display);
        proof {
            assert(files@.take(i + 1).drop_last() =~= files@.take(i as int));
            assert(files@.take(i + 1).last() == files@[i as int]);
        }
        match scored {
            Some(score) => {
                let e = FilteredEntry { path: files[i].clone(), display, score };
                proof { lemma_entries_push(out@, e); }
                out.push(e);
            },
            None => {},
        }
        i += 1;
    }
    assert(files@.take(i as int) =~= files@);
    out
}

impl FinderState {
    /// A finder over the files `all_files` found under `root`, kept in
    /// path order, with an empty query: every file is listed.
    pub fn new(root: String, all_files: Vec<String>) -> (f: Self)
        ensures
            f.query@.len() == 0,
            texts(f.all_files@) == sorted_paths(texts(all_files@)),
            texts(f.all_files@).to_multiset() == texts(all_files@).to_multiset(),
            paths_ordered(texts(f.all_files@)),
            f.root@ == root@,
            entry_models(f.filtered@) == all_entries(f.all_files@, root@),
            f.selected_index == 0,
            f.scroll_offset == 0,
    {
        let all_files = sort_paths(&all_files);
        let filtered = list_all(&all_files, &root);
        FinderState { query: String::new(), all_files, filtered, selected_index: 0, scroll_offset: 0, root }
    }

    /// Lists the files for the current query (see `listing`) and selects the
    /// first.
    pub fn refilter(&mut self)
        ensures
            final(self).query == old(self).query,
            final(self).all_files == old(self).all_files,
            final(self).root == old(self).root,
            entry_models(final(self).filtered@) == listing(old(self).all_files@, old(self).root@, old(self).query@),
            final(self).selected_index == 0,
            final(self).scroll_offset == 0,
    {
        if self.query.as_str().unicode_len() == 0 {
            self.filtered = list_all(&self.all_files, &self.root);
        } else {
            let found = collect_matches(&self.all_files, &self.root, &self.query);
            self.filtered = rank_by_score(found);
        }
        self.selected_index = 0;
        self.scroll_offset = 0;
    }

    /// Appends `ch` to the query and lists again.
    pub fn insert_char(&mut self, ch: char)
        ensures
            final(self).query@ == old(self).query@.push(ch),
            final(self).all_files == old(self).all_files,
            final(self).root == old(self).root,
            entry_models(final(self).filtered@) == listing(old(self).all_files@, old(self).root@, old(self).query@.push(ch)),
            final(self).selected_index == 0,
            final(self).scroll_offset == 0,
    {
        string_push(&mut self.query, ch);
        self.refilter();
    }

    /// Drops the last char of the query, if any, and lists again.
    pub fn delete_backward(&mut self)
        ensures
            final(self).query@ == (if old(self).query@.len() == 0 {
                old(self).query@
            } else {
                old(self).query@.drop_last()
            }),
            final(self).all_files == old(self).all_files,
            final(self).root == old(self).root,
            entry_models(final(self).filtered@) == listing(old(self).all_files@, old(self).root@, final(self).query@),
            final(self).selected_index == 0,
            final(self).scroll_offset == 0,
    {
        let _ = string_pop(&mut self.query);
        self.refilter();
    }

    pub fn move_up(&mut self)
        ensures
            final(self).query == old(self).query,
            final(self).all_files == old(self).all_files,
            final(self).root == old(self).root,
            final(self).filtered == old(self).filtered,
            final(self).scroll_offset == old(self).scroll_offset,
            final(self).selected_index == (if old(self).selected_index > 0 {
                (old(self).selected_index - 1) as usize
            } else {
                0
            }),
    {
        if self.selected_index > 0 {
            self.selected_index -= 1;
        }
    }

    pub fn move_down(&mut self)
        ensures
            final(self).query == old(self).query,
            final(self).all_files == old(self).all_files,
            final(self).root == old(self).root,
            final(self).filtered == old(self).filtered,
            final(self).scroll_offset == old(self).scroll_offset,
            final(self).selected_index == (if old(self).filtered@.len() > 0
                && old(self).selected_index < old(self).filtered@.len() - 1 {
                (old(self).selected_index + 1) as usize
            } else {
                old(self).selected_index
            }),
    {
        if self.filtered.len() > 0 && self.selected_index < self.filtered.len() - 1 {
            self.selected_index += 1;
        }
    }

    pub fn selected_path(&self) -> (p: Option<&String>)
        ensures
            p == (if self.selected_index < self.filtered@.len() {
                Some(&self.filtered@[self.selected_index as int].path)
            } else {
                None
            }),
    {
        if self.selected_index < self.filtered.len() {
            Some(&self.filtered[self.selected_index].path)
        } else {
            None
        }
    }
}

/// Typing a char into the finder and deleting it again gives the query
/// back, and with it the list: after `insert_char(ch)` (from `f0` to
/// `f1`) and `delete_backward` (from `f1` to `f2`), the query is `f0`'s
/// and the list is the listing of that query, which is `f0`'s own list
/// wherever `f0` listed its query.
pub proof fn law_type_then_delete(f0: FinderState, f1: FinderState, f2: FinderState, ch: char)
    requires
        f1.query@ == f0.query@.push(ch),
        f1.all_files == f0.all_files,
        f1.root == f0.root,
        f2.query@ == (if f1.query@.len() == 0 { f1.query@ } else { f1.query@.drop_last() }),
        f2.all_files == f1.all_files,
        f2.root == f1.root,
        entry_models(f2.filtered@) == listing(f1.all_files@, f1.root@, f2.query@),
    ensures
        f2.query@ == f0.query@,
        entry_models(f2.filtered@) == listing(f0.all_files@, f0.root@, f0.query@),
        entry_models(f0.filtered@) == listing(f0.all_files@, f0.root@, f0.query@) ==> entry_models(f2.filtered@)
            == entry_models(f0.filtered@),
{
    assert(f0.query@.push(ch).drop_last() =~= f0.query@);
}

/// The finder lists its matches best first, and lists each of them once:
/// ranking orders entries by score, highest first, and keeps exactly the
/// entries it was given.
pub proof fn law_ranked(s: Seq<EntryModel>)
    ensures
        forall|i: int, j: int| 0 <= i < j < ranked(s).len() ==> ranked(s)[i].score >= ranked(s)[j].score,
        ranked(s).to_multiset() == s.to_multiset(),
    decreases s.len(),
{
    broadcast use vstd::seq_lib::group_to_multiset_ensures;
    if s.len() > 0 {
        let r = ranked(s.drop_last());
        let e = s.last();
        law_ranked(s.drop_last());
        lemma_first_below_bounds(r, e.score, 0);
        let k = first_below(r, e.score, 0);
        let out = insert_ranked(r, e);
        assert(out =~= r.insert(k, e));
        assert(s =~= s.drop_last().push(e));
        assert forall|i: int, j: int| 0 <= i < j < out.len() implies out[i].score >= out[j].score by {
            if j < k {
            } else if j == k {
                assert(out[i] == r[i]);
            } else if i < k {
                assert(out[i] == r[i]);
                assert(out[j] == r[j - 1]);
                if j - 1 > i {
                } else {
                }
            } else if i == k {
                assert(out[j] == r[j - 1]);
            } else {
                assert(out[i] == r[i - 1]);
                assert(out[j] == r[j - 1]);
            }
        }
    }
}

/// A screen rectangle.
#[derive(Debug, Clone, Copy, PartialEq, Eq, Structural)]
pub struct Rect {
    pub x: u16,
    pub y: u16,
    pub width: u16,
    pub height: u16,
}

/// The finder popup's place in `area` (see `FinderWidget::popup_area`).
pub open spec fn popup_rect(area: Rect) -> Rect {
    let w0 = area.width * 60 / 100;
    let w1 = if w0 < 30 { 30 } else { w0 };
    let w = if w1 < area.width { w1 } else { area.width as int };
    let h0 = area.height * 50 / 100;
    let h1 = if h0 < 10 { 10 } else { h0 };
    let h = if h1 < area.height { h1 } else { area.height as int };
    Rect { x: (area.x + (area.width - w) / 2) as u16, y: (area.y + (area.height - h) / 3) as u16, width: w as u16, height: h as u16 }
}

/// The finder popup over a finder's state.
pub struct FinderWidget<'a> {
    pub state: &'a FinderState,
}

impl<'a> FinderWidget<'a> {
    /// The popup's place in `area`: 60% of its width (at least 30 columns)
    /// and 50% of its height (at least 10 rows), never more than the area,
    /// centered across and a third of the way down.
    pub fn popup_area(area: Rect) -> (r: Rect)
        requires
            area.width as int * 60 <= u16::MAX,
            area.height as int * 50 <= u16::MAX,
            area.x + area.width <= u16::MAX,
            area.y + area.height <= u16::MAX,
        ensures
            r == popup_rect(area),
    {
        let w0 = area.width * 60 / 100;
        let w1 = if w0 < 30 { 30 } else { w0 };
        let width = if w1 < area.width { w1 } else { area.width };
        let h0 = area.height * 50 / 100;
        let h1 = if h0 < 10 { 10 } else { h0 };
        let height = if h1 < area.height { h1 } else { area.height };
        let x = area.x + (area.width - width) / 2;
        let y = area.y + (area.height - height) / 3;
        Rect { x, y, width, height }
    }

    /// The first result shown so that the selection is among the
    /// `results_height` rows of results.
    pub fn results_scroll(&self, results_height: usize) -> (s: usize)
        requires
            self.state.scroll_offset + results_height <= usize::MAX,
            self.state.selected_index < usize::MAX,
        ensures
            ({
                let sel = self.state.selected_index as int;
                let s0 = self.state.scroll_offset as int;
                let s1 = if sel < s0 { sel } else { s0 };
                s == if sel >= s1 + results_height { sel - results_height + 1 } else { s1 }
            }),
    {
        let mut scroll = self.state.scroll_offset;
        if self.state.selected_index < scroll {
            scroll = self.state.selected_index;
        }
        if self.state.selected_index >= scroll + results_height {
            scroll = self.state.selected_index - results_height + 1;
        }
        scroll
    }
}

pub open spec fn blanks(n: int) -> Seq<char> {
    Seq::new(if n > 0 { n as nat } else { 0 }, |i: int| ' ')
}

pub open spec fn rule(n: int) -> Seq<char> {
    Seq::new(if n > 0 { n as nat } else { 0 }, |i: int| '─')
}

/// At most the first `n` chars of `s`.
pub open spec fn first_chars(s: Seq<char>, n: int) -> Seq<char> {
    if n < s.len() { s.take(if n > 0 { n } else { 0 }) } else { s }
}

pub open spec fn finder_border() -> Style {
    Style { fg: Some(Color::Indexed(75)), bg: Some(Color::Indexed(236)), ..Style::plain() }
}

pub open spec fn finder_bg() -> Style {
    Style { fg: Some(Color::White), bg: Some(Color::Indexed(236)), ..Style::plain() }
}

pub open spec fn finder_input_style() -> Style {
    Style { fg: Some(Color::White), bg: Some(Color::Indexed(238)), ..Style::plain() }
}

/// Rows `r..h` of a blank block `w` wide at `(x, y)`.
pub open spec fn fill_rows(x: int, y: int, w: int, h: int, r: int, style: Style) -> Seq<PaintModel>
    decreases h - r,
{
    if r >= h {
        Seq::empty()
    } else {
        seq![PaintModel { x, y: y + r, text: blanks(w), style }] + fill_rows(x, y, w, h, r + 1, style)
    }
}

/// The side borders of rows `r..h - 1` of a box `w` wide at `(x, y)`.
pub open spec fn side_rows(x: int, y: int, w: int, h: int, r: int) -> Seq<PaintModel>
    decreases h - r,
{
    if r >= h - 1 {
        Seq::empty()
    } else {
        seq![
            PaintModel { x, y: y + r, text: "│"@, style: finder_border() },
            PaintModel { x: x + w - 1, y: y + r, text: "│"@, style: finder_border() },
        ] + side_rows(x, y, w, h, r + 1)
    }
}

/// Result rows `i..rows` of the listing from `scroll` on, `w` wide at
/// `(x, y)`: each row filled in its style, then the entry's text.
pub open spec fn result_rows(entries: Seq<EntryModel>, selected: int, scroll: int, x: int, y: int, w: int, inner: int, rows: int, i: int) -> Seq<PaintModel>
    decreases rows - i,
{
    if i >= rows || scroll + i >= entries.len() {
        Seq::empty()
    } else {
        let idx = scroll + i;
        let style = if idx == selected {
            finder_input_style().spec_add_modifier(Modifier { bold: true, ..Modifier::none() })
        } else {
            finder_bg()
        };
        let text = first_chars(" "@ + entries[idx].display, inner + 2);
        seq![
            PaintModel { x: x + 1, y: y + 3 + i, text: blanks(w - 2), style },
            PaintModel { x: x + 1, y: y + 3 + i, text, style },
        ] + result_rows(entries, selected, scroll, x, y, w, inner, rows, i + 1)
    }
}

/// The first result shown: the stored offset, moved just enough to show
/// the selection among `rows` rows.
pub open spec fn shown_from(selected: int, offset: int, rows: int) -> int {
    let s1 = if selected < offset { selected } else { offset };
    if selected >= crate::render::code_block::sat_add(s1, rows) { crate::render::code_block::sat_add(selected - rows, 1) } else { s1 }
}

/// The frame of the popup at `(x, y)`, `w` by `h`: borders, the query
/// row with the count of files listed, and the rule under it.
pub open spec fn frame_paints(f: FinderState, x: int, y: int, w: int, h: int) -> Seq<PaintModel> {
    let inner = if w > 4 { w - 4 } else { 0 };
    let count = crate::render::widget::decimal(f.filtered@.len()) + " files"@;
    let count_len = crate::editor::text::byte_len(count) as usize as int;
    let count_x = if x + w - 1 > count_len { x + w - 1 - count_len } else { 0 };
    seq![
        PaintModel { x, y, text: "┌"@ + rule(w - 2) + "┐"@, style: finder_border() },
        PaintModel { x, y: y + h - 1, text: "└"@ + rule(w - 2) + "┘"@, style: finder_border() },
    ] + side_rows(x, y, w, h, 1) + seq![
        PaintModel { x: x + 1, y: y + 1, text: blanks(w - 2), style: finder_input_style() },
        PaintModel { x: x + 1, y: y + 1, text: first_chars(" > "@ + f.query@, inner + 2), style: finder_input_style() },
        PaintModel { x: x + 1, y: y + 2, text: rule(w - 2), style: finder_border() },
        PaintModel { x: count_x, y: y + 1, text: count, style: Style { fg: Some(Color::Indexed(245)), bg: Some(Color::Indexed(236)), ..Style::plain() } },
    ]
}

/// What the finder popup paints over `area`: a box with the query (` > `
/// and the query) and the count of files listed on its first row, a rule,
/// then as many results as fit, the selected one highlighted.
pub open spec fn finder_paints(f: FinderState, area: Rect) -> Seq<PaintModel> {
    let p = popup_rect(area);
    let (x, y, w, h) = (p.x as int, p.y as int, p.width as int, p.height as int);
    if w == 0 || h == 0 {
        Seq::empty()
    } else {
        let inner = if w > 4 { w - 4 } else { 0 };
        let rows = if h > 4 { h - 4 } else { 0 };
        let scroll = shown_from(f.selected_index as int, f.scroll_offset as int, rows);
        fill_rows(x, y, w, h, 0, finder_bg()) + frame_paints(f, x, y, w, h)
            + result_rows(entry_models(f.filtered@), f.selected_index as int, scroll, x, y, w, inner, rows, 0)
    }
}

pub(crate) fn put(out: &mut Vec<Paint>, x: usize, y: usize, text: String, style: Style)
    ensures
        paint_models(final(out)@) == paint_models(old(out)@).push(PaintModel { x: x as int, y: y as int, text: text@, style }),
{
    out.push(Paint { x, y, text, style });
    assert(paint_models(out@) =~= paint_models(old(out)@).push(PaintModel { x: x as int, y: y as int, text: text@, style }));
}

pub(crate) fn blank_string(n: usize) -> (s: String)
    ensures
        s@ == blanks(n as int),
{
    let s = repeat_char(' ', n);
    assert(s@ =~= blanks(n as int));
    s
}

fn rule_string(n: usize) -> (s: String)
    ensures
        s@ == rule(n as int),
{
    let s = repeat_char('─', n);
    assert(s@ =~= rule(n as int));
    s
}

/// At most the first `n` chars of `s`.
pub(crate) fn take_chars(s: &str, n: usize) -> (r: String)
    ensures
        r@ == first_chars(s@, n as int),
{
    let len = s.unicode_len();
    if n < len {
        String::from_str(s.substring_char(0, n))
    } else {
        String::from_str(s)
    }
}

pub(crate) fn paint_fill(out: &mut Vec<Paint>, x: usize, y: usize, w: usize, h: usize, style: Style)
    requires
        y + h <= usize::MAX,
    ensures
        paint_models(final(out)@) == paint_models(old(out)@) + fill_rows(x as int, y as int, w as int, h as int, 0, style),
{
    let ghost o0 = paint_models(out@);
    let mut r: usize = 0;
    while r < h
        invariant
            r <= h,
            y + h <= usize::MAX,
            paint_models(out@) + fill_rows(x as int, y as int, w as int, h as int, r as int, style)
                == o0 + fill_rows(x as int, y as int, w as int, h as int, 0, style),
        decreases h - r,
    {
        let ghost b = paint_models(out@);
        put(out, x, y + r, blank_string(w), style);
        assert(paint_models(out@) + fill_rows(x as int, y as int, w as int, h as int, r + 1, style)
            =~= b + fill_rows(x as int, y as int, w as int, h as int, r as int, style));
        r += 1;
    }
}

fn paint_sides(out: &mut Vec<Paint>, x: usize, y: usize, w: usize, h: usize, border: Style)
    requires
        y + h <= usize::MAX,
        x + w <= usize::MAX,
        w >= 1,
        h >= 1,
        border == finder_border(),
    ensures
        paint_models(final(out)@) == paint_models(old(out)@) + side_rows(x as int, y as int, w as int, h as int, 1),
{
    let ghost o0 = paint_models(out@);
    let mut r: usize = 1;
    while r < h - 1
        invariant
            1 <= r,
            y + h <= usize::MAX,
            x + w <= usize::MAX,
            w >= 1,
            h >= 1,
            border == finder_border(),
            paint_models(out@) + side_rows(x as int, y as int, w as int, h as int, r as int)
                == o0 + side_rows(x as int, y as int, w as int, h as int, 1),
        decreases h - r,
    {
        let ghost b = paint_models(out@);
        put(out, x, y + r, String::from_str("│"), border);
        put(out, x + w - 1, y + r, String::from_str("│"), border);
        assert(paint_models(out@) + side_rows(x as int, y as int, w as int, h as int, r + 1)
            =~= b + side_rows(x as int, y as int, w as int, h as int, r as int));
        r += 1;
    }
}

fn paint_frame(f: &FinderState, x: usize, y: usize, w: usize, h: usize, out: &mut Vec<Paint>)
    requires
        y + h <= u16::MAX,
        x + w <= u16::MAX,
        w >= 1,
        h >= 1,
    ensures
        paint_models(final(out)@) == paint_models(old(out)@) + frame_paints(*f, x as int, y as int, w as int, h as int),
{
    let ghost o0 = paint_models(out@);
    let border = Style::new().fg(Color::Indexed(75)).bg(Color::Indexed(236));
    let input = Style::new().bg(Color::Indexed(238)).fg(Color::White);
    let mut top = String::from_str("┌");
    top.append(rule_string(w.saturating_sub(2)).as_str());
    top.append("┐");
    put(out, x, y, top, border);
    let mut bottom = String::from_str("└");
    bottom.append(rule_string(w.saturating_sub(2)).as_str());
    bottom.append("┘");
    put(out, x, y + h - 1, bottom, border);
    let ghost b = paint_models(out@);
    paint_sides(out, x, y, w, h, border);
    let ghost c = paint_models(out@);
    let inner = w.saturating_sub(4);
    put(out, x + 1, y + 1, blank_string(w.saturating_sub(2)), input);
    let mut line = String::from_str(" > ");
    line.append(f.query.as_str());
    put(out, x + 1, y + 1, take_chars(line.as_str(), inner + 2), input);
    put(out, x + 1, y + 2, rule_string(w.saturating_sub(2)), border);
    let mut count = crate::render::widget::decimal_string(f.filtered.len());
    count.append(" files");
    let count_len = count.as_str().len();
    let count_x = if x + w - 1 > count_len { x + w - 1 - count_len } else { 0 };
    put(out, count_x, y + 1, count, Style::new().bg(Color::Indexed(236)).fg(Color::Indexed(245)));
    proof {
        assert(paint_models(out@) =~= o0 + frame_paints(*f, x as int, y as int, w as int, h as int));
    }
}

fn paint_results(f: &FinderState, scroll: usize, x: usize, y: usize, w: usize, rows: usize, out: &mut Vec<Paint>)
    requires
        rows == 0 || y + rows + 4 <= u16::MAX,
        x + w <= u16::MAX,
        w >= 1,
    ensures
        paint_models(final(out)@) == paint_models(old(out)@) + result_rows(entry_models(f.filtered@),
            f.selected_index as int, scroll as int, x as int, y as int, w as int, if w > 4 { w - 4 } else { 0 }, rows as int, 0),
{
    let ghost d = paint_models(out@);
    let ghost entries = entry_models(f.filtered@);
    let bg = Style::new().bg(Color::Indexed(236)).fg(Color::White);
    let input = Style::new().bg(Color::Indexed(238)).fg(Color::White);
    let inner = w.saturating_sub(4);
    let sel = f.selected_index;
    let mut i: usize = 0;
    while i < rows
        invariant
            i <= rows,
            rows == 0 || y + rows + 4 <= u16::MAX,
            x + w <= u16::MAX,
            w >= 1,
            inner == (if w > 4 { w - 4 } else { 0 }),
            sel == f.selected_index,
            entries == entry_models(f.filtered@),
            bg == finder_bg(),
            input == finder_input_style(),
            paint_models(out@) + result_rows(entries, sel as int, scroll as int, x as int, y as int, w as int, inner as int, rows as int, i as int)
                == d + result_rows(entries, sel as int, scroll as int, x as int, y as int, w as int, inner as int, rows as int, 0),
        decreases rows - i,
    {
        let idx = match scroll.checked_add(i) {
            Some(v) => v,
            None => usize::MAX,
        };
        if idx >= f.filtered.len() {
            i = rows;
        } else {
            let ghost before = paint_models(out@);
            let style = if idx == sel { input.add_modifier(Modifier::bold()) } else { bg };
            let mut text = String::from_str(" ");
            text.append(f.filtered[idx].display.as_str());
            put(out, x + 1, y + 3 + i, blank_string(w.saturating_sub(2)), style);
            put(out, x + 1, y + 3 + i, take_chars(text.as_str(), inner + 2), style);
            proof {
                assert(entries[idx as int].display == f.filtered@[idx as int].display@);
                assert(paint_models(out@) + result_rows(entries, sel as int, scroll as int, x as int, y as int, w as int, inner as int, rows as int, i + 1)
                    =~= before + result_rows(entries, sel as int, scroll as int, x as int, y as int, w as int, inner as int, rows as int, i as int));
            }
            i += 1;
        }
    }
}

impl<'a> FinderWidget<'a> {
    /// What the popup paints over `area` (see `finder_paints`).
    pub fn draw(&self, area: Rect) -> (out: Vec<Paint>)
        requires
            area.width as int * 60 <= u16::MAX,
            area.height as int * 50 <= u16::MAX,
            area.x + area.width <= u16::MAX,
            area.y + area.height <= u16::MAX,
        ensures
            paint_models(out@) == finder_paints(*self.state, area),
    {
        let mut out: Vec<Paint> = Vec::new();
        let popup = Self::popup_area(area);
        let x = popup.x as usize;
        let y = popup.y as usize;
        let w = popup.width as usize;
        let h = popup.height as usize;
        if w == 0 || h == 0 {
            assert(paint_models(out@) =~= finder_paints(*self.state, area));
            return out;
        }
        paint_fill(&mut out, x, y, w, h, Style::new().bg(Color::Indexed(236)).fg(Color::White));
        paint_frame(self.state, x, y, w, h, &mut out);
        let rows = h.saturating_sub(4);
        let sel = self.state.selected_index;
        let s0 = self.state.scroll_offset;
        let s1 = if sel < s0 { sel } else { s0 };
        let scroll = if sel >= s1.saturating_add(rows) { (sel - rows).saturating_add(1) } else { s1 };
        paint_results(self.state, scroll, x, y, w, rows, &mut out);
        proof {
            assert(paint_models(out@) =~= finder_paints(*self.state, area));
        }
        out
    }
}

} // verus!
