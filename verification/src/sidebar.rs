//! The sidebar: the file tree, how far it is scrolled, and which files
//! have unsaved changes.
use vstd::prelude::*;

use crate::filetree::{flat_models, FileTree, FlatEntry, FlatModel, NodeKind};
use crate::finder::{blank_string, blanks, fill_rows, first_chars, paint_fill, put, take_chars, Rect};
use crate::render::block::repeat_char;
use crate::render::code_block::sat_add;
use crate::render::widget::{paint_models, Paint, PaintModel};
use crate::style::{Color, Modifier, Style};

verus! {

pub struct SidebarState {
    pub file_tree: FileTree,
    pub scroll_offset: usize,
}

impl SidebarState {
    /// A sidebar over `file_tree`, scrolled to the top.
    pub fn new(file_tree: FileTree) -> (s: Self)
        ensures
            s.file_tree == file_tree,
            s.scroll_offset == 0,
    {
        SidebarState { file_tree, scroll_offset: 0 }
    }

    /// Scrolls just enough that the selected entry is among the
    /// `viewport_height` rows shown; a zero-height viewport changes nothing.
    pub fn adjust_scroll(&mut self, viewport_height: usize)
        requires
            old(self).scroll_offset + viewport_height <= usize::MAX,
        ensures
            final(self).file_tree == old(self).file_tree,
            ({
                let sel = old(self).file_tree.selected_index as int;
                let s0 = old(self).scroll_offset as int;
                let s1 = if sel < s0 { sel } else { s0 };
                final(self).scroll_offset == if viewport_height == 0 {
                    s0
                } else if sel >= s1 + viewport_height {
                    sel - viewport_height + 1
                } else {
                    s1
                }
            }),
    {
        if viewport_height == 0 {
            return;
        }
        let sel = self.file_tree.selected_index;
        if sel < self.scroll_offset {
            self.scroll_offset = sel;
        }
        if sel >= self.scroll_offset + viewport_height {
            self.scroll_offset = sel - viewport_height + 1;
        }
    }
}

/// Whether an optional path is `path`.
pub open spec fn names_path(o: Option<String>, path: Seq<char>) -> bool {
    match o {
        Some(p) => p@ == path,
        None => false,
    }
}

pub struct SidebarWidget<'a> {
    pub state: &'a SidebarState,
    pub focused: bool,
    pub dirty_paths: &'a [Option<String>],
}

impl<'a> SidebarWidget<'a> {
    /// Whether `path` is one of the paths with unsaved changes.
    pub fn is_dirty(&self, path: &String) -> (b: bool)
        ensures
            b == dirty_in(self.dirty_paths@, path@),
    {
        let mut i: usize = 0;
        while i < self.dirty_paths.len()
            invariant
                i <= self.dirty_paths@.len(),
                forall|j: int| 0 <= j < i ==> !#[trigger] names_path(self.dirty_paths@[j], path@),
            decreases self.dirty_paths@.len() - i,
        {
            match &self.dirty_paths[i] {
                Some(p) => {
                    if *p == *path {
                        assert(names_path(self.dirty_paths@[i as int], path@));
                        return true;
                    }
                },
                None => {},
            }
            i += 1;
        }
        false
    }
}

/// `path` is one of `paths`.
pub open spec fn dirty_in(paths: Seq<Option<String>>, path: Seq<char>) -> bool {
    exists|i: int| 0 <= i < paths.len() && #[trigger] names_path(paths[i], path)
}

/// The text of a sidebar entry: its indent (two columns a level), a
/// triangle for a directory (down when expanded) or blanks for a file,
/// its name, and a dot for a file with unsaved changes.
pub open spec fn entry_text(e: FlatModel, dirty: bool) -> Seq<char> {
    let indent = sat_add(e.depth, e.depth);
    let prefix = match e.kind {
        NodeKind::Directory => if e.expanded { "▼ "@ } else { "▶ "@ },
        NodeKind::File => "  "@,
    };
    let marker = if e.kind == NodeKind::File && dirty { " ●"@ } else { Seq::empty() };
    blanks(indent) + prefix + e.name + marker
}

pub open spec fn entry_style(e: FlatModel, selected: bool, focused: bool) -> Style {
    if selected {
        let base = Style { fg: Some(Color::White), bg: Some(Color::Indexed(238)), ..Style::plain() };
        if focused { base.spec_add_modifier(Modifier { bold: true, ..Modifier::none() }) } else { base }
    } else {
        match e.kind {
            NodeKind::Directory => Style { fg: Some(Color::Indexed(75)), bg: Some(Color::Indexed(235)), ..Style::plain() },
            NodeKind::File => Style { fg: Some(Color::White), bg: Some(Color::Indexed(235)), ..Style::plain() },
        }
    }
}

/// Entry rows `i..h` of the sidebar from entry `scroll` on, at `(x, y)`
/// with `cw` columns for text: each entry's text cut to the width, then
/// blanks to the width, in its style.
pub open spec fn entry_rows(
    entries: Seq<FlatModel>,
    dirty: Seq<Option<String>>,
    selected: int,
    focused: bool,
    scroll: int,
    x: int,
    y: int,
    cw: int,
    h: int,
    i: int,
) -> Seq<PaintModel>
    decreases h - i,
{
    if i >= h || scroll + i >= entries.len() {
        Seq::empty()
    } else {
        let e = entries[scroll + i];
        let shown = first_chars(entry_text(e, dirty_in(dirty, e.path)), cw);
        let style = entry_style(e, scroll + i == selected, focused);
        let mine = seq![PaintModel { x, y: y + i, text: shown, style }] + if shown.len() < cw {
            seq![PaintModel { x: x + shown.len(), y: y + i, text: blanks(cw - shown.len()), style }]
        } else {
            Seq::empty()
        };
        mine + entry_rows(entries, dirty, selected, focused, scroll, x, y, cw, h, i + 1)
    }
}

/// What the sidebar paints over `area`: its background (all but the last
/// column), then one row per entry from the scroll offset down.
pub open spec fn sidebar_paints(w: SidebarWidget, area: Rect) -> Seq<PaintModel> {
    let (x, y, aw, h) = (area.x as int, area.y as int, area.width as int, area.height as int);
    let cw = if aw > 1 { aw - 1 } else { 0 };
    fill_rows(x, y, cw, h, 0, Style { bg: Some(Color::Indexed(235)), ..Style::plain() })
        + entry_rows(flat_models(w.state.file_tree.flat_view@), w.dirty_paths@, w.state.file_tree.selected_index as int,
            w.focused, w.state.scroll_offset as int, x, y, cw, h, 0)
}

impl<'a> SidebarWidget<'a> {
    fn entry_string(&self, e: &FlatEntry) -> (s: String)
        ensures
            s@ == entry_text(e.model(), dirty_in(self.dirty_paths@, e.path@)),
    {
        let mut s = repeat_char(' ', e.depth.saturating_add(e.depth));
        match e.kind {
            NodeKind::Directory => s.append(if e.expanded { "▼ " } else { "▶ " }),
            NodeKind::File => s.append("  "),
        }
        s.append(e.name.as_str());
        if e.kind == NodeKind::File && self.is_dirty(&e.path) {
            s.append(" ●");
        }
        assert(s@ =~= entry_text(e.model(), dirty_in(self.dirty_paths@, e.path@)));
        s
    }

    /// What the sidebar paints over `area` (see `sidebar_paints`).
    pub fn draw(&self, area: Rect) -> (out: Vec<Paint>)
        requires
            area.x + area.width <= u16::MAX,
            area.y + area.height <= u16::MAX,
        ensures
            paint_models(out@) == sidebar_paints(*self, area),
    {
        let mut out: Vec<Paint> = Vec::new();
        let x = area.x as usize;
        let y = area.y as usize;
        let h = area.height as usize;
        let cw = (area.width as usize).saturating_sub(1);
        paint_fill(&mut out, x, y, cw, h, Style::new().bg(Color::Indexed(235)));
        let ghost d = paint_models(out@);
        let ghost entries = flat_models(self.state.file_tree.flat_view@);
        let flat = &self.state.file_tree.flat_view;
        let scroll = self.state.scroll_offset;
        let selected = self.state.file_tree.selected_index;
        let mut i: usize = 0;
        while i < h
            invariant
                i <= h,
                y + h <= u16::MAX,
                x + cw <= u16::MAX,
                entries == flat_models(flat@),
                *flat == self.state.file_tree.flat_view,
                scroll == self.state.scroll_offset,
                selected == self.state.file_tree.selected_index,
                paint_models(out@) + entry_rows(entries, self.dirty_paths@, selected as int, self.focused, scroll as int, x as int, y as int, cw as int, h as int, i as int)
                    == d + entry_rows(entries, self.dirty_paths@, selected as int, self.focused, scroll as int, x as int, y as int, cw as int, h as int, 0),
            decreases h - i,
        {
            let idx = match scroll.checked_add(i) {
                Some(v) => v,
                None => usize::MAX,
            };
            if idx >= flat.len() {
                i = h;
            } else {
                let ghost before = paint_models(out@);
                let e = &flat[idx];
                let text = self.entry_string(e);
                let shown = take_chars(text.as_str(), cw);
                let n = shown.as_str().unicode_len();
                let style = if idx == selected {
                    let base = Style::new().bg(Color::Indexed(238)).fg(Color::White);
                    if self.focused { base.add_modifier(Modifier::bold()) } else { base }
                } else {
                    match e.kind {
                        NodeKind::Directory => Style::new().bg(Color::Indexed(235)).fg(Color::Indexed(75)),
                        NodeKind::File => Style::new().bg(Color::Indexed(235)).fg(Color::White),
                    }
                };
                put(&mut out, x, y + i, shown, style);
                if n < cw {
                    put(&mut out, x + n, y + i, blank_string(cw - n), style);
                }
                proof {
                    assert(entries[idx as int] == e.model());
                    assert(paint_models(out@) + entry_rows(entries, self.dirty_paths@, selected as int, self.focused, scroll as int, x as int, y as int, cw as int, h as int, i + 1)
                        =~= before + entry_rows(entries, self.dirty_paths@, selected as int, self.focused, scroll as int, x as int, y as int, cw as int, h as int, i as int));
                }
                i += 1;
            }
        }
        out
    }
}

} // verus!
