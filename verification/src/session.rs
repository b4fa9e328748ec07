//! The editing session: open tabs, the sidebar and the finder, which of
//! them takes the keys, and what each key does to them. Work that needs
//! the outside world (files, the clipboard, the directory walk) comes back
//! as a request for the caller to carry out.
use vstd::prelude::*;

use crate::editor::cursor::{down_of, end_of, left_of, right_of, up_of, word_left_of, word_right_of, Cursor};
use crate::editor::history::{apply_ops, revert_ops};
use crate::editor::selection::Selection;
use crate::editor::text::{byte_len, char_index, line_count, line_len};
use crate::editor::undo::sealed;
use crate::editor::{active_selection, back_of, cut_selection, cuts, pasted, selection_after, typed, Editor};
use crate::filetree::{flat_models, flatten, toggled, FileTree, NodeKind};
use crate::finder::{entry_models, listing, FinderState};
use crate::input::{app_command, map_app_key_event, AppCommand, EditorCommand, KeyCode, KeyEvent, KeyEventKind};
use crate::sidebar::{names_path, SidebarState};

verus! {

#[derive(Debug, Clone, Copy, PartialEq, Eq, Structural)]
pub enum FocusZone {
    Editor,
    Sidebar,
    Finder,
}

pub struct TabEntry {
    pub editor: Editor,
}

/// What the caller is asked to do after a key.
#[derive(Debug, PartialEq, Eq)]
pub enum Request {
    /// Nothing outside the session.
    Nothing,
    /// Open the file at this path in a tab (or switch to its tab).
    OpenFile(String),
    /// Walk the working directory and put a finder over it.
    OpenFinder,
    /// Write the active document to its file.
    SaveActive,
    /// Put this text on the clipboard.
    SetClipboard(String),
    /// Read the clipboard and paste it into the active document.
    Paste,
}

pub struct Session {
    pub tabs: Vec<TabEntry>,
    pub active_tab: usize,
    pub should_quit: bool,
    pub sidebar: Option<SidebarState>,
    pub sidebar_visible: bool,
    pub sidebar_width: u16,
    pub focus: FocusZone,
    pub finder: Option<FinderState>,
}

/// A sidebar whose tree fits its counters and whose selection is in its
/// flat view.
pub open spec fn sidebar_ok(s: Option<SidebarState>) -> bool {
    match s {
        Some(sb) => {
            &&& sb.file_tree.fits()
            &&& (sb.file_tree.flat_view@.len() == 0 || sb.file_tree.selected_index < sb.file_tree.flat_view@.len())
        },
        None => true,
    }
}

/// The file paths of the tabs in `tabs` with unsaved changes, in order.
pub open spec fn dirty_paths_of(tabs: Seq<TabEntry>) -> Seq<Option<String>>
    decreases tabs.len(),
{
    if tabs.len() == 0 {
        Seq::empty()
    } else {
        let prev = dirty_paths_of(tabs.drop_last());
        if tabs.last().editor.dirty { prev.push(tabs.last().editor.file_path) } else { prev }
    }
}

impl Session {
    /// The quit flag, the sidebar, the finder and the focus are as they
    /// were in `s0`.
    pub open spec fn frame_kept(&self, s0: &Session) -> bool {
        &&& self.should_quit == s0.should_quit
        &&& self.sidebar == s0.sidebar
        &&& self.sidebar_visible == s0.sidebar_visible
        &&& self.sidebar_width == s0.sidebar_width
        &&& self.focus == s0.focus
        &&& self.finder == s0.finder
    }

    /// At least one tab, the active one among them, every document in a
    /// consistent state, and the sidebar's selection in its view.
    pub open spec fn wf(&self) -> bool {
        &&& self.tabs@.len() > 0
        &&& self.active_tab < self.tabs@.len()
        &&& forall|i: int| 0 <= i < self.tabs@.len() ==> (#[trigger] self.tabs@[i]).editor.wf()
        &&& sidebar_ok(self.sidebar)
    }

    /// A session with one document and a sidebar, focused on the editor.
    pub fn new(editor: Editor, sidebar: Option<SidebarState>) -> (s: Self)
        requires
            editor.wf(),
            sidebar_ok(sidebar),
        ensures
            s.wf(),
            s.tabs@.len() == 1,
            s.tabs@[0].editor == editor,
            s.active_tab == 0,
            !s.should_quit,
            s.sidebar == sidebar,
            !s.sidebar_visible,
            s.sidebar_width == 25,
            s.focus == FocusZone::Editor,
            s.finder is None,
    {
        let mut tabs: Vec<TabEntry> = Vec::new();
        tabs.push(TabEntry { editor });
        Session {
            tabs,
            active_tab: 0,
            should_quit: false,
            sidebar,
            sidebar_visible: false,
            sidebar_width: 25,
            focus: FocusZone::Editor,
            finder: None,
        }
    }

    /// The file paths of the tabs with unsaved changes, in tab order (an
    /// untitled one as `None`).
    pub fn dirty_paths(&self) -> (v: Vec<Option<String>>)
        ensures
            v@ == dirty_paths_of(self.tabs@),
    {
        let mut v: Vec<Option<String>> = Vec::new();
        let mut i: usize = 0;
        while i < self.tabs.len()
            invariant
                i <= self.tabs@.len(),
                v@ == dirty_paths_of(self.tabs@.take(i as int)),
            decreases self.tabs@.len() - i,
        {
            let e = &self.tabs[i].editor;
            proof {
                assert(self.tabs@.take(i + 1).drop_last() =~= self.tabs@.take(i as int));
            }
            if e.dirty {
                let p = match &e.file_path {
                    Some(p) => Some(p.clone()),
                    None => None,
                };
                v.push(p);
            }
            i += 1;
        }
        assert(self.tabs@.take(self.tabs@.len() as int) =~= self.tabs@);
        v
    }

    pub fn active_editor(&self) -> (e: &Editor)
        requires
            self.wf(),
        ensures
            *e == self.tabs@[self.active_tab as int].editor,
    {
        &self.tabs[self.active_tab].editor
    }

    /// Opens a document in a new tab and makes it active.
    pub fn push_tab(&mut self, editor: Editor)
        requires
            old(self).wf(),
            editor.wf(),
        ensures
            final(self).wf(),
            final(self).tabs@.len() == old(self).tabs@.len() + 1,
            final(self).tabs@.last().editor == editor,
            forall|i: int| 0 <= i < old(self).tabs@.len() ==> #[trigger] final(self).tabs@[i] == old(self).tabs@[i],
            final(self).active_tab == old(self).tabs@.len(),
            final(self).frame_kept(old(self)),
    {
        self.tabs.push(TabEntry { editor });
        self.active_tab = self.tabs.len() - 1;
    }

    /// Makes tab `index` active.
    pub fn switch_to(&mut self, index: usize)
        requires
            old(self).wf(),
            index < old(self).tabs@.len(),
        ensures
            final(self).wf(),
            *final(self) == (Session { active_tab: index, ..*old(self) }),
    {
        self.active_tab = index;
    }

    /// Closes tab `index` unless it is the last one; says whether it did.
    pub fn close_tab(&mut self, index: usize) -> (closed: bool)
        requires
            old(self).wf(),
            index < old(self).tabs@.len(),
        ensures
            final(self).wf(),
            final(self).frame_kept(old(self)),
            closed == (old(self).tabs@.len() > 1),
            closed ==> final(self).tabs@ == old(self).tabs@.remove(index as int),
            closed ==> final(self).active_tab == (if old(self).active_tab >= final(self).tabs@.len() {
                (final(self).tabs@.len() - 1) as usize
            } else {
                old(self).active_tab
            }),
            !closed ==> final(self).tabs == old(self).tabs && final(self).active_tab == old(self).active_tab,
    {
        if self.tabs.len() <= 1 {
            return false;
        }
        let _ = self.tabs.remove(index);
        if self.active_tab >= self.tabs.len() {
            self.active_tab = self.tabs.len() - 1;
        }
        proof {
            assert forall|i: int| 0 <= i < self.tabs@.len() implies (#[trigger] self.tabs@[i]).editor.wf() by {
                if i < index {
                    assert(self.tabs@[i] == old(self).tabs@[i]);
                } else {
                    assert(self.tabs@[i] == old(self).tabs@[i + 1]);
                }
            }
        }
        true
    }

    /// Moves to the next tab, wrapping around; says whether there was
    /// another tab.
    pub fn next_tab(&mut self) -> (moved: bool)
        requires
            old(self).wf(),
        ensures
            final(self).wf(),
            final(self).tabs == old(self).tabs,
            final(self).frame_kept(old(self)),
            moved == (old(self).tabs@.len() > 1),
            final(self).active_tab == (if moved {
                ((old(self).active_tab + 1) % (old(self).tabs@.len() as int)) as usize
            } else {
                old(self).active_tab
            }),
    {
        if self.tabs.len() > 1 {
            self.active_tab = (self.active_tab + 1) % self.tabs.len();
            true
        } else {
            false
        }
    }

    /// Moves to the previous tab, wrapping around; says whether there was
    /// another tab.
    pub fn prev_tab(&mut self) -> (moved: bool)
        requires
            old(self).wf(),
        ensures
            final(self).wf(),
            final(self).tabs == old(self).tabs,
            final(self).frame_kept(old(self)),
            moved == (old(self).tabs@.len() > 1),
            final(self).active_tab == (if !moved {
                old(self).active_tab
            } else if old(self).active_tab == 0 {
                (old(self).tabs@.len() - 1) as usize
            } else {
                (old(self).active_tab - 1) as usize
            }),
    {
        if self.tabs.len() > 1 {
            self.active_tab = if self.active_tab == 0 { self.tabs.len() - 1 } else { self.active_tab - 1 };
            true
        } else {
            false
        }
    }
}

/// The request an editor command makes of the caller.
pub open spec fn command_request(cmd: EditorCommand, copied: Option<String>) -> Request {
    match cmd {
        EditorCommand::Save => Request::SaveActive,
        EditorCommand::Copy | EditorCommand::Cut => match copied {
            Some(t) => Request::SetClipboard(t),
            None => Request::Nothing,
        },
        EditorCommand::Paste => Request::Paste,
        _ => Request::Nothing,
    }
}

/// Room in the byte counters for an edit of up to one char.
pub open spec fn has_room(e: Editor) -> bool {
    byte_len(e.buffer@) + 4 < usize::MAX
}

/// The text and cursor once the char after the cursor (or an active
/// selection) is deleted.
pub open spec fn forward_deleted(t: Seq<char>, sel: Option<Selection>, c: (usize, usize)) -> (Seq<char>, (usize, usize)) {
    if active_selection(sel) {
        cut_selection(t, sel, c)
    } else {
        let p = char_index(t, c.0 as int, c.1 as int);
        if p < t.len() {
            (t.take(p) + t.skip(p + 1), c)
        } else {
            (t, c)
        }
    }
}

/// The text and cursor once the char before the cursor (or an active
/// selection) is deleted.
pub open spec fn backward_deleted(t: Seq<char>, sel: Option<Selection>, c: (usize, usize)) -> (Seq<char>, (usize, usize)) {
    if active_selection(sel) {
        cut_selection(t, sel, c)
    } else {
        let p = char_index(t, c.0 as int, c.1 as int);
        if p > 0 {
            (t.take(p - 1) + t.skip(p), back_of(t, c))
        } else {
            (t, c)
        }
    }
}

/// A move by `to`: the text stays, and the cursor goes where `to` puts
/// it, the selection following as `selection_after` says.
pub open spec fn moved(e: Editor, e2: Editor, shift: bool, to: Cursor) -> bool {
    &&& e2.buffer@ == e.buffer@
    &&& e2.cursor == to
    &&& e2.selection == selection_after(shift, e.selection, e.cursor_pos(), e2.cursor_pos())
}

/// A move left or right, which without shift first collapses an active
/// selection to its `start` or end.
pub open spec fn moved_across(e: Editor, e2: Editor, shift: bool, to: Cursor, start: bool) -> bool {
    if !shift && active_selection(e.selection) {
        let (a, b) = e.selection.unwrap().spec_ordered();
        &&& e2.buffer@ == e.buffer@
        &&& e2.cursor_pos() == (if start { a } else { b })
        &&& e2.selection is None
    } else {
        moved(e, e2, shift, to)
    }
}

/// What an editor command does to the active document `e`, giving `e2`.
/// Edits are skipped where the byte counters have no room.
pub open spec fn command_effect(e: Editor, e2: Editor, cmd: EditorCommand) -> bool {
    let t = e.buffer@;
    let c = e.cursor_pos();
    match cmd {
        EditorCommand::InsertChar(ch) => if has_room(e) {
            (e2.buffer@, e2.cursor_pos()) == typed(t, e.selection, c, ch) && e2.selection is None
        } else {
            e2 == e
        },
        EditorCommand::InsertNewline => if has_room(e) {
            (e2.buffer@, e2.cursor_pos()) == typed(t, e.selection, c, '\n') && e2.selection is None
        } else {
            e2 == e
        },
        EditorCommand::DeleteForward => if has_room(e) {
            (e2.buffer@, e2.cursor_pos()) == forward_deleted(t, e.selection, c) && e2.selection is None
        } else {
            e2 == e
        },
        EditorCommand::DeleteBackward => if has_room(e) {
            (e2.buffer@, e2.cursor_pos()) == backward_deleted(t, e.selection, c) && e2.selection is None
        } else {
            e2 == e
        },
        EditorCommand::MoveLeft { shift } => moved_across(e, e2, shift, left_of(t, e.cursor), true),
        EditorCommand::MoveRight { shift } => moved_across(e, e2, shift, right_of(t, e.cursor), false),
        EditorCommand::MoveUp { shift } => moved(e, e2, shift, up_of(t, e.cursor)),
        EditorCommand::MoveDown { shift } => moved(e, e2, shift, down_of(t, e.cursor)),
        EditorCommand::MoveHome { shift } => moved(e, e2, shift, Cursor { col: 0, desired_col: 0, ..e.cursor }),
        EditorCommand::MoveEnd { shift } => moved(e, e2, shift, end_of(t, e.cursor)),
        EditorCommand::MoveWordLeft { shift } => moved(e, e2, shift, word_left_of(t, e.cursor)),
        EditorCommand::MoveWordRight { shift } => moved(e, e2, shift, word_right_of(t, e.cursor)),
        EditorCommand::SelectAll => {
            let last = (line_count(t) - 1) as usize;
            let end = (last, line_len(t, last as int) as usize);
            &&& e2.buffer@ == t
            &&& e2.selection == Some(Selection { anchor: (0usize, 0usize), head: end })
            &&& e2.cursor_pos() == end
        },
        EditorCommand::Cut => (e2.buffer@, e2.cursor_pos()) == cut_selection(t, e.selection, c) && e2.selection is None,
        EditorCommand::Undo => {
            let s = sealed(e.undo_stack.model());
            if s.undo.len() == 0 {
                e2.buffer@ == t && e2.cursor == e.cursor
            } else {
                e2.buffer@ == revert_ops(t, s.undo.last().ops) && e2.cursor_pos() == s.undo.last().cursor_before
            }
        },
        EditorCommand::Redo => {
            let h = e.undo_stack.model();
            if h.redo.len() == 0 {
                e2.buffer@ == t && e2.cursor == e.cursor
            } else {
                e2.buffer@ == apply_ops(t, h.redo.last().ops) && e2.cursor_pos() == h.redo.last().cursor_after
            }
        },
        EditorCommand::Copy | EditorCommand::Paste | EditorCommand::Save | EditorCommand::Quit => e2 == e,
    }
}

impl Session {
    /// Other tabs than the active one are left as they were.
    pub open spec fn others_kept(&self, old_s: &Session) -> bool {
        &&& self.tabs@.len() == old_s.tabs@.len()
        &&& forall|i: int| 0 <= i < self.tabs@.len() && i != self.active_tab ==> #[trigger] self.tabs@[i] == old_s.tabs@[i]
    }

    /// What an editor command does to the session: the active document
    /// changes as `command_effect` says, Quit sets the quit flag, and the
    /// request is the one `cmd` makes (for Copy and Cut, the selected text).
    pub open spec fn command_done(&self, s0: &Session, cmd: EditorCommand, r: Request) -> bool {
        let e = s0.tabs@[s0.active_tab as int].editor;
        let e2 = self.tabs@[s0.active_tab as int].editor;
        &&& self.active_tab == s0.active_tab
        &&& self.others_kept(s0)
        &&& self.sidebar == s0.sidebar
        &&& self.sidebar_visible == s0.sidebar_visible
        &&& self.sidebar_width == s0.sidebar_width
        &&& self.focus == s0.focus
        &&& self.finder == s0.finder
        &&& self.should_quit == (s0.should_quit || cmd == EditorCommand::Quit)
        &&& command_effect(e, e2, cmd)
        &&& match cmd {
            EditorCommand::Copy | EditorCommand::Cut => match r {
                Request::SetClipboard(x) => cuts(e.buffer@, e.selection)
                    && x@ == e.buffer@.subrange(
                        e.selection.unwrap().char_range(e.buffer@).0,
                        e.selection.unwrap().char_range(e.buffer@).1,
                    ),
                Request::Nothing => !cuts(e.buffer@, e.selection),
                _ => false,
            },
            EditorCommand::Save => r == Request::SaveActive,
            EditorCommand::Paste => r == Request::Paste,
            _ => r == Request::Nothing,
        }
    }

    /// Carries out an editor command on the active document. Edits that
    /// would overflow the buffer's byte counters are skipped.
    pub fn handle_editor_command(&mut self, cmd: EditorCommand) -> (r: Request)
        requires
            old(self).wf(),
        ensures
            final(self).wf(),
            final(self).command_done(old(self), cmd, r),
    {
        let i = self.active_tab;
        let ghost old_tabs = self.tabs@;
        proof { assert(self.tabs@[i as int].editor.wf()); }
        proof {
            let e = self.tabs@[i as int].editor;
            crate::editor::text::lemma_valid_index(e.buffer@, e.cursor.line as int, e.cursor.col as int);
        }
        let room = self.tabs[i].editor.buffer.len_bytes() < usize::MAX - 4;
        let mut request = Request::Nothing;
        match cmd {
            EditorCommand::Quit => {
                self.should_quit = true;
            },
            EditorCommand::Save => {
                request = Request::SaveActive;
            },
            EditorCommand::InsertChar(c) => {
                if room {
                    self.tabs[i].editor.insert_char(c);
                }
            },
            EditorCommand::InsertNewline => {
                if room {
                    self.tabs[i].editor.insert_newline();
                }
            },
            EditorCommand::DeleteForward => {
                if room {
                    self.tabs[i].editor.delete_forward();
                }
            },
            EditorCommand::DeleteBackward => {
                if room {
                    self.tabs[i].editor.delete_backward();
                }
            },
            EditorCommand::MoveLeft { shift } => self.tabs[i].editor.move_left(shift),
            EditorCommand::MoveRight { shift } => self.tabs[i].editor.move_right(shift),
            EditorCommand::MoveUp { shift } => self.tabs[i].editor.move_up(shift),
            EditorCommand::MoveDown { shift } => self.tabs[i].editor.move_down(shift),
            EditorCommand::MoveHome { shift } => self.tabs[i].editor.move_home(shift),
            EditorCommand::MoveEnd { shift } => self.tabs[i].editor.move_end(shift),
            EditorCommand::MoveWordLeft { shift } => self.tabs[i].editor.move_word_left(shift),
            EditorCommand::MoveWordRight { shift } => self.tabs[i].editor.move_word_right(shift),
            EditorCommand::SelectAll => self.tabs[i].editor.select_all(),
            EditorCommand::Copy => {
                match self.tabs[i].editor.copy() {
                    Some(t) => request = Request::SetClipboard(t),
                    None => {},
                }
            },
            EditorCommand::Cut => {
                match self.tabs[i].editor.cut() {
                    Some(t) => request = Request::SetClipboard(t),
                    None => {},
                }
            },
            EditorCommand::Paste => {
                request = Request::Paste;
            },
            EditorCommand::Undo => self.tabs[i].editor.undo(),
            EditorCommand::Redo => self.tabs[i].editor.redo(),
        }
        proof {
            assert forall|k: int| 0 <= k < self.tabs@.len() implies (#[trigger] self.tabs@[k]).editor.wf() by {
                if k != i {
                    assert(self.tabs@[k] == old_tabs[k]);
                }
            }
        }
        request
    }

    /// Pastes `text` from the clipboard into the active document; a paste
    /// that would overflow the buffer's byte counters is skipped.
    pub fn paste(&mut self, text: &str)
        requires
            old(self).wf(),
        ensures
            final(self).wf(),
            *final(self) == (Session { tabs: final(self).tabs, ..*old(self) }),
            final(self).others_kept(old(self)),
            ({
                let e = old(self).tabs@[old(self).active_tab as int].editor;
                let e2 = final(self).tabs@[old(self).active_tab as int].editor;
                if byte_len(e.buffer@) + byte_len(text@) + 1 < usize::MAX {
                    pasted(e, e2, text@)
                } else {
                    e2 == e
                }
            }),
    {
        let i = self.active_tab;
        let ghost old_tabs = self.tabs@;
        proof { assert(self.tabs@[i as int].editor.wf()); }
        let have = self.tabs[i].editor.buffer.len_bytes();
        let add = text.as_bytes().len();
        if have < usize::MAX - 1 && add < usize::MAX - 1 - have {
            self.tabs[i].editor.paste(text);
        }
        proof {
            assert forall|k: int| 0 <= k < self.tabs@.len() implies (#[trigger] self.tabs@[k]).editor.wf() by {
                if k != i {
                    assert(self.tabs@[k] == old_tabs[k]);
                }
            }
        }
    }
}

/// What a key in the sidebar does to its tree.
pub ghost enum TreeStep {
    Up,
    Down,
    Toggle,
    Stay,
}

/// Up and Down move the selection; Left collapses an expanded directory
/// and otherwise moves up; Right expands a collapsed directory and moves
/// down from an expanded one; Enter on a directory expands or collapses it.
pub open spec fn tree_step(t: FileTree, code: KeyCode) -> TreeStep {
    let v = t.flat_view@;
    let i = t.selected_index as int;
    let dir = i < v.len() && v[i].kind == NodeKind::Directory;
    match code {
        KeyCode::Up => TreeStep::Up,
        KeyCode::Down => TreeStep::Down,
        KeyCode::Left => if dir && v[i].expanded { TreeStep::Toggle } else { TreeStep::Up },
        KeyCode::Right => if !dir { TreeStep::Stay } else if v[i].expanded { TreeStep::Down } else { TreeStep::Toggle },
        KeyCode::Enter => if dir { TreeStep::Toggle } else { TreeStep::Stay },
        _ => TreeStep::Stay,
    }
}

/// The tree `t1` is `t0` after `step`.
pub open spec fn tree_stepped(t0: FileTree, t1: FileTree, step: TreeStep) -> bool {
    let i = t0.selected_index as int;
    match step {
        TreeStep::Up => t1 == FileTree { selected_index: if i > 0 { (i - 1) as usize } else { 0 }, ..t0 },
        TreeStep::Down => t1 == FileTree {
            selected_index: if t0.flat_view@.len() > 0 && i < t0.flat_view@.len() - 1 { (i + 1) as usize } else { i as usize },
            ..t0
        },
        TreeStep::Toggle => {
            let n = t1.flat_view@.len();
            &&& t1.root.model() == toggled(t0.root.model(), t0.flat_view@[i].path@)
            &&& flat_models(t1.flat_view@) == flatten(t1.root.model(), 0, true)
            &&& t1.selected_index == (if i >= n && n > 0 { (n - 1) as usize } else { i as usize })
        },
        TreeStep::Stay => t1 == t0,
    }
}

/// The finder `f1` is `f0` after a key that edits its query or moves its
/// selection; other keys leave it as it was.
pub open spec fn finder_stepped(f0: FinderState, f1: FinderState, code: KeyCode, ctrl: bool) -> bool {
    let i = f0.selected_index as int;
    let n = f0.filtered@.len();
    match code {
        KeyCode::Up => f1 == FinderState { selected_index: if i > 0 { (i - 1) as usize } else { 0 }, ..f0 },
        KeyCode::Down => f1 == FinderState {
            selected_index: if n > 0 && i < n - 1 { (i + 1) as usize } else { i as usize },
            ..f0
        },
        KeyCode::Backspace => {
            &&& f1.query@ == (if f0.query@.len() == 0 { f0.query@ } else { f0.query@.drop_last() })
            &&& f1.all_files == f0.all_files
            &&& f1.root == f0.root
            &&& entry_models(f1.filtered@) == listing(f0.all_files@, f0.root@, f1.query@)
            &&& f1.selected_index == 0
            &&& f1.scroll_offset == 0
        },
        KeyCode::Char(c) => if ctrl {
            f1 == f0
        } else {
            &&& f1.query@ == f0.query@.push(c)
            &&& f1.all_files == f0.all_files
            &&& f1.root == f0.root
            &&& entry_models(f1.filtered@) == listing(f0.all_files@, f0.root@, f1.query@)
            &&& f1.selected_index == 0
            &&& f1.scroll_offset == 0
        },
        _ => f1 == f0,
    }
}

/// The path of the entry the finder has selected, if any.
pub open spec fn finder_pick(f: Option<FinderState>) -> Option<String> {
    match f {
        Some(x) => if x.selected_index < x.filtered@.len() {
            Some(x.filtered@[x.selected_index as int].path)
        } else {
            None
        },
        None => None,
    }
}

/// The path of the file the sidebar has selected, where a file (not a
/// directory) is selected.
pub open spec fn sidebar_pick(sb: Option<SidebarState>) -> Option<String> {
    match sb {
        Some(x) => {
            let v = x.file_tree.flat_view@;
            let i = x.file_tree.selected_index as int;
            if i < v.len() && v[i].kind == NodeKind::File {
                Some(v[i].path)
            } else {
                None
            }
        },
        None => None,
    }
}

impl Session {
    /// Everything but the focus, the sidebar flags, the quit flag, the
    /// sidebar's tree and the finder is left as it was.
    pub open spec fn docs_kept(&self, s0: &Session) -> bool {
        &&& self.tabs == s0.tabs
        &&& self.active_tab == s0.active_tab
        &&& self.sidebar_width == s0.sidebar_width
    }

    /// What a key does while the sidebar has the focus.
    pub open spec fn sidebar_key_done(&self, s0: &Session, ev: KeyEvent, r: Request) -> bool {
        let ctrl = ev.modifiers.control;
        &&& self.docs_kept(s0)
        &&& self.finder == s0.finder
        &&& if ev.kind != KeyEventKind::Press {
            *self == *s0 && r == Request::Nothing
        } else if ev.code == KeyCode::Esc {
            *self == Session { focus: FocusZone::Editor, ..*s0 } && r == Request::Nothing
        } else if ev.code == KeyCode::Char('b') && ctrl {
            *self == Session { focus: FocusZone::Editor, sidebar_visible: false, ..*s0 } && r == Request::Nothing
        } else if ev.code == KeyCode::Char('q') && ctrl {
            *self == Session { should_quit: true, ..*s0 } && r == Request::Nothing
        } else if ev.code == KeyCode::Char('p') && ctrl {
            *self == *s0 && r == Request::OpenFinder
        } else if ev.code == KeyCode::Enter && sidebar_pick(s0.sidebar) is Some {
            *self == Session { focus: FocusZone::Editor, ..*s0 } && r == Request::OpenFile(sidebar_pick(s0.sidebar).unwrap())
        } else {
            &&& self.focus == s0.focus
            &&& self.sidebar_visible == s0.sidebar_visible
            &&& self.should_quit == s0.should_quit
            &&& r == Request::Nothing
            &&& match (s0.sidebar, self.sidebar) {
                (Some(a), Some(b)) => b.scroll_offset == a.scroll_offset
                    && tree_stepped(a.file_tree, b.file_tree, tree_step(a.file_tree, ev.code)),
                (None, None) => true,
                _ => false,
            }
        }
    }

    /// What a key does while the finder has the focus.
    pub open spec fn finder_key_done(&self, s0: &Session, ev: KeyEvent, r: Request) -> bool {
        let ctrl = ev.modifiers.control;
        &&& self.docs_kept(s0)
        &&& self.sidebar == s0.sidebar
        &&& self.sidebar_visible == s0.sidebar_visible
        &&& if ev.kind != KeyEventKind::Press {
            *self == *s0 && r == Request::Nothing
        } else if ev.code == KeyCode::Esc || (ev.code == KeyCode::Char('p') && ctrl) {
            *self == Session { focus: FocusZone::Editor, finder: None, ..*s0 } && r == Request::Nothing
        } else if ev.code == KeyCode::Char('q') && ctrl {
            *self == Session { should_quit: true, ..*s0 } && r == Request::Nothing
        } else if ev.code == KeyCode::Enter {
            &&& *self == Session { focus: FocusZone::Editor, finder: None, ..*s0 }
            &&& r == match finder_pick(s0.finder) {
                Some(p) => Request::OpenFile(p),
                None => Request::Nothing,
            }
        } else {
            &&& self.focus == s0.focus
            &&& self.should_quit == s0.should_quit
            &&& r == Request::Nothing
            &&& match (s0.finder, self.finder) {
                (Some(a), Some(b)) => finder_stepped(a, b, ev.code, ctrl),
                (None, None) => true,
                _ => false,
            }
        }
    }

    /// Hands the keys to a finder over the working directory.
    pub fn open_finder(&mut self, finder: FinderState)
        requires
            old(self).wf(),
        ensures
            final(self).wf(),
            *final(self) == (Session { finder: Some(finder), focus: FocusZone::Finder, ..*old(self) }),
    {
        self.finder = Some(finder);
        self.focus = FocusZone::Finder;
    }

    /// The first tab whose document is the file `target`, given each
    /// tab's file as the caller resolved it (`None` for an unnamed one).
    pub fn tab_showing(&self, resolved: &Vec<Option<String>>, target: &String) -> (k: Option<usize>)
        ensures
            match k {
                Some(i) => i < resolved@.len() && i < self.tabs@.len() && names_path(resolved@[i as int], target@)
                    && forall|j: int| 0 <= j < i ==> !names_path(#[trigger] resolved@[j], target@),
                None => forall|j: int| 0 <= j < resolved@.len() && j < self.tabs@.len()
                    ==> !names_path(#[trigger] resolved@[j], target@),
            },
    {
        let n = if resolved.len() < self.tabs.len() { resolved.len() } else { self.tabs.len() };
        let mut i: usize = 0;
        while i < n
            invariant
                n <= resolved@.len(),
                n <= self.tabs@.len(),
                n == resolved@.len() || n == self.tabs@.len(),
                i <= n,
                forall|j: int| 0 <= j < i ==> !names_path(#[trigger] resolved@[j], target@),
            decreases n - i,
        {
            match &resolved[i] {
                Some(p) => {
                    if crate::chars::same_text(p.as_str(), target.as_str()) {
                        return Some(i);
                    }
                },
                None => {},
            }
            i += 1;
        }
        None
    }

    /// A key while the sidebar has the focus: Esc goes back to the
    /// document, Ctrl-b hides the sidebar, Ctrl-q quits, Ctrl-p asks for
    /// the finder, Enter opens the selected file (or expands or collapses
    /// the selected directory), and the arrows move in the tree (see
    /// `tree_step`). Only key presses count.
    pub fn handle_sidebar_key(&mut self, ev: KeyEvent) -> (r: Request)
        requires
            old(self).wf(),
        ensures
            final(self).wf(),
            final(self).sidebar_key_done(old(self), ev, r),
    {
        if ev.kind != KeyEventKind::Press {
            return Request::Nothing;
        }
        let ctrl = ev.modifiers.control;
        match ev.code {
            KeyCode::Esc => {
                self.focus = FocusZone::Editor;
                return Request::Nothing;
            },
            KeyCode::Char(c) => {
                if ctrl && c == 'b' {
                    self.sidebar_visible = false;
                    self.focus = FocusZone::Editor;
                } else if ctrl && c == 'q' {
                    self.should_quit = true;
                } else if ctrl && c == 'p' {
                    return Request::OpenFinder;
                }
                return Request::Nothing;
            },
            _ => {},
        }
        let mut sb = match self.sidebar.take() {
            Some(sb) => sb,
            None => {
                return Request::Nothing;
            },
        };
        let ghost t0 = sb.file_tree;
        let kind = sb.file_tree.selected_kind();
        let expanded = match kind {
            Some(_) => sb.file_tree.flat_view[sb.file_tree.selected_index].expanded,
            None => false,
        };
        let is_dir = kind == Some(NodeKind::Directory);
        let mut request = Request::Nothing;
        match ev.code {
            KeyCode::Up => sb.file_tree.move_up(),
            KeyCode::Down => sb.file_tree.move_down(),
            KeyCode::Left => {
                if is_dir && expanded {
                    sb.file_tree.toggle_expand();
                } else {
                    sb.file_tree.move_up();
                }
            },
            KeyCode::Right => {
                if is_dir {
                    if !expanded {
                        sb.file_tree.toggle_expand();
                    } else {
                        sb.file_tree.move_down();
                    }
                }
            },
            KeyCode::Enter => {
                if is_dir {
                    sb.file_tree.toggle_expand();
                } else if kind == Some(NodeKind::File) {
                    request = Request::OpenFile(sb.file_tree.flat_view[sb.file_tree.selected_index].path.clone());
                    self.focus = FocusZone::Editor;
                }
            },
            _ => {},
        }
        proof {
            assert(tree_stepped(t0, sb.file_tree, tree_step(t0, ev.code)) || ev.code == KeyCode::Enter);
        }
        self.sidebar = Some(sb);
        request
    }

    /// A key while the finder has the focus: Esc or Ctrl-p closes it,
    /// Ctrl-q quits, Enter closes it and opens the selected file, Up and
    /// Down move the selection, Backspace and plain chars edit the query.
    /// Only key presses count.
    pub fn handle_finder_key(&mut self, ev: KeyEvent) -> (r: Request)
        requires
            old(self).wf(),
        ensures
            final(self).wf(),
            final(self).finder_key_done(old(self), ev, r),
    {
        if ev.kind != KeyEventKind::Press {
            return Request::Nothing;
        }
        let ctrl = ev.modifiers.control;
        match ev.code {
            KeyCode::Esc => {
                self.finder = None;
                self.focus = FocusZone::Editor;
                return Request::Nothing;
            },
            KeyCode::Char(c) => {
                if ctrl && c == 'p' {
                    self.finder = None;
                    self.focus = FocusZone::Editor;
                    return Request::Nothing;
                } else if ctrl && c == 'q' {
                    self.should_quit = true;
                    return Request::Nothing;
                }
            },
            KeyCode::Enter => {
                let request = match &self.finder {
                    Some(f) => match f.selected_path() {
                        Some(p) => Request::OpenFile(p.clone()),
                        None => Request::Nothing,
                    },
                    None => Request::Nothing,
                };
                self.finder = None;
                self.focus = FocusZone::Editor;
                return request;
            },
            _ => {},
        }
        let mut f = match self.finder.take() {
            Some(f) => f,
            None => {
                return Request::Nothing;
            },
        };
        match ev.code {
            KeyCode::Up => f.move_up(),
            KeyCode::Down => f.move_down(),
            KeyCode::Backspace => f.delete_backward(),
            KeyCode::Char(c) => {
                if !ctrl {
                    f.insert_char(c);
                }
            },
            _ => {},
        }
        self.finder = Some(f);
        Request::Nothing
    }
}

impl Session {
    /// What a key does while the document has the focus: the command of
    /// the key (see `app_command`) is carried out.
    pub open spec fn editor_key_done(&self, s0: &Session, ev: KeyEvent, r: Request) -> bool {
        let n = s0.tabs@.len();
        let a = s0.active_tab;
        match app_command(ev) {
            None => *self == *s0 && r == Request::Nothing,
            Some(AppCommand::ToggleSidebar) => {
                &&& *self == Session {
                    sidebar_visible: !s0.sidebar_visible,
                    focus: if !s0.sidebar_visible { FocusZone::Sidebar } else { s0.focus },
                    ..*s0
                }
                &&& r == Request::Nothing
            },
            Some(AppCommand::OpenFinder) => *self == *s0 && r == Request::OpenFinder,
            Some(AppCommand::NextTab) => {
                &&& *self == Session { active_tab: if n > 1 { ((a + 1) % (n as int)) as usize } else { a }, ..*s0 }
                &&& r == Request::Nothing
            },
            Some(AppCommand::PrevTab) => {
                &&& *self == Session {
                    active_tab: if n <= 1 { a } else if a == 0 { (n - 1) as usize } else { (a - 1) as usize },
                    ..*s0
                }
                &&& r == Request::Nothing
            },
            Some(AppCommand::CloseTab) => {
                &&& self.frame_kept(s0)
                &&& r == Request::Nothing
                &&& if n > 1 {
                    &&& self.tabs@ == s0.tabs@.remove(a as int)
                    &&& self.active_tab == (if a >= n - 1 { (n - 2) as usize } else { a })
                } else {
                    self.tabs == s0.tabs && self.active_tab == a
                }
            },
            Some(AppCommand::Quit) => *self == Session { should_quit: true, ..*s0 } && r == Request::Nothing,
            Some(AppCommand::Save) => *self == *s0 && r == Request::SaveActive,
            Some(AppCommand::Editor(c)) => self.command_done(s0, c, r),
        }
    }

    /// A key while the document has the focus: Ctrl-b shows or hides the
    /// sidebar (focusing it when shown), Ctrl-p asks for the finder,
    /// Ctrl-PageDown and Ctrl-PageUp switch tabs, Ctrl-w closes the tab,
    /// Ctrl-q quits, Ctrl-s asks for a save, and other bound keys edit.
    pub fn handle_editor_key(&mut self, ev: KeyEvent) -> (r: Request)
        requires
            old(self).wf(),
        ensures
            final(self).wf(),
            final(self).editor_key_done(old(self), ev, r),
    {
        match map_app_key_event(ev) {
            None => Request::Nothing,
            Some(cmd) => match cmd {
                AppCommand::ToggleSidebar => {
                    self.sidebar_visible = !self.sidebar_visible;
                    if self.sidebar_visible {
                        self.focus = FocusZone::Sidebar;
                    }
                    Request::Nothing
                },
                AppCommand::OpenFinder => Request::OpenFinder,
                AppCommand::NextTab => {
                    let _ = self.next_tab();
                    Request::Nothing
                },
                AppCommand::PrevTab => {
                    let _ = self.prev_tab();
                    Request::Nothing
                },
                AppCommand::CloseTab => {
                    let a = self.active_tab;
                    let _ = self.close_tab(a);
                    Request::Nothing
                },
                AppCommand::Quit => {
                    self.should_quit = true;
                    Request::Nothing
                },
                AppCommand::Save => Request::SaveActive,
                AppCommand::Editor(c) => self.handle_editor_command(c),
            },
        }
    }

    /// Hands a key to whatever has the focus: the finder, the sidebar or
    /// the document.
    pub fn handle_key(&mut self, ev: KeyEvent) -> (r: Request)
        requires
            old(self).wf(),
        ensures
            final(self).wf(),
            match old(self).focus {
                FocusZone::Finder => final(self).finder_key_done(old(self), ev, r),
                FocusZone::Sidebar => final(self).sidebar_key_done(old(self), ev, r),
                FocusZone::Editor => final(self).editor_key_done(old(self), ev, r),
            },
    {
        match self.focus {
            FocusZone::Finder => self.handle_finder_key(ev),
            FocusZone::Sidebar => self.handle_sidebar_key(ev),
            FocusZone::Editor => self.handle_editor_key(ev),
        }
    }
}

} // verus!
