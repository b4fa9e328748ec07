pub mod text;
pub mod buffer;
pub mod undo;
pub mod cursor;
pub mod selection;
pub mod history;

use vstd::prelude::*;

use buffer::{byte_offset, char_to_string, lemma_byte_len_concat, lemma_byte_len_ge, Buffer};
use cursor::{
    down_of, end_of, lemma_moves_stay_valid, left_of, right_of, up_of, word_left_of, word_right_of, Cursor,
};
use history::{
    applicable, apply_ops, history_fits, lemma_applicable_prefix, lemma_history_record, lemma_history_redo,
    lemma_history_seal, lemma_history_undo, revert_ops, revertible, valid_cursor,
};
use selection::{pos_le, Selection};
use text::{
    byte_len, char_index, lemma_line_start_prefix, lemma_nl_prefix, lemma_valid_index, line_count,
    line_len, line_start, nl_before, valid_pos,
};
use undo::{apply_op, recorded, reverse_op, sealed, ActionGroup, OpModel, Operation, UndoModel, UndoStack};
use crate::markdown::{input_edit_for_delete, input_edit_for_insert, MarkdownState};

verus! {

pub struct Editor {
    pub buffer: Buffer,
    pub cursor: Cursor,
    pub selection: Option<Selection>,
    pub undo_stack: UndoStack,
    pub file_path: Option<String>,
    pub dirty: bool,
    pub scroll_offset: usize,
    pub markdown: MarkdownState,
}

/// An active selection spans text: its ends are distinct and lie in
/// order in `t`.
pub open spec fn cuts(t: Seq<char>, sel: Option<Selection>) -> bool {
    sel matches Some(s) && s.anchor != s.head && s.char_range(t).0 < s.char_range(t).1
}

/// The text and cursor position once an active selection is deleted: its
/// chars are taken out and the cursor goes to its start.
pub open spec fn cut_selection(t: Seq<char>, sel: Option<Selection>, cursor: (usize, usize)) -> (Seq<char>, (usize, usize)) {
    if cuts(t, sel) {
        let s = sel.unwrap();
        let (a, b) = s.char_range(t);
        (t.take(a) + t.skip(b), s.spec_ordered().0)
    } else {
        (t, cursor)
    }
}

/// The history once an active selection is deleted: the deletion is
/// recorded as a group of its own.
pub open spec fn cut_history(t: Seq<char>, h: UndoModel, sel: Option<Selection>, cursor: (usize, usize)) -> UndoModel {
    if cuts(t, sel) {
        let s = sel.unwrap();
        let (a, b) = s.char_range(t);
        sealed(recorded(
            sealed(h),
            OpModel { insert: false, pos: a, text: t.subrange(a, b) },
            cursor,
            s.spec_ordered().0,
            false,
        ))
    } else {
        h
    }
}

/// The position of char index `i` of `t`.
pub open spec fn pos_of(t: Seq<char>, i: int) -> (usize, usize) {
    let l = nl_before(t, i);
    (l as usize, (i - line_start(t, l as int)) as usize)
}

/// A selection with distinct ends is there.
pub open spec fn active_selection(sel: Option<Selection>) -> bool {
    match sel {
        Some(s) => s.anchor != s.head,
        None => false,
    }
}

/// The position one char back from `c`: the column before, or the end of
/// the line above.
pub open spec fn back_of(t: Seq<char>, c: (usize, usize)) -> (usize, usize) {
    if c.1 > 0 {
        (c.0, (c.1 - 1) as usize)
    } else {
        ((c.0 - 1) as usize, line_len(t, c.0 - 1) as usize)
    }
}

/// A deletion of chars `a..b` of `t` leaves an edit whose byte counts fit
/// in the bytes of `t`.
proof fn lemma_delete_bytes(t: Seq<char>, a: int, b: int)
    requires
        0 <= a <= b <= t.len(),
    ensures
        ({
            let t1 = t.take(a) + t.skip(b);
            &&& byte_offset(t1, a) + byte_len(t.subrange(a, b)) <= byte_len(t)
            &&& nl_before(t1, a) + byte_len(t.subrange(a, b)) <= byte_len(t)
            &&& byte_len(t1) <= byte_len(t)
        }),
{
    let t1 = t.take(a) + t.skip(b);
    assert(t1.take(a) =~= t.take(a));
    assert(t.take(a) + t.subrange(a, b) =~= t.take(b));
    lemma_byte_len_concat(t.take(a), t.subrange(a, b));
    crate::editor::buffer::lemma_byte_offset_mono(t, b, t.len() as int);
    assert(t.take(t.len() as int) =~= t);
    lemma_byte_len_ge(t1.take(a));
    text::lemma_nl_bounds(t1, a);
    lemma_byte_len_concat(t.take(a), t.skip(b));
    assert(t.take(b) + t.skip(b) =~= t);
    lemma_byte_len_concat(t.take(b), t.skip(b));
    crate::editor::buffer::lemma_byte_offset_mono(t, a, b);
}

/// A valid position keeps its place in a text that agrees with `t` up to
/// its char index.
proof fn lemma_pos_kept(t: Seq<char>, u: Seq<char>, l: int, c: int)
    requires
        valid_pos(t, l, c),
        char_index(t, l, c) <= u.len(),
        t.take(char_index(t, l, c)) == u.take(char_index(t, l, c)),
    ensures
        valid_pos(u, l, c),
        char_index(u, l, c) == char_index(t, l, c),
{
    let p = char_index(t, l, c);
    lemma_valid_index(t, l, c);
    lemma_line_start_prefix(t, u, l, p);
    lemma_nl_prefix(t, u, p);
    crate::editor::buffer::lemma_pos_of_index(u, p);
}

/// The position one char back from a valid position other than the
/// start: the column before, or the end of the line above.
proof fn lemma_back_position(t: Seq<char>, l: int, c: int)
    requires
        valid_pos(t, l, c),
    ensures
        char_index(t, l, c) == 0 <==> (l == 0 && c == 0),
        char_index(t, l, c) > 0 ==> ({
            let back = if c > 0 { (l, c - 1) } else { (l - 1, line_len(t, l - 1)) };
            &&& valid_pos(t, back.0, back.1)
            &&& char_index(t, back.0, back.1) == char_index(t, l, c) - 1
        }),
{
    lemma_valid_index(t, l, c);
    if l > 0 {
        crate::editor::buffer::lemma_line_starts_ordered(t, l - 1);
    }
    assert(text::is_line_start(t, 0, 0));
    text::lemma_line_start_is(t, 0, 0);
}

/// `e2` is `e` with `text` pasted: nothing changes for empty text; else
/// an active selection is cut, `text` goes in at the cursor as one undo
/// group of its own, and the cursor goes after it.
pub open spec fn pasted(e: Editor, e2: Editor, text: Seq<char>) -> bool {
    &&& text.len() == 0 ==> e2 == e
    &&& text.len() > 0 ==> ({
        let t = e.buffer@;
        let (t0, c0) = cut_selection(t, e.selection, e.cursor_pos());
        let h0 = cut_history(t, e.undo_stack.model(), e.selection, e.cursor_pos());
        let p = char_index(t0, c0.0 as int, c0.1 as int);
        let t1 = t0.take(p) + text + t0.skip(p);
        let op = OpModel { insert: true, pos: p, text: text };
        &&& e2.buffer@ == t1
        &&& e2.cursor_pos() == pos_of(t1, p + text.len())
        &&& e2.cursor.desired_col == e2.cursor.col
        &&& e2.undo_stack.model() == sealed(recorded(sealed(h0), op, c0, e2.cursor_pos(), false))
        &&& e2.selection is None
        &&& e2.dirty
        &&& e2.file_path == e.file_path
        &&& e2.scroll_offset == e.scroll_offset
    })
}

impl Editor {
    /// The cursor and the selection lie within the text, the undo history
    /// is in step with the text, and the syntax tree was last parsed from
    /// the text as it is.
    pub open spec fn wf(&self) -> bool {
        &&& self.markdown.has_tree()
        &&& self.markdown.log().len() > 0
        &&& self.markdown.log().last().0 != 1
        &&& self.markdown.log().last().2 == self.buffer@
        &&& valid_pos(self.buffer@, self.cursor.line as int, self.cursor.col as int)
        &&& match self.selection {
            Some(s) => valid_cursor(self.buffer@, s.anchor) && valid_cursor(self.buffer@, s.head),
            None => true,
        }
        &&& history_fits(self.buffer@, self.undo_stack.model())
    }

    pub open spec fn cursor_pos(&self) -> (usize, usize) {
        (self.cursor.line, self.cursor.col)
    }

    /// The cursor's char index in the text.
    pub open spec fn cursor_index(&self) -> int {
        char_index(self.buffer@, self.cursor.line as int, self.cursor.col as int)
    }

    /// An empty, unnamed document.
    pub fn new() -> (e: Self)
        ensures
            e.wf(),
            e.buffer@ == Seq::<char>::empty(),
            e.cursor == (Cursor { line: 0, col: 0, desired_col: 0 }),
            e.selection is None,
            e.undo_stack.model() == (UndoModel { undo: Seq::empty(), redo: Seq::empty(), current: None }),
            e.file_path is None,
            !e.dirty,
            e.scroll_offset == 0,
            e.markdown.has_tree(),
    {
        let buffer = Buffer::new();
        let mut markdown = MarkdownState::new();
        markdown.parse_full(&buffer);
        let e = Editor {
            buffer,
            cursor: Cursor::new(),
            selection: None,
            undo_stack: UndoStack::new(),
            file_path: None,
            dirty: false,
            scroll_offset: 0,
            markdown,
        };
        proof { crate::editor::buffer::lemma_line_starts_ordered(e.buffer@, 0); }
        e
    }

    /// A document holding `text`, read from `file_path`.
    pub fn from_contents(text: &str, file_path: Option<String>) -> (e: Self)
        requires
            text@.len() < usize::MAX,
        ensures
            e.wf(),
            e.buffer@ == text@,
            e.cursor == (Cursor { line: 0, col: 0, desired_col: 0 }),
            e.selection is None,
            e.undo_stack.model() == (UndoModel { undo: Seq::empty(), redo: Seq::empty(), current: None }),
            e.file_path == file_path,
            !e.dirty,
            e.scroll_offset == 0,
            e.markdown.has_tree(),
    {
        let buffer = Buffer::from_str(text);
        let mut markdown = MarkdownState::new();
        markdown.parse_full(&buffer);
        let e = Editor {
            buffer,
            cursor: Cursor::new(),
            selection: None,
            undo_stack: UndoStack::new(),
            file_path,
            dirty: false,
            scroll_offset: 0,
            markdown,
        };
        proof { crate::editor::buffer::lemma_line_starts_ordered(e.buffer@, 0); }
        e
    }

    /// Byte offset of the cursor in the text.
    pub fn cursor_byte_offset(&self) -> (b: usize)
        requires
            self.wf(),
        ensures
            b == byte_offset(self.buffer@, char_index(self.buffer@, self.cursor.line as int, self.cursor.col as int)),
    {
        proof { lemma_valid_index(self.buffer@, self.cursor.line as int, self.cursor.col as int); }
        self.buffer.line_col_to_byte(self.cursor.line, self.cursor.col)
    }
}

impl Editor {
    /// Deletes an active selection (recorded as an undo group of its own)
    /// and clears the selection; says whether a selection with distinct
    /// ends was there.
    fn delete_selection_if_active(&mut self) -> (active: bool)
        requires
            old(self).wf(),
        ensures
            final(self).wf(),
            active == (old(self).selection matches Some(s) && s.anchor != s.head),
            (final(self).buffer@, final(self).cursor_pos())
                == cut_selection(old(self).buffer@, old(self).selection, old(self).cursor_pos()),
            final(self).undo_stack.model()
                == cut_history(old(self).buffer@, old(self).undo_stack.model(), old(self).selection, old(self).cursor_pos()),
            final(self).cursor.desired_col == (if cuts(old(self).buffer@, old(self).selection) {
                final(self).cursor.col
            } else {
                old(self).cursor.desired_col
            }),
            final(self).selection is None,
            final(self).dirty == (old(self).dirty || cuts(old(self).buffer@, old(self).selection)),
            final(self).file_path == old(self).file_path,
            final(self).scroll_offset == old(self).scroll_offset,
            byte_len(final(self).buffer@) <= byte_len(old(self).buffer@),
    {
        let sel = match self.selection.take() {
            Some(s) => s,
            None => return false,
        };
        if sel.is_empty() {
            return false;
        }
        let ghost t = self.buffer@;
        let ghost h = self.undo_stack.model();
        let (start, end) = sel.ordered();
        proof {
            lemma_valid_index(t, start.0 as int, start.1 as int);
            lemma_valid_index(t, end.0 as int, end.1 as int);
            use_type_invariant(&self.buffer);
            Buffer::lemma_fits(&self.buffer);
        }
        let total_bytes = self.buffer.len_bytes();
        let cursor_before = self.cursor.position();
        let char_pos = self.buffer.line_col_to_char_idx(start.0, start.1);
        let deleted = self.buffer.delete_range(start, end);
        match deleted {
            Some(op) => {
                let ghost a = char_pos as int;
                let ghost b = char_index(t, end.0 as int, end.1 as int);
                let ghost t1 = self.buffer@;
                let ghost m = op.model();
                let deleted_text = match &op {
                    Operation::Delete { text, .. } => text.clone(),
                    Operation::Insert { text, .. } => text.clone(),
                };
                proof {
                    assert(deleted_text@ == t.subrange(a, b));
                    assert(t1 =~= t.take(a) + t.skip(b));
                    lemma_delete_bytes(t, a, b);
                }
                let edit = input_edit_for_delete(&self.buffer, char_pos, deleted_text.as_str());
                proof {
                    assert(t1.take(a) =~= t.take(a));
                    assert(t1.skip(a) =~= t.skip(b));
                    crate::markdown::lemma_byte_len_empty(t1.subrange(a, a));
                    crate::markdown::lemma_edit_describes(edit, t, t1, a, b, a);
                }
                self.markdown.apply_edit(edit, &self.buffer);
                self.cursor.line = start.0;
                self.cursor.col = start.1;
                self.cursor.reset_desired_col();
                proof {
                    assert(t1.take(a) =~= t.take(a));
                    lemma_pos_kept(t, t1, start.0 as int, start.1 as int);
                }
                let cursor_after = self.cursor.position();
                self.undo_stack.seal();
                proof {
                    lemma_history_seal(t, h);
                    assert(undo::op_fits(t, m));
                    assert(apply_op(t, m) == t1);
                    lemma_history_record(t, sealed(h), m, cursor_before, cursor_after, false);
                    lemma_history_record(t, sealed(h), m, cursor_before, cursor_after, true);
                    assert(recorded(sealed(h), m, cursor_before, cursor_after, true)
                        == recorded(sealed(h), m, cursor_before, cursor_after, false));
                }
                self.undo_stack.record(op, cursor_before, cursor_after);
                proof {
                    lemma_history_seal(t1, self.undo_stack.model());
                }
                self.undo_stack.seal();
                self.dirty = true;
            },
            None => {},
        }
        true
    }
}

/// The text and cursor a single-char insertion leads to, after an active
/// selection is deleted.
pub open spec fn typed(t: Seq<char>, sel: Option<Selection>, cursor: (usize, usize), ch: char) -> (Seq<char>, (usize, usize)) {
    let (t0, c0) = cut_selection(t, sel, cursor);
    let p = char_index(t0, c0.0 as int, c0.1 as int);
    (
        t0.take(p) + seq![ch] + t0.skip(p),
        if ch == '\n' { ((c0.0 + 1) as usize, 0usize) } else { (c0.0, (c0.1 + 1) as usize) },
    )
}

/// The insertion that typing `ch` records.
pub open spec fn typed_op(t: Seq<char>, sel: Option<Selection>, cursor: (usize, usize), ch: char) -> OpModel {
    let (t0, c0) = cut_selection(t, sel, cursor);
    OpModel { insert: true, pos: char_index(t0, c0.0 as int, c0.1 as int), text: seq![ch] }
}

/// Undo takes back a typed char: from a document with no selection and
/// no open undo group, typing `ch` (from `e0` to `e1`, as `insert_char`
/// states) leaves a group to undo, and undoing it (as `undo` states) gives
/// `e0`'s text back with the cursor where it was.
pub proof fn law_undo_typed_char(e0: Editor, e1: Editor, ch: char, timed_out: bool)
    requires
        e0.wf(),
        e1.wf(),
        e0.selection is None,
        e0.undo_stack.model().current is None,
        (e1.buffer@, e1.cursor_pos()) == typed(e0.buffer@, None, e0.cursor_pos(), ch),
        e1.undo_stack.model() == recorded(
            e0.undo_stack.model(),
            typed_op(e0.buffer@, None, e0.cursor_pos(), ch),
            e0.cursor_pos(),
            e1.cursor_pos(),
            timed_out,
        ),
    ensures
        sealed(e1.undo_stack.model()).undo.len() > 0,
        revert_ops(e1.buffer@, sealed(e1.undo_stack.model()).undo.last().ops) == e0.buffer@,
        sealed(e1.undo_stack.model()).undo.last().cursor_before == e0.cursor_pos(),
{
    let t = e0.buffer@;
    let c = e0.cursor_pos();
    let op = typed_op(t, None, c, ch);
    lemma_valid_index(t, c.0 as int, c.1 as int);
    assert(apply_op(t, op) == e1.buffer@);
    history::law_undo_after_record(t, e0.undo_stack.model(), op, c, e1.cursor_pos(), timed_out);
}

impl Editor {
    /// Types `ch` at the cursor, replacing an active selection; the cursor
    /// moves past it.
    pub fn insert_char(&mut self, ch: char)
        requires
            old(self).wf(),
            byte_len(old(self).buffer@) + 4 < usize::MAX,
        ensures
            final(self).wf(),
            (final(self).buffer@, final(self).cursor_pos())
                == typed(old(self).buffer@, old(self).selection, old(self).cursor_pos(), ch),
            final(self).cursor.desired_col == final(self).cursor.col,
            exists|timed_out: bool| final(self).undo_stack.model() == #[trigger] recorded(
                cut_history(old(self).buffer@, old(self).undo_stack.model(), old(self).selection, old(self).cursor_pos()),
                typed_op(old(self).buffer@, old(self).selection, old(self).cursor_pos(), ch),
                cut_selection(old(self).buffer@, old(self).selection, old(self).cursor_pos()).1,
                final(self).cursor_pos(),
                timed_out,
            ),
            final(self).selection is None,
            final(self).dirty,
            final(self).file_path == old(self).file_path,
            final(self).scroll_offset == old(self).scroll_offset,
    {
        self.delete_selection_if_active();
        let ghost t0 = self.buffer@;
        let ghost h0 = self.undo_stack.model();
        let ghost l0 = self.cursor.line as int;
        let ghost c0 = self.cursor.col as int;
        proof {
            lemma_valid_index(t0, l0, c0);
            lemma_byte_len_ge(t0);
            crate::editor::buffer::lemma_char_bytes(ch);
            text::lemma_nl_bounds(t0, t0.len() as int);
        }
        let cursor_before = self.cursor.position();
        let char_pos = self.buffer.line_col_to_char_idx(self.cursor.line, self.cursor.col);
        let op = self.buffer.insert_char(self.cursor.line, self.cursor.col, ch);
        let ghost p = char_pos as int;
        let ghost t1 = self.buffer@;
        if ch == '\n' {
            self.cursor.line += 1;
            self.cursor.col = 0;
        } else {
            self.cursor.col += 1;
        }
        self.cursor.reset_desired_col();
        proof {
            assert(t1 =~= t0.take(p) + seq![ch] + t0.skip(p));
            assert(t1.take(p) =~= t0.take(p));
            assert(t1.take(p + 1) =~= t0.take(p).push(ch));
            lemma_nl_prefix(t0, t1, p);
            assert(t1[p] == ch);
            assert(nl_before(t1, p + 1) == nl_before(t1, p) + if ch == '\n' { 1nat } else { 0nat });
            if ch == '\n' {
                assert(text::is_line_start(t1, l0 + 1, p + 1));
                text::lemma_line_start_is(t1, l0 + 1, p + 1);
            } else {
                lemma_line_start_prefix(t0, t1, l0, p);
            }
            crate::editor::buffer::lemma_pos_of_index(t1, p + 1);
            assert(valid_pos(t1, self.cursor.line as int, self.cursor.col as int));
            // bytes of the edit
            lemma_byte_len_concat(t0.take(p), seq![ch]);
            lemma_byte_len_concat(t0.take(p), t0.skip(p));
            assert(t0.take(p) + t0.skip(p) =~= t0);
            lemma_byte_len_ge(t0.skip(p));
        }
        let text = char_to_string(ch);
        let edit = input_edit_for_insert(&self.buffer, char_pos, text.as_str());
        proof {
            assert(t1.skip(p + 1) =~= t0.skip(p));
            assert(t1.subrange(p, p + 1) =~= text@);
            crate::markdown::lemma_byte_len_empty(t0.subrange(p, p));
            crate::markdown::lemma_edit_describes(edit, t0, t1, p, p, p + 1);
        }
        self.markdown.apply_edit(edit, &self.buffer);
        let cursor_after = self.cursor.position();
        proof {
            assert(apply_op(t0, op.model()) == t1);
            lemma_history_record(t0, h0, op.model(), cursor_before, cursor_after, false);
            lemma_history_record(t0, h0, op.model(), cursor_before, cursor_after, true);
        }
        let ghost m = op.model();
        self.undo_stack.record(op, cursor_before, cursor_after);
        proof {
            assert(m == typed_op(old(self).buffer@, old(self).selection, old(self).cursor_pos(), ch));
            if self.undo_stack.model() == recorded(h0, m, cursor_before, cursor_after, true) {
                assert(exists|x: bool| self.undo_stack.model() == recorded(h0, m, cursor_before, cursor_after, x));
            } else {
                assert(self.undo_stack.model() == recorded(h0, m, cursor_before, cursor_after, false));
            }
        }
        self.dirty = true;
    }

    /// Breaks the line at the cursor.
    pub fn insert_newline(&mut self)
        requires
            old(self).wf(),
            byte_len(old(self).buffer@) + 4 < usize::MAX,
        ensures
            final(self).wf(),
            (final(self).buffer@, final(self).cursor_pos())
                == typed(old(self).buffer@, old(self).selection, old(self).cursor_pos(), '\n'),
            final(self).selection is None,
            final(self).dirty,
    {
        self.insert_char('\n');
    }
}

impl Editor {
    /// Deletes the char after the cursor (a line feed joins the next line),
    /// or an active selection instead.
    pub fn delete_forward(&mut self)
        requires
            old(self).wf(),
            byte_len(old(self).buffer@) < usize::MAX,
        ensures
            final(self).wf(),
            final(self).selection is None,
            final(self).file_path == old(self).file_path,
            final(self).scroll_offset == old(self).scroll_offset,
            ({
                let t = old(self).buffer@;
                let h = old(self).undo_stack.model();
                let sel = old(self).selection;
                let c = old(self).cursor_pos();
                let p = char_index(t, c.0 as int, c.1 as int);
                if sel matches Some(s) && s.anchor != s.head {
                    &&& (final(self).buffer@, final(self).cursor_pos()) == cut_selection(t, sel, c)
                    &&& final(self).undo_stack.model() == cut_history(t, h, sel, c)
                } else if p < t.len() {
                    let op = OpModel { insert: false, pos: p, text: seq![t[p]] };
                    &&& final(self).buffer@ == t.take(p) + t.skip(p + 1)
                    &&& final(self).cursor_pos() == c
                    &&& final(self).cursor.desired_col
                        == (if final(self).buffer@.len() == 0 { 0 } else { old(self).cursor.desired_col })
                    &&& exists|x: bool| final(self).undo_stack.model() == recorded(h, op, c, c, x)
                    &&& final(self).dirty
                } else {
                    &&& final(self).buffer@ == t
                    &&& final(self).cursor == old(self).cursor
                    &&& final(self).undo_stack.model() == h
                    &&& final(self).dirty == old(self).dirty
                }
            }),
    {
        if self.delete_selection_if_active() {
            return;
        }
        let ghost t = self.buffer@;
        let ghost h = self.undo_stack.model();
        let ghost l = self.cursor.line as int;
        let ghost c = self.cursor.col as int;
        proof {
            lemma_valid_index(t, l, c);
        }
        let cursor_before = self.cursor.position();
        let char_pos = self.buffer.line_col_to_char_idx(self.cursor.line, self.cursor.col);
        let deleted = self.buffer.delete_char_forward(self.cursor.line, self.cursor.col);
        match deleted {
            Some(op) => {
                let ghost p = char_pos as int;
                let ghost t1 = self.buffer@;
                let ghost m = op.model();
                let deleted_text = match &op {
                    Operation::Delete { text, .. } => text.clone(),
                    Operation::Insert { text, .. } => text.clone(),
                };
                proof {
                    assert(t1 =~= t.take(p) + t.skip(p + 1));
                    assert(t.subrange(p, p + 1) =~= seq![t[p]]);
                    lemma_delete_bytes(t, p, p + 1);
                }
                let edit = input_edit_for_delete(&self.buffer, char_pos, deleted_text.as_str());
                proof {
                    assert(t1.take(p) =~= t.take(p));
                    assert(t1.skip(p) =~= t.skip(p + 1));
                    assert(deleted_text@ =~= t.subrange(p, p + 1));
                    crate::markdown::lemma_byte_len_empty(t1.subrange(p, p));
                    crate::markdown::lemma_edit_describes(edit, t, t1, p, p + 1, p);
                }
                self.markdown.apply_edit(edit, &self.buffer);
                proof {
                    assert(t1.take(p) =~= t.take(p));
                    lemma_pos_kept(t, t1, l, c);
                    crate::editor::buffer::lemma_line_starts_ordered(t1, l);
                    if t1.len() == 0 {
                        text::lemma_nl_bounds(t1, 0);
                    }
                }
                self.cursor.clamp(&self.buffer);
                let cursor_after = self.cursor.position();
                proof {
                    assert(t.subrange(p, p + 1) =~= seq![t[p]]);
                    assert(apply_op(t, m) == t1);
                    lemma_history_record(t, h, m, cursor_before, cursor_after, false);
                    lemma_history_record(t, h, m, cursor_before, cursor_after, true);
                }
                self.undo_stack.record(op, cursor_before, cursor_after);
                proof {
                    if self.undo_stack.model() == recorded(h, m, cursor_before, cursor_after, true) {
                        assert(exists|x: bool| self.undo_stack.model() == recorded(h, m, cursor_before, cursor_after, x));
                    } else {
                        assert(self.undo_stack.model() == recorded(h, m, cursor_before, cursor_after, false));
                    }
                }
                self.dirty = true;
            },
            None => {},
        }
    }

    /// Deletes the char before the cursor (at a line's start, the line feed
    /// before it), or an active selection instead; the cursor moves back
    /// onto the deleted char's place.
    pub fn delete_backward(&mut self)
        requires
            old(self).wf(),
            byte_len(old(self).buffer@) < usize::MAX,
        ensures
            final(self).wf(),
            final(self).selection is None,
            final(self).file_path == old(self).file_path,
            final(self).scroll_offset == old(self).scroll_offset,
            active_selection(old(self).selection) ==>
                (final(self).buffer@, final(self).cursor_pos())
                    == cut_selection(old(self).buffer@, old(self).selection, old(self).cursor_pos())
                && final(self).undo_stack.model()
                    == cut_history(old(self).buffer@, old(self).undo_stack.model(), old(self).selection, old(self).cursor_pos()),
            !active_selection(old(self).selection) && old(self).cursor_index() > 0 ==> {
                let t = old(self).buffer@;
                let p = old(self).cursor_index();
                &&& final(self).buffer@ == t.take(p - 1) + t.skip(p)
                &&& final(self).cursor_pos() == back_of(t, old(self).cursor_pos())
                &&& final(self).cursor.desired_col == final(self).cursor.col
                &&& exists|x: bool| final(self).undo_stack.model() == #[trigger] recorded(
                    old(self).undo_stack.model(),
                    OpModel { insert: false, pos: p - 1, text: seq![t[p - 1]] },
                    old(self).cursor_pos(),
                    back_of(t, old(self).cursor_pos()),
                    x,
                )
                &&& final(self).dirty
            },
            !active_selection(old(self).selection) && old(self).cursor_index() == 0 ==> {
                &&& final(self).buffer@ == old(self).buffer@
                &&& final(self).cursor == old(self).cursor
                &&& final(self).undo_stack.model() == old(self).undo_stack.model()
                &&& final(self).dirty == old(self).dirty
            },
    {
        if self.delete_selection_if_active() {
            return;
        }
        let ghost t = self.buffer@;
        let ghost h = self.undo_stack.model();
        let ghost l = self.cursor.line as int;
        let ghost c = self.cursor.col as int;
        proof {
            lemma_back_position(t, l, c);
            lemma_valid_index(t, l, c);
        }
        let cursor_before = self.cursor.position();
        if self.cursor.line == 0 && self.cursor.col == 0 {
            return;
        }
        let new_line;
        let new_col;
        if self.cursor.col > 0 {
            new_line = self.cursor.line;
            new_col = self.cursor.col - 1;
        } else {
            new_line = self.cursor.line - 1;
            new_col = self.buffer.line_len_chars(self.cursor.line - 1);
        }
        let deleted = self.buffer.delete_char_backward(self.cursor.line, self.cursor.col);
        match deleted {
            Some(op) => {
                let ghost p = char_index(t, l, c);
                let ghost t1 = self.buffer@;
                let ghost m = op.model();
                let deleted_text = match &op {
                    Operation::Delete { text, .. } => text.clone(),
                    Operation::Insert { text, .. } => text.clone(),
                };
                proof {
                    assert(t1 =~= t.take(p - 1) + t.skip(p));
                    assert(t.subrange(p - 1, p) =~= seq![t[p - 1]]);
                    assert(t1.take(p - 1) =~= t.take(p - 1));
                    lemma_pos_kept(t, t1, new_line as int, new_col as int);
                    lemma_delete_bytes(t, p - 1, p);
                }
                let char_pos = self.buffer.line_col_to_char_idx(new_line, new_col);
                let edit = input_edit_for_delete(&self.buffer, char_pos, deleted_text.as_str());
                proof {
                    assert(t1.skip(p - 1) =~= t.skip(p));
                    assert(deleted_text@ =~= t.subrange(p - 1, p));
                    crate::markdown::lemma_byte_len_empty(t1.subrange(p - 1, p - 1));
                    crate::markdown::lemma_edit_describes(edit, t, t1, p - 1, p, p - 1);
                }
                self.markdown.apply_edit(edit, &self.buffer);
                self.cursor.line = new_line;
                self.cursor.col = new_col;
                self.cursor.reset_desired_col();
                let cursor_after = self.cursor.position();
                proof {
                    assert(cursor_after == (if c > 0 {
                        (l as usize, (c - 1) as usize)
                    } else {
                        ((l - 1) as usize, line_len(t, l - 1) as usize)
                    }));
                    assert(apply_op(t, m) == t1);
                    lemma_history_record(t, h, m, cursor_before, cursor_after, false);
                    lemma_history_record(t, h, m, cursor_before, cursor_after, true);
                }
                self.undo_stack.record(op, cursor_before, cursor_after);
                proof {
                    assert(cursor_after == back_of(t, cursor_before));
                    assert(m == OpModel { insert: false, pos: p - 1, text: seq![t[p - 1]] });
                    if self.undo_stack.model() == recorded(h, m, cursor_before, cursor_after, true) {
                        assert(exists|x: bool| self.undo_stack.model() == recorded(h, m, cursor_before, cursor_after, x));
                    } else {
                        assert(self.undo_stack.model() == recorded(h, m, cursor_before, cursor_after, false));
                    }
                }
                self.dirty = true;
            },
            None => {},
        }
    }

    /// Inserts pasted text at the cursor, replacing an active selection,
    /// as an undo group of its own; the cursor moves to the end of the
    /// text. Empty text changes nothing.
    pub fn paste(&mut self, text: &str)
        requires
            old(self).wf(),
            byte_len(old(self).buffer@) + byte_len(text@) + 1 < usize::MAX,
        ensures
            final(self).wf(),
            pasted(*old(self), *final(self), text@),
    {
        if text.unicode_len() == 0 {
            return;
        }
        self.delete_selection_if_active();
        let ghost t0 = self.buffer@;
        let ghost h0 = self.undo_stack.model();
        let ghost l0 = self.cursor.line as int;
        let ghost c0 = self.cursor.col as int;
        proof {
            lemma_valid_index(t0, l0, c0);
            lemma_byte_len_ge(t0);
            lemma_byte_len_ge(text@);
        }
        let cursor_before = self.cursor.position();
        let char_pos = self.buffer.line_col_to_char_idx(self.cursor.line, self.cursor.col);
        let op = self.buffer.insert_str(self.cursor.line, self.cursor.col, text);
        let ghost p = char_pos as int;
        let ghost t1 = self.buffer@;
        proof {
            assert(t1 =~= t0.take(p) + text@ + t0.skip(p));
            assert(t1.take(p) =~= t0.take(p));
            lemma_byte_len_concat(t0.take(p), text@);
            lemma_byte_len_concat(t0.take(p), t0.skip(p));
            assert(t0.take(p) + t0.skip(p) =~= t0);
            lemma_byte_len_ge(t0.skip(p));
            lemma_line_start_prefix(t0, t1, l0, p);
        }
        let edit = input_edit_for_insert(&self.buffer, char_pos, text);
        proof {
            assert(t1.skip(p + text@.len()) =~= t0.skip(p));
            assert(t1.subrange(p, p + text@.len()) =~= text@);
            crate::markdown::lemma_byte_len_empty(t0.subrange(p, p));
            crate::markdown::lemma_edit_describes(edit, t0, t1, p, p, p + text@.len());
        }
        self.markdown.apply_edit(edit, &self.buffer);
        let start_idx = self.buffer.line_col_to_char_idx(cursor_before.0, cursor_before.1);
        let (end_line, end_col) = self.buffer.char_idx_to_line_col(start_idx + text.unicode_len());
        self.cursor.line = end_line;
        self.cursor.col = end_col;
        self.cursor.reset_desired_col();
        let cursor_after = self.cursor.position();
        self.undo_stack.seal();
        proof {
            lemma_history_seal(t0, h0);
            assert(apply_op(t0, op.model()) == t1);
            lemma_history_record(t0, sealed(h0), op.model(), cursor_before, cursor_after, false);
            lemma_history_record(t0, sealed(h0), op.model(), cursor_before, cursor_after, true);
            assert(recorded(sealed(h0), op.model(), cursor_before, cursor_after, true)
                == recorded(sealed(h0), op.model(), cursor_before, cursor_after, false));
        }
        self.undo_stack.record(op, cursor_before, cursor_after);
        proof {
            lemma_history_seal(t1, self.undo_stack.model());
        }
        self.undo_stack.seal();
        self.dirty = true;
    }
}

/// The selection after a move from `from` to `to`: a shifted move starts
/// one at `from` or extends the one there to `to`; any other move clears
/// it.
pub open spec fn selection_after(shift: bool, sel: Option<Selection>, from: (usize, usize), to: (usize, usize)) -> Option<Selection> {
    if shift {
        match sel {
            Some(s) => Some(Selection { anchor: s.anchor, head: to }),
            None => Some(Selection { anchor: from, head: to }),
        }
    } else {
        None
    }
}

/// Shifted moves grow one selection: its anchor stays where the first
/// shifted move started and its head follows the cursor, so two shifted
/// moves select what one shifted move over both would; a move without
/// Shift drops the selection.
pub proof fn law_shift_moves_keep_anchor(
    sel: Option<Selection>,
    p0: (usize, usize),
    p1: (usize, usize),
    p2: (usize, usize),
)
    ensures
        selection_after(true, selection_after(true, sel, p0, p1), p1, p2) == selection_after(true, sel, p0, p2),
        selection_after(true, sel, p0, p1) == Some(
            Selection {
                anchor: match sel {
                    Some(s) => s.anchor,
                    None => p0,
                },
                head: p1,
            },
        ),
        selection_after(false, sel, p0, p1) is None,
{
}

impl Editor {
    fn update_selection(&mut self, shift: bool, old_pos: (usize, usize))
        requires
            valid_pos(old(self).buffer@, old(self).cursor.line as int, old(self).cursor.col as int),
            valid_cursor(old(self).buffer@, old_pos),
            match old(self).selection {
                Some(s) => valid_cursor(old(self).buffer@, s.anchor) && valid_cursor(old(self).buffer@, s.head),
                None => true,
            },
        ensures
            final(self).selection == selection_after(shift, old(self).selection, old_pos, old(self).cursor_pos()),
            final(self).buffer == old(self).buffer,
            final(self).cursor == old(self).cursor,
            final(self).undo_stack == old(self).undo_stack,
            final(self).dirty == old(self).dirty,
            final(self).file_path == old(self).file_path,
            final(self).scroll_offset == old(self).scroll_offset,
            final(self).markdown == old(self).markdown,
    {
        if shift {
            match self.selection {
                None => {
                    self.selection = Some(Selection::new(old_pos, self.cursor.position()));
                },
                Some(sel) => {
                    self.selection = Some(Selection { anchor: sel.anchor, head: self.cursor.position() });
                },
            }
        } else {
            self.selection = None;
        }
    }

    /// Moves one char left, or to the start of an active selection.
    pub fn move_left(&mut self, shift: bool)
        requires
            old(self).wf(),
        ensures
            final(self).wf(),
            final(self).buffer@ == old(self).buffer@,
            final(self).undo_stack.model() == sealed(old(self).undo_stack.model()),
            !shift && active_selection(old(self).selection) ==> {
                &&& final(self).cursor_pos() == old(self).selection.unwrap().spec_ordered().0
                &&& final(self).cursor.desired_col == final(self).cursor.col
                &&& final(self).selection is None
            },
            !(!shift && active_selection(old(self).selection)) ==> {
                &&& final(self).cursor == left_of(old(self).buffer@, old(self).cursor)
                &&& final(self).selection
                    == selection_after(shift, old(self).selection, old(self).cursor_pos(), final(self).cursor_pos())
            },
            final(self).dirty == old(self).dirty,
            final(self).file_path == old(self).file_path,
            final(self).scroll_offset == old(self).scroll_offset,
    {
        proof {
            lemma_history_seal(self.buffer@, self.undo_stack.model());
            use_type_invariant(&self.buffer);
            Buffer::lemma_fits(&self.buffer);
            lemma_moves_stay_valid(self.buffer@, self.cursor);
        }
        self.undo_stack.seal();
        let old_pos = self.cursor.position();
        if !shift {
            match self.selection.take() {
                Some(sel) => {
                    if !sel.is_empty() {
                        let ends = sel.ordered();
                        self.cursor.line = ends.0.0;
                        self.cursor.col = ends.0.1;
                        self.cursor.reset_desired_col();
                        return;
                    }
                },
                None => {},
            }
        }
        self.cursor.move_left(&self.buffer);
        self.update_selection(shift, old_pos);
    }

    /// Moves one char right, or to the end of an active selection.
    pub fn move_right(&mut self, shift: bool)
        requires
            old(self).wf(),
        ensures
            final(self).wf(),
            final(self).buffer@ == old(self).buffer@,
            final(self).undo_stack.model() == sealed(old(self).undo_stack.model()),
            !shift && active_selection(old(self).selection) ==> {
                &&& final(self).cursor_pos() == old(self).selection.unwrap().spec_ordered().1
                &&& final(self).cursor.desired_col == final(self).cursor.col
                &&& final(self).selection is None
            },
            !(!shift && active_selection(old(self).selection)) ==> {
                &&& final(self).cursor == right_of(old(self).buffer@, old(self).cursor)
                &&& final(self).selection
                    == selection_after(shift, old(self).selection, old(self).cursor_pos(), final(self).cursor_pos())
            },
            final(self).dirty == old(self).dirty,
            final(self).file_path == old(self).file_path,
            final(self).scroll_offset == old(self).scroll_offset,
    {
        proof {
            lemma_history_seal(self.buffer@, self.undo_stack.model());
            use_type_invariant(&self.buffer);
            Buffer::lemma_fits(&self.buffer);
            lemma_moves_stay_valid(self.buffer@, self.cursor);
        }
        self.undo_stack.seal();
        let old_pos = self.cursor.position();
        if !shift {
            match self.selection.take() {
                Some(sel) => {
                    if !sel.is_empty() {
                        let ends = sel.ordered();
                        self.cursor.line = ends.1.0;
                        self.cursor.col = ends.1.1;
                        self.cursor.reset_desired_col();
                        return;
                    }
                },
                None => {},
            }
        }
        self.cursor.move_right(&self.buffer);
        self.update_selection(shift, old_pos);
    }

    /// Moves one line up.
    pub fn move_up(&mut self, shift: bool)
        requires
            old(self).wf(),
        ensures
            final(self).wf(),
            final(self).buffer@ == old(self).buffer@,
            final(self).undo_stack.model() == sealed(old(self).undo_stack.model()),
            final(self).cursor == up_of(old(self).buffer@, old(self).cursor),
            final(self).selection == selection_after(shift, old(self).selection, old(self).cursor_pos(), final(self).cursor_pos()),
            final(self).dirty == old(self).dirty,
            final(self).file_path == old(self).file_path,
            final(self).scroll_offset == old(self).scroll_offset,
    {
        proof {
            lemma_history_seal(self.buffer@, self.undo_stack.model());
            use_type_invariant(&self.buffer);
            Buffer::lemma_fits(&self.buffer);
            lemma_moves_stay_valid(self.buffer@, self.cursor);
        }
        self.undo_stack.seal();
        let old_pos = self.cursor.position();
        if !shift {
            self.selection = None;
        }
        self.cursor.move_up(&self.buffer);
        self.update_selection(shift, old_pos);
    }

    /// Moves one line down.
    pub fn move_down(&mut self, shift: bool)
        requires
            old(self).wf(),
        ensures
            final(self).wf(),
            final(self).buffer@ == old(self).buffer@,
            final(self).undo_stack.model() == sealed(old(self).undo_stack.model()),
            final(self).cursor == down_of(old(self).buffer@, old(self).cursor),
            final(self).selection == selection_after(shift, old(self).selection, old(self).cursor_pos(), final(self).cursor_pos()),
            final(self).dirty == old(self).dirty,
            final(self).file_path == old(self).file_path,
            final(self).scroll_offset == old(self).scroll_offset,
    {
        proof {
            lemma_history_seal(self.buffer@, self.undo_stack.model());
            use_type_invariant(&self.buffer);
            Buffer::lemma_fits(&self.buffer);
            lemma_moves_stay_valid(self.buffer@, self.cursor);
        }
        self.undo_stack.seal();
        let old_pos = self.cursor.position();
        if !shift {
            self.selection = None;
        }
        self.cursor.move_down(&self.buffer);
        self.update_selection(shift, old_pos);
    }

    /// Moves to the start of the line.
    pub fn move_home(&mut self, shift: bool)
        requires
            old(self).wf(),
        ensures
            final(self).wf(),
            final(self).buffer@ == old(self).buffer@,
            final(self).undo_stack.model() == sealed(old(self).undo_stack.model()),
            final(self).cursor == (Cursor { col: 0, desired_col: 0, ..old(self).cursor }),
            final(self).selection == selection_after(shift, old(self).selection, old(self).cursor_pos(), final(self).cursor_pos()),
            final(self).dirty == old(self).dirty,
            final(self).file_path == old(self).file_path,
            final(self).scroll_offset == old(self).scroll_offset,
    {
        proof {
            lemma_history_seal(self.buffer@, self.undo_stack.model());
            use_type_invariant(&self.buffer);
            Buffer::lemma_fits(&self.buffer);
            lemma_moves_stay_valid(self.buffer@, self.cursor);
        }
        self.undo_stack.seal();
        let old_pos = self.cursor.position();
        if !shift {
            self.selection = None;
        }
        self.cursor.move_home();
        self.update_selection(shift, old_pos);
    }

    /// Moves to the end of the line.
    pub fn move_end(&mut self, shift: bool)
        requires
            old(self).wf(),
        ensures
            final(self).wf(),
            final(self).buffer@ == old(self).buffer@,
            final(self).undo_stack.model() == sealed(old(self).undo_stack.model()),
            final(self).cursor == end_of(old(self).buffer@, old(self).cursor),
            final(self).selection == selection_after(shift, old(self).selection, old(self).cursor_pos(), final(self).cursor_pos()),
            final(self).dirty == old(self).dirty,
            final(self).file_path == old(self).file_path,
            final(self).scroll_offset == old(self).scroll_offset,
    {
        proof {
            lemma_history_seal(self.buffer@, self.undo_stack.model());
            use_type_invariant(&self.buffer);
            Buffer::lemma_fits(&self.buffer);
            lemma_moves_stay_valid(self.buffer@, self.cursor);
        }
        self.undo_stack.seal();
        let old_pos = self.cursor.position();
        if !shift {
            self.selection = None;
        }
        self.cursor.move_end(&self.buffer);
        self.update_selection(shift, old_pos);
    }

    /// Moves to the start of the word on the left.
    pub fn move_word_left(&mut self, shift: bool)
        requires
            old(self).wf(),
        ensures
            final(self).wf(),
            final(self).buffer@ == old(self).buffer@,
            final(self).undo_stack.model() == sealed(old(self).undo_stack.model()),
            final(self).cursor == word_left_of(old(self).buffer@, old(self).cursor),
            final(self).selection == selection_after(shift, old(self).selection, old(self).cursor_pos(), final(self).cursor_pos()),
            final(self).dirty == old(self).dirty,
            final(self).file_path == old(self).file_path,
            final(self).scroll_offset == old(self).scroll_offset,
    {
        proof {
            lemma_history_seal(self.buffer@, self.undo_stack.model());
            use_type_invariant(&self.buffer);
            Buffer::lemma_fits(&self.buffer);
            lemma_moves_stay_valid(self.buffer@, self.cursor);
        }
        self.undo_stack.seal();
        let old_pos = self.cursor.position();
        if !shift {
            self.selection = None;
        }
        self.cursor.move_word_left(&self.buffer);
        self.update_selection(shift, old_pos);
    }

    /// Moves past the word on the right.
    pub fn move_word_right(&mut self, shift: bool)
        requires
            old(self).wf(),
        ensures
            final(self).wf(),
            final(self).buffer@ == old(self).buffer@,
            final(self).undo_stack.model() == sealed(old(self).undo_stack.model()),
            final(self).cursor == word_right_of(old(self).buffer@, old(self).cursor),
            final(self).selection == selection_after(shift, old(self).selection, old(self).cursor_pos(), final(self).cursor_pos()),
            final(self).dirty == old(self).dirty,
            final(self).file_path == old(self).file_path,
            final(self).scroll_offset == old(self).scroll_offset,
    {
        proof {
            lemma_history_seal(self.buffer@, self.undo_stack.model());
            use_type_invariant(&self.buffer);
            Buffer::lemma_fits(&self.buffer);
            lemma_moves_stay_valid(self.buffer@, self.cursor);
        }
        self.undo_stack.seal();
        let old_pos = self.cursor.position();
        if !shift {
            self.selection = None;
        }
        self.cursor.move_word_right(&self.buffer);
        self.update_selection(shift, old_pos);
    }

}

impl Editor {
    /// Selects the whole text, with the cursor at its end.
    pub fn select_all(&mut self)
        requires
            old(self).wf(),
        ensures
            final(self).wf(),
            ({
                let t = old(self).buffer@;
                let last = (line_count(t) - 1) as usize;
                let end = (last, line_len(t, last as int) as usize);
                &&& final(self).selection == Some(Selection { anchor: (0usize, 0usize), head: end })
                &&& final(self).cursor == (Cursor { line: end.0, col: end.1, desired_col: end.1 })
            }),
            final(self).buffer@ == old(self).buffer@,
            final(self).undo_stack.model() == old(self).undo_stack.model(),
            final(self).dirty == old(self).dirty,
            final(self).file_path == old(self).file_path,
            final(self).scroll_offset == old(self).scroll_offset,
    {
        proof {
            use_type_invariant(&self.buffer);
            Buffer::lemma_fits(&self.buffer);
            crate::editor::buffer::lemma_line_starts_ordered(self.buffer@, 0);
            crate::editor::buffer::lemma_line_starts_ordered(self.buffer@, line_count(self.buffer@) - 1);
        }
        let n = self.buffer.len_lines();
        let last_line = if n > 0 { n - 1 } else { 0 };
        let last_col = self.buffer.line_len_chars(last_line);
        self.selection = Some(Selection::new((0, 0), (last_line, last_col)));
        self.cursor.line = last_line;
        self.cursor.col = last_col;
        self.cursor.reset_desired_col();
    }

    /// The text to copy: the selected text, where a selection holds any.
    pub fn copy(&self) -> (text: Option<String>)
        requires
            self.wf(),
        ensures
            match self.selection {
                Some(s) => if s.anchor != s.head && s.char_range(self.buffer@).0 < s.char_range(self.buffer@).1 {
                    text matches Some(x) && x@ == self.buffer@.subrange(s.char_range(self.buffer@).0, s.char_range(self.buffer@).1)
                } else {
                    text is None
                },
                None => text is None,
            },
    {
        match &self.selection {
            Some(sel) => {
                proof {
                    lemma_valid_index(self.buffer@, sel.anchor.0 as int, sel.anchor.1 as int);
                    lemma_valid_index(self.buffer@, sel.head.0 as int, sel.head.1 as int);
                    let (a, b) = sel.spec_ordered();
                    text::lemma_pos_le_index(self.buffer@, a, b);
                }
                let text = sel.selected_text(&self.buffer);
                if text.as_str().unicode_len() > 0 {
                    Some(text)
                } else {
                    None
                }
            },
            None => None,
        }
    }

    /// Takes out the selected text (recorded for undo) and gives it back to
    /// be copied.
    pub fn cut(&mut self) -> (text: Option<String>)
        requires
            old(self).wf(),
        ensures
            final(self).wf(),
            match old(self).selection {
                Some(s) => if s.anchor != s.head && s.char_range(old(self).buffer@).0 < s.char_range(old(self).buffer@).1 {
                    text matches Some(x) && x@ == old(self).buffer@.subrange(
                        s.char_range(old(self).buffer@).0,
                        s.char_range(old(self).buffer@).1,
                    )
                } else {
                    text is None
                },
                None => text is None,
            },
            (final(self).buffer@, final(self).cursor_pos())
                == cut_selection(old(self).buffer@, old(self).selection, old(self).cursor_pos()),
            final(self).undo_stack.model()
                == cut_history(old(self).buffer@, old(self).undo_stack.model(), old(self).selection, old(self).cursor_pos()),
            final(self).selection is None,
    {
        let text = self.copy();
        self.delete_selection_if_active();
        text
    }

    /// Undoes the last group of edits (closing the open one first) and
    /// puts the cursor where it was before them.
    pub fn undo(&mut self)
        requires
            old(self).wf(),
        ensures
            final(self).wf(),
            final(self).selection is None,
            final(self).file_path == old(self).file_path,
            final(self).scroll_offset == old(self).scroll_offset,
            ({
                let s = sealed(old(self).undo_stack.model());
                if s.undo.len() == 0 {
                    &&& final(self).buffer@ == old(self).buffer@
                    &&& final(self).cursor == old(self).cursor
                    &&& final(self).undo_stack.model() == s
                    &&& final(self).dirty == old(self).dirty
                } else {
                    let g = s.undo.last();
                    &&& final(self).buffer@ == revert_ops(old(self).buffer@, g.ops)
                    &&& final(self).cursor_pos() == g.cursor_before
                    &&& final(self).cursor.desired_col == final(self).cursor.col
                    &&& final(self).undo_stack.model()
                        == (UndoModel { undo: s.undo.drop_last(), redo: s.redo.push(g), current: None })
                    &&& final(self).dirty
                }
            }),
    {
        self.selection = None;
        let ghost t = self.buffer@;
        let ghost h = self.undo_stack.model();
        match self.undo_stack.undo() {
            Some(group) => {
                let ghost g = sealed(h).undo.last();
                proof {
                    lemma_history_undo(t, h);
                    assert(revertible(t, g.ops));
                    assert(group.ops@.len() == g.ops.len());
                    assert(g.ops.take(g.ops.len() as int) =~= g.ops);
                }
                let ghost old_stack = self.undo_stack;
                let mut i: usize = group.ops.len();
                while i > 0
                    invariant
                        i <= group.ops@.len(),
                        group.model() == g,
                        self.selection is None,
                        self.undo_stack == old_stack,
                        self.cursor == old(self).cursor,
                        self.file_path == old(self).file_path,
                        self.scroll_offset == old(self).scroll_offset,
                        revertible(self.buffer@, g.ops.take(i as int)),
                        revert_ops(self.buffer@, g.ops.take(i as int)) == revert_ops(t, g.ops),
                    decreases i,
                {
                    let ghost cur = self.buffer@;
                    let ghost op = g.ops[i - 1];
                    proof {
                        assert(g.ops.take(i as int).last() == op);
                        assert(g.ops.take(i as int).drop_last() =~= g.ops.take(i - 1));
                        assert(group.ops@[i - 1].model() == op);
                        assert(revertible(reverse_op(cur, op), g.ops.take(i - 1)));
                        assert(reverse_op(cur, op).len() < usize::MAX);
                    }
                    self.buffer.reverse(&group.ops[i - 1]);
                    i -= 1;
                }
                proof {
                    assert(g.ops.take(0) =~= Seq::<OpModel>::empty());
                }
                self.cursor.line = group.cursor_before.0;
                self.cursor.col = group.cursor_before.1;
                self.cursor.reset_desired_col();
                self.markdown.parse_full(&self.buffer);
                self.dirty = true;
            },
            None => {},
        }
    }

    /// Redoes the last undone group of edits and puts the cursor where it
    /// was after them.
    pub fn redo(&mut self)
        requires
            old(self).wf(),
        ensures
            final(self).wf(),
            final(self).selection is None,
            final(self).file_path == old(self).file_path,
            final(self).scroll_offset == old(self).scroll_offset,
            ({
                let h = old(self).undo_stack.model();
                if h.redo.len() == 0 {
                    &&& final(self).buffer@ == old(self).buffer@
                    &&& final(self).cursor == old(self).cursor
                    &&& final(self).undo_stack.model() == h
                    &&& final(self).dirty == old(self).dirty
                } else {
                    let g = h.redo.last();
                    &&& final(self).buffer@ == apply_ops(old(self).buffer@, g.ops)
                    &&& final(self).cursor_pos() == g.cursor_after
                    &&& final(self).cursor.desired_col == final(self).cursor.col
                    &&& final(self).undo_stack.model()
                        == (UndoModel { undo: h.undo.push(g), redo: h.redo.drop_last(), current: h.current })
                    &&& final(self).dirty
                }
            }),
    {
        self.selection = None;
        let ghost t = self.buffer@;
        let ghost h = self.undo_stack.model();
        match self.undo_stack.redo() {
            Some(group) => {
                let ghost g = h.redo.last();
                proof {
                    lemma_history_redo(t, h);
                    assert(applicable(t, g.ops));
                    assert(valid_cursor(apply_ops(t, g.ops), g.cursor_after));
                    assert(group.ops@.len() == g.ops.len());
                }
                let ghost old_stack = self.undo_stack;
                let mut i: usize = 0;
                assert(g.ops.take(0) =~= Seq::<OpModel>::empty());
                while i < group.ops.len()
                    invariant
                        i <= group.ops@.len(),
                        group.model() == g,
                        self.selection is None,
                        self.undo_stack == old_stack,
                        self.cursor == old(self).cursor,
                        self.file_path == old(self).file_path,
                        self.scroll_offset == old(self).scroll_offset,
                        applicable(t, g.ops),
                        self.buffer@ == apply_ops(t, g.ops.take(i as int)),
                    decreases group.ops@.len() - i,
                {
                    proof {
                        lemma_applicable_prefix(t, g.ops, i + 1);
                        assert(g.ops.take(i + 1).drop_last() =~= g.ops.take(i as int));
                        assert(g.ops.take(i + 1).last() == g.ops[i as int]);
                        assert(group.ops@[i as int].model() == g.ops[i as int]);
                    }
                    self.buffer.apply(&group.ops[i]);
                    i += 1;
                }
                proof {
                    assert(g.ops.take(i as int) =~= g.ops);
                }
                self.cursor.line = group.cursor_after.0;
                self.cursor.col = group.cursor_after.1;
                self.cursor.reset_desired_col();
                self.markdown.parse_full(&self.buffer);
                self.dirty = true;
            },
            None => {},
        }
    }

    /// Marks the document as saved.
    pub fn mark_saved(&mut self)
        ensures
            !final(self).dirty,
            final(self).buffer == old(self).buffer,
            final(self).cursor == old(self).cursor,
            final(self).selection == old(self).selection,
            final(self).undo_stack == old(self).undo_stack,
            final(self).file_path == old(self).file_path,
            final(self).scroll_offset == old(self).scroll_offset,
    {
        self.dirty = false;
    }
}

/// Screen rows taken by buffer lines: known for the lines of a window
/// starting at `first`; every other line takes one row.
pub struct LineRows {
    pub first: usize,
    pub rows: Vec<usize>,
}

impl LineRows {
    pub open spec fn rows_of(&self, line: int) -> nat {
        if self.first <= line < self.first + self.rows@.len() {
            self.rows@[line - self.first] as nat
        } else {
            1
        }
    }

    /// Rows per line as a function.
    pub open spec fn row_fn(&self) -> spec_fn(int) -> nat {
        |line: int| self.rows_of(line)
    }

    /// Every line takes one row.
    pub fn one_each() -> (r: LineRows)
        ensures
            forall|line: int| #[trigger] r.rows_of(line) == 1,
    {
        LineRows { first: 0, rows: Vec::new() }
    }

    /// Rows taken by `line`.
    pub fn get(&self, line: usize) -> (r: usize)
        ensures
            r == self.rows_of(line as int),
    {
        if line >= self.first && line - self.first < self.rows.len() {
            self.rows[line - self.first]
        } else {
            1
        }
    }

    /// The rows of rendered lines `lines`, the first of which is buffer
    /// line `first`, at width `viewport_width` (see `RenderLine::screen_rows`).
    pub fn for_lines(first: usize, lines: &[crate::render::plan::RenderLine], viewport_width: usize) -> (r: LineRows)
        requires
            crate::view::lines_fit(lines@, viewport_width as int),
        ensures
            r.first == first,
            r.rows@.len() == lines@.len(),
            forall|i: int|
                0 <= i < lines@.len() ==> r.rows@[i] == crate::render::plan::line_rows(
                    #[trigger] lines@[i],
                    viewport_width as int,
                ),
    {
        let mut rows: Vec<usize> = Vec::new();
        let mut i: usize = 0;
        while i < lines.len()
            invariant
                i <= lines@.len(),
                crate::view::lines_fit(lines@, viewport_width as int),
                rows@.len() == i,
                forall|k: int|
                    0 <= k < i ==> rows@[k] == crate::render::plan::line_rows(#[trigger] lines@[k], viewport_width as int),
            decreases lines@.len() - i,
        {
            assert(crate::render::plan::line_width(lines@[i as int].spans@) + viewport_width <= usize::MAX);
            rows.push(lines[i].screen_rows(viewport_width));
            i += 1;
        }
        LineRows { first, rows }
    }

    /// Whether the rows of buffer lines `0..total_lines` plus the scroll
    /// margin fit the counters that scrolling keeps.
    pub fn scroll_fits(&self, total_lines: usize) -> (b: bool)
        ensures
            b == (rows_in(self.row_fn(), 0, total_lines as int) + SCROLL_MARGIN < usize::MAX),
    {
        let mut sum: usize = 0;
        let mut line: usize = 0;
        while line < total_lines
            invariant
                line <= total_lines,
                sum == rows_in(self.row_fn(), 0, line as int),
                sum + SCROLL_MARGIN < usize::MAX,
            decreases total_lines - line,
        {
            let r = self.get(line);
            if r >= usize::MAX - SCROLL_MARGIN - sum {
                proof { lemma_rows_in_mono(self.row_fn(), line + 1, total_lines as int); }
                return false;
            }
            sum += r;
            line += 1;
        }
        true
    }
}

proof fn lemma_rows_in_mono(f: spec_fn(int) -> nat, j: int, k: int)
    requires
        0 <= j <= k,
    ensures
        rows_in(f, 0, j) <= rows_in(f, 0, k),
    decreases k - j,
{
    if j < k {
        lemma_rows_in_mono(f, j, k - 1);
    }
}

/// Rows taken by lines `a..b`.
pub open spec fn rows_in(f: spec_fn(int) -> nat, a: int, b: int) -> int
    decreases b - a,
{
    if a >= b {
        0
    } else {
        rows_in(f, a, b - 1) + f(b - 1)
    }
}

/// Rows the scroll margin asks for.
pub const SCROLL_MARGIN: usize = 3;

/// Scrolls up from `s` while fewer than the margin's rows lie above the
/// cursor; `above` counts them.
pub open spec fn scroll_up_for_margin(f: spec_fn(int) -> nat, s: int, above: int) -> int
    decreases s,
{
    if s > 0 && above < SCROLL_MARGIN {
        scroll_up_for_margin(f, s - 1, above + f(s - 1))
    } else {
        s
    }
}

/// Rows below the cursor counted toward the margin: lines from `line` on,
/// until the margin is reached or the text ends.
pub open spec fn margin_rows(f: spec_fn(int) -> nat, line: int, total: int, acc: int) -> int
    decreases total - line,
{
    if line < total && acc < SCROLL_MARGIN {
        margin_rows(f, line + 1, total, acc + f(line))
    } else {
        acc
    }
}

/// Scrolls down from `s` until the cursor line and the margin below it
/// fit in `height` rows, or the cursor line is the first shown.
pub open spec fn scroll_down_to_fit(f: spec_fn(int) -> nat, s: int, cl: int, total: int, height: int) -> int
    decreases cl - s,
{
    if rows_in(f, s, cl + 1) + margin_rows(f, cl + 1, total, 0) <= height || s >= cl {
        s
    } else {
        scroll_down_to_fit(f, s + 1, cl, total, height)
    }
}

/// The scroll offset that keeps the cursor line shown with a margin of
/// rows around it, within the text.
pub open spec fn adjusted_scroll(f: spec_fn(int) -> nat, scroll: int, cl: int, total: int, height: int) -> int {
    if height == 0 {
        scroll
    } else {
        let s0 = if scroll > cl { cl } else { scroll };
        let s1 = scroll_up_for_margin(f, s0, rows_in(f, s0, cl));
        let s2 = scroll_down_to_fit(f, s1, cl, total, height);
        let max_scroll = if total > 0 { total - 1 } else { 0 };
        if s2 < max_scroll { s2 } else { max_scroll }
    }
}

proof fn lemma_rows_split(f: spec_fn(int) -> nat, a: int, b: int, c: int)
    requires
        a <= b <= c,
    ensures
        rows_in(f, a, b) + rows_in(f, b, c) == rows_in(f, a, c),
        0 <= rows_in(f, a, b),
    decreases c - b,
{
    if b < c {
        lemma_rows_split(f, a, b, c - 1);
    } else {
        lemma_rows_nonneg(f, a, b);
    }
}

proof fn lemma_rows_nonneg(f: spec_fn(int) -> nat, a: int, b: int)
    ensures
        0 <= rows_in(f, a, b),
    decreases b - a,
{
    if a < b {
        lemma_rows_nonneg(f, a, b - 1);
    }
}

/// Rows of a part of the lines are at most the rows of all of them.
proof fn lemma_rows_within(f: spec_fn(int) -> nat, a: int, b: int, c: int, d: int)
    requires
        c <= a <= b <= d,
    ensures
        rows_in(f, a, b) <= rows_in(f, c, d),
{
    lemma_rows_split(f, c, a, b);
    lemma_rows_split(f, c, b, d);
    lemma_rows_nonneg(f, c, a);
    lemma_rows_nonneg(f, b, d);
}

proof fn lemma_up_bounds(f: spec_fn(int) -> nat, s: int, above: int)
    requires
        s >= 0,
    ensures
        0 <= scroll_up_for_margin(f, s, above) <= s,
    decreases s,
{
    if s > 0 && above < SCROLL_MARGIN {
        lemma_up_bounds(f, s - 1, above + f(s - 1));
    }
}

proof fn lemma_down_bounds(f: spec_fn(int) -> nat, s: int, cl: int, total: int, height: int)
    requires
        s <= cl,
    ensures
        s <= scroll_down_to_fit(f, s, cl, total, height) <= cl,
    decreases cl - s,
{
    if !(rows_in(f, s, cl + 1) + margin_rows(f, cl + 1, total, 0) <= height || s >= cl) {
        lemma_down_bounds(f, s + 1, cl, total, height);
    }
}

impl Editor {
    /// Scrolls to keep the cursor line shown with a margin of rows above
    /// and below it, counting the screen rows `rows` gives each line.
    pub fn adjust_scroll_wrapped(&mut self, viewport_height: usize, rows: &LineRows)
        requires
            old(self).wf(),
            rows_in(rows.row_fn(), 0, line_count(old(self).buffer@) as int) + SCROLL_MARGIN < usize::MAX,
        ensures
            final(self).scroll_offset == adjusted_scroll(
                rows.row_fn(),
                old(self).scroll_offset as int,
                old(self).cursor.line as int,
                line_count(old(self).buffer@) as int,
                viewport_height as int,
            ),
            final(self).buffer == old(self).buffer,
            final(self).cursor == old(self).cursor,
            final(self).selection == old(self).selection,
            final(self).undo_stack == old(self).undo_stack,
            final(self).dirty == old(self).dirty,
            final(self).file_path == old(self).file_path,
    {
        if viewport_height == 0 {
            return;
        }
        let ghost lr = rows.row_fn();
        let cl = self.cursor.line;
        let total = self.buffer.len_lines();
        let ghost all = rows_in(lr, 0, total as int);
        if self.scroll_offset > cl {
            self.scroll_offset = cl;
        }
        let ghost s0 = self.scroll_offset as int;
        // rows from the scroll offset to the cursor line
        let mut rows_above: usize = 0;
        let mut line = self.scroll_offset;
        while line < cl
            invariant
                s0 <= line <= cl < total,
                rows_above == rows_in(lr, s0, line as int),
                all == rows_in(lr, 0, total as int),
                lr == rows.row_fn(),
                0 <= s0,
                all + SCROLL_MARGIN < usize::MAX,
            decreases cl - line,
        {
            proof { lemma_rows_within(lr, s0, line + 1, 0, total as int); }
            rows_above += rows.get(line);
            line += 1;
        }
        let mut scroll = self.scroll_offset;
        proof { lemma_rows_within(lr, s0, cl as int, 0, total as int); }
        while scroll > 0 && rows_above < SCROLL_MARGIN
            invariant
                scroll <= cl < total,
                rows_above == rows_in(lr, scroll as int, cl as int),
                scroll_up_for_margin(lr, scroll as int, rows_above as int)
                    == scroll_up_for_margin(lr, s0, rows_in(lr, s0, cl as int)),
                all == rows_in(lr, 0, total as int),
                lr == rows.row_fn(),
                0 <= s0,
                all + SCROLL_MARGIN < usize::MAX,
            decreases scroll,
        {
            scroll -= 1;
            proof {
                lemma_rows_split(lr, scroll as int, scroll + 1, cl as int);
                assert(rows_in(lr, scroll as int, scroll as int) == 0);
                assert(rows_in(lr, scroll as int, scroll + 1) == lr(scroll as int));
                lemma_rows_within(lr, scroll as int, cl as int, 0, total as int);
            }
            rows_above += rows.get(scroll);
        }
        let ghost s1 = scroll as int;
        proof { lemma_up_bounds(lr, s0, rows_in(lr, s0, cl as int)); }
        loop
            invariant
                s1 <= scroll <= cl < total,
                scroll_down_to_fit(lr, scroll as int, cl as int, total as int, viewport_height as int)
                    == scroll_down_to_fit(lr, s1, cl as int, total as int, viewport_height as int),
                all == rows_in(lr, 0, total as int),
                lr == rows.row_fn(),
                0 <= s0,
                all + SCROLL_MARGIN < usize::MAX,
            ensures
                scroll as int == scroll_down_to_fit(lr, s1, cl as int, total as int, viewport_height as int),
            decreases cl - scroll,
        {
            let mut rows_from_scroll: usize = 0;
            let mut l = scroll;
            while l <= cl
                invariant
                    scroll <= l <= cl + 1,
                    cl < total,
                    rows_from_scroll == rows_in(lr, scroll as int, l as int),
                    all == rows_in(lr, 0, total as int),
                    lr == rows.row_fn(),
                lr == rows.row_fn(),
                0 <= s0,
                    all + SCROLL_MARGIN < usize::MAX,
                decreases cl + 1 - l,
            {
                proof { lemma_rows_within(lr, scroll as int, l + 1, 0, total as int); }
                rows_from_scroll += rows.get(l);
                l += 1;
            }
            let mut margin_below: usize = 0;
            let mut margin_line = cl + 1;
            while margin_line < total && margin_below < SCROLL_MARGIN
                invariant
                    cl + 1 <= margin_line <= total,
                    margin_below == rows_in(lr, cl + 1, margin_line as int),
                    margin_rows(lr, margin_line as int, total as int, margin_below as int)
                        == margin_rows(lr, cl + 1, total as int, 0),
                    rows_from_scroll == rows_in(lr, scroll as int, cl + 1),
                    scroll <= cl,
                    all == rows_in(lr, 0, total as int),
                    lr == rows.row_fn(),
                lr == rows.row_fn(),
                0 <= s0,
                    all + SCROLL_MARGIN < usize::MAX,
                decreases total - margin_line,
            {
                proof { lemma_rows_within(lr, cl + 1, margin_line + 1, 0, total as int); }
                margin_below += rows.get(margin_line);
                margin_line += 1;
            }
            proof {
                assert(margin_rows(lr, margin_line as int, total as int, margin_below as int) == margin_below);
                lemma_rows_split(lr, scroll as int, cl + 1, margin_line as int);
                lemma_rows_within(lr, scroll as int, margin_line as int, 0, total as int);
            }
            let needed = rows_from_scroll + margin_below;
            if needed <= viewport_height || scroll >= cl {
                break;
            }
            scroll += 1;
        }
        proof { lemma_down_bounds(lr, s1, cl as int, total as int, viewport_height as int); }
        let max_scroll = if total > 0 { total - 1 } else { 0 };
        self.scroll_offset = if scroll < max_scroll { scroll } else { max_scroll };
    }

    /// Scrolls to keep the cursor line shown with a margin, every line
    /// taking one row.
    pub fn adjust_scroll(&mut self, viewport_height: usize)
        requires
            old(self).wf(),
            line_count(old(self).buffer@) + SCROLL_MARGIN < usize::MAX,
        ensures
            final(self).scroll_offset == adjusted_scroll(
                |line: int| 1nat,
                old(self).scroll_offset as int,
                old(self).cursor.line as int,
                line_count(old(self).buffer@) as int,
                viewport_height as int,
            ),
            final(self).buffer == old(self).buffer,
            final(self).cursor == old(self).cursor,
    {
        let rows = LineRows::one_each();
        proof {
            use_type_invariant(&self.buffer);
            Buffer::lemma_fits(&self.buffer);
            lemma_rows_all_one(rows.row_fn(), 0, line_count(self.buffer@) as int);
            assert(rows.row_fn() =~= |line: int| 1nat);
        }
        self.adjust_scroll_wrapped(viewport_height, &rows);
    }

    /// The lines shown from the scroll offset in a viewport of the given
    /// height.
    pub fn visible_lines(&self, viewport_height: usize) -> (r: std::ops::Range<usize>)
        requires
            self.scroll_offset + viewport_height <= usize::MAX,
        ensures
            r.start == self.scroll_offset,
            r.end == (if self.scroll_offset + viewport_height < line_count(self.buffer@) {
                self.scroll_offset + viewport_height
            } else {
                line_count(self.buffer@) as int
            }),
    {
        let start = self.scroll_offset;
        let n = self.buffer.len_lines();
        let end = if start + viewport_height < n { start + viewport_height } else { n };
        start..end
    }
}

proof fn lemma_rows_all_one(f: spec_fn(int) -> nat, a: int, b: int)
    requires
        forall|line: int| #[trigger] f(line) == 1,
        a <= b,
    ensures
        rows_in(f, a, b) == b - a,
    decreases b - a,
{
    if a < b {
        lemma_rows_all_one(f, a, b - 1);
    }
}

} // verus!
