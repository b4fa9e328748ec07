//! Undo history: edits are recorded in groups; consecutive single-char
//! inserts typed in quick succession coalesce into one group.
use vstd::prelude::*;
use crate::chars::{char_is_whitespace, is_whitespace_char};
use std::time::Instant;

verus! {

#[verifier::external_type_specification]
#[verifier::external_body]
pub struct ExInstant(Instant);

/// A single buffer edit, at a char position.
#[derive(Debug, Clone)]
pub enum Operation {
    Insert { pos: usize, text: String },
    Delete { pos: usize, text: String },
}

/// The mathematical value of an operation.
pub ghost struct OpModel {
    pub insert: bool,
    pub pos: int,
    pub text: Seq<char>,
}

impl Operation {
    pub open spec fn model(&self) -> OpModel {
        match self {
            Operation::Insert { pos, text } => OpModel { insert: true, pos: *pos as int, text: text@ },
            Operation::Delete { pos, text } => OpModel { insert: false, pos: *pos as int, text: text@ },
        }
    }

    /// A copy of this operation with the same value.
    pub fn duplicate(&self) -> (res: Operation)
        ensures
            res.model() == self.model(),
    {
        match self {
            Operation::Insert { pos, text } => Operation::Insert { pos: *pos, text: text.clone() },
            Operation::Delete { pos, text } => Operation::Delete { pos: *pos, text: text.clone() },
        }
    }
}

/// Result of applying an operation to a text.
pub open spec fn apply_op(t: Seq<char>, op: OpModel) -> Seq<char> {
    if op.insert {
        t.take(op.pos) + op.text + t.skip(op.pos)
    } else {
        t.take(op.pos) + t.skip(op.pos + op.text.len())
    }
}

/// Result of undoing an operation on a text.
pub open spec fn reverse_op(t: Seq<char>, op: OpModel) -> Seq<char> {
    apply_op(t, OpModel { insert: !op.insert, ..op })
}

/// `op` can be applied to `t`: an insert lies within the text, a delete
/// removes exactly the text it records.
pub open spec fn op_fits(t: Seq<char>, op: OpModel) -> bool {
    &&& 0 <= op.pos <= t.len()
    &&& !op.insert ==> op.pos + op.text.len() <= t.len() && t.subrange(op.pos, op.pos + op.text.len()) == op.text
}

/// Reversing an applied operation gives back the text, and applying a
/// reversed one gives back the text too.
pub proof fn law_apply_then_reverse(t: Seq<char>, op: OpModel)
    requires
        op_fits(t, op),
    ensures
        reverse_op(apply_op(t, op), op) == t,
        op_fits(apply_op(t, op), OpModel { insert: !op.insert, ..op }),
{
    let u = apply_op(t, op);
    if op.insert {
        assert(u.take(op.pos) == t.take(op.pos));
        assert(u.skip(op.pos + op.text.len()) == t.skip(op.pos));
        assert(u.subrange(op.pos, op.pos + op.text.len()) == op.text);
        assert(t.take(op.pos) + t.skip(op.pos) == t);
    } else {
        assert(u.take(op.pos) == t.take(op.pos));
        assert(u.skip(op.pos) == t.skip(op.pos + op.text.len()));
        assert(t.take(op.pos) + op.text + t.skip(op.pos + op.text.len()) == t);
    }
}

/// Edits undone or redone together, with the cursor before and after.
#[derive(Debug)]
pub struct ActionGroup {
    pub ops: Vec<Operation>,
    pub cursor_before: (usize, usize),
    pub cursor_after: (usize, usize),
}

pub ghost struct GroupModel {
    pub ops: Seq<OpModel>,
    pub cursor_before: (usize, usize),
    pub cursor_after: (usize, usize),
}

impl ActionGroup {
    pub open spec fn model(&self) -> GroupModel {
        GroupModel {
            ops: self.ops@.map_values(|o: Operation| o.model()),
            cursor_before: self.cursor_before,
            cursor_after: self.cursor_after,
        }
    }

    /// A copy of this group with the same value.
    pub fn duplicate(&self) -> (res: ActionGroup)
        ensures
            res.model() == self.model(),
    {
        let mut ops: Vec<Operation> = Vec::new();
        let mut i: usize = 0;
        while i < self.ops.len()
            invariant
                i <= self.ops.len(),
                ops@.len() == i,
                forall|k: int| 0 <= k < i ==> #[trigger] ops@[k].model() == self.ops@[k].model(),
            decreases self.ops.len() - i,
        {
            ops.push(self.ops[i].duplicate());
            i += 1;
        }
        let res = ActionGroup { ops, cursor_before: self.cursor_before, cursor_after: self.cursor_after };
        assert(res.model().ops =~= self.model().ops);
        res
    }
}

pub open spec fn models_of(gs: Seq<ActionGroup>) -> Seq<GroupModel> {
    gs.map_values(|g: ActionGroup| g.model())
}

/// Milliseconds after which typing no longer coalesces into the open group.
pub const COALESCE_TIMEOUT_MS: u128 = 500;

/// The undo history: closed groups to undo, groups to redo, and the group
/// still being extended.
pub struct UndoStack {
    undo_stack: Vec<ActionGroup>,
    redo_stack: Vec<ActionGroup>,
    current_group: Option<ActionGroup>,
    last_edit_instant: Option<Instant>,
}

pub ghost struct UndoModel {
    pub undo: Seq<GroupModel>,
    pub redo: Seq<GroupModel>,
    pub current: Option<GroupModel>,
}

/// The history after closing the open group.
pub open spec fn sealed(h: UndoModel) -> UndoModel {
    match h.current {
        Some(g) => UndoModel { undo: h.undo.push(g), redo: h.redo, current: None },
        None => h,
    }
}

/// Whether `op` joins the open group: a one-byte insert that is not
/// whitespace, right after a one-byte insert that ends the group, in time.
pub open spec fn coalesces(h: UndoModel, op: OpModel, timed_out: bool) -> bool {
    &&& h.current is Some
    &&& !timed_out
    &&& op.insert
    &&& crate::editor::text::byte_len(op.text) == 1
    &&& !is_whitespace_char(op.text[0])
    &&& h.current.unwrap().ops.len() > 0
    &&& {
        let last = h.current.unwrap().ops.last();
        &&& last.insert
        &&& crate::editor::text::byte_len(last.text) == 1
        &&& last.pos + 1 == op.pos
    }
}

/// The history after recording `op`.
pub open spec fn recorded(
    h: UndoModel,
    op: OpModel,
    before: (usize, usize),
    after: (usize, usize),
    timed_out: bool,
) -> UndoModel {
    if coalesces(h, op, timed_out) {
        let g = h.current.unwrap();
        UndoModel {
            undo: h.undo,
            redo: Seq::empty(),
            current: Some(GroupModel { ops: g.ops.push(op), cursor_after: after, ..g }),
        }
    } else {
        UndoModel {
            undo: sealed(h).undo,
            redo: Seq::empty(),
            current: Some(GroupModel { ops: seq![op], cursor_before: before, cursor_after: after }),
        }
    }
}

/// Reads the monotonic clock. Calls `Instant::now`; nothing is stated of
/// the instant it gives.
#[verifier::external_body]
fn clock_now() -> Instant {
    Instant::now()
}

/// Milliseconds from `earlier` to `later`. Calls `Instant::duration_since`
/// (zero when `later` is not after `earlier`) and gives the whole
/// milliseconds; the value rests on the clock, so nothing is stated.
#[verifier::external_body]
fn millis_between(earlier: &Instant, later: &Instant) -> u128 {
    later.duration_since(*earlier).as_millis()
}

impl UndoStack {
    pub closed spec fn model(&self) -> UndoModel {
        UndoModel {
            undo: models_of(self.undo_stack@),
            redo: models_of(self.redo_stack@),
            current: match self.current_group {
                Some(g) => Some(g.model()),
                None => None,
            },
        }
    }

    pub fn new() -> (s: Self)
        ensures
            s.model() == (UndoModel { undo: Seq::empty(), redo: Seq::empty(), current: None }),
    {
        let s = UndoStack {
            undo_stack: Vec::new(),
            redo_stack: Vec::new(),
            current_group: None,
            last_edit_instant: None,
        };
        assert(s.model().undo =~= Seq::<GroupModel>::empty());
        assert(s.model().redo =~= Seq::<GroupModel>::empty());
        s
    }

    /// Records `op` with the cursor before and after it. Whether the last
    /// edit is too long ago to coalesce is read from the clock.
    pub fn record(&mut self, op: Operation, cursor_before: (usize, usize), cursor_after: (usize, usize))
        ensures
            final(self).model() == recorded(old(self).model(), op.model(), cursor_before, cursor_after, true)
            || final(self).model() == recorded(old(self).model(), op.model(), cursor_before, cursor_after, false),
    {
        let now = clock_now();
        let timed_out = match &self.last_edit_instant {
            Some(last) => millis_between(last, &now) > COALESCE_TIMEOUT_MS,
            None => false,
        };
        self.record_at(op, cursor_before, cursor_after, timed_out);
        self.last_edit_instant = Some(now);
    }

    /// Records `op`; `timed_out` says whether the last edit is too long ago
    /// to coalesce with.
    pub fn record_at(
        &mut self,
        op: Operation,
        cursor_before: (usize, usize),
        cursor_after: (usize, usize),
        timed_out: bool,
    )
        ensures
            final(self).model() == recorded(old(self).model(), op.model(), cursor_before, cursor_after, timed_out),
    {
        let ghost h = self.model();
        let ghost m = op.model();
        self.clear_redo();
        let coalesce = self.should_coalesce(&op, timed_out);
        if coalesce {
            let mut group = self.current_group.take().unwrap();
            let ghost g0 = group.model();
            group.ops.push(op);
            group.cursor_after = cursor_after;
            assert(group.model().ops =~= g0.ops.push(m));
            self.current_group = Some(group);
        } else {
            self.seal();
            let mut ops: Vec<Operation> = Vec::new();
            ops.push(op);
            let group = ActionGroup { ops, cursor_before, cursor_after };
            assert(group.model().ops =~= seq![m]);
            self.current_group = Some(group);
        }
        assert(self.model().redo =~= Seq::<GroupModel>::empty());
    }

    fn should_coalesce(&self, op: &Operation, timed_out: bool) -> (res: bool)
        ensures
            res == coalesces(self.model(), op.model(), timed_out),
    {
        let group = match &self.current_group {
            Some(g) => g,
            None => return false,
        };
        if timed_out {
            return false;
        }
        let (new_pos, new_text) = match op {
            Operation::Insert { pos, text } => (*pos, text),
            _ => return false,
        };
        if new_text.as_str().as_bytes().len() != 1 {
            return false;
        }
        proof {
            if new_text@.len() == 0 {
                assert(vstd::utf8::encode_utf8(new_text@) =~= Seq::<u8>::empty());
            }
        }
        let first = new_text.as_str().get_char(0);
        if char_is_whitespace(first) {
            return false;
        }
        if group.ops.len() == 0 {
            return false;
        }
        let last_op = &group.ops[group.ops.len() - 1];
        assert(group.model().ops.last() == last_op.model());
        match last_op {
            Operation::Insert { pos, text } => {
                if text.as_str().as_bytes().len() == 1 {
                    (*pos as u128) + 1 == new_pos as u128
                } else {
                    false
                }
            },
            _ => false,
        }
    }

    /// Closes the open group, if any, moving it onto the undo stack.
    pub fn seal(&mut self)
        ensures
            final(self).model() == sealed(old(self).model()),
    {
        if let Some(group) = self.current_group.take() {
            let ghost u0 = self.undo_stack@;
            self.undo_stack.push(group);
            assert(models_of(self.undo_stack@) =~= models_of(u0).push(group.model()));
        }
        self.last_edit_instant = None;
    }

    /// Closes the open group and takes the last group to undo, which moves
    /// onto the redo stack.
    pub fn undo(&mut self) -> (res: Option<ActionGroup>)
        ensures
            ({
                let s = sealed(old(self).model());
                if s.undo.len() == 0 {
                    res is None && final(self).model() == s
                } else {
                    &&& res matches Some(g) && g.model() == s.undo.last()
                    &&& final(self).model() == (UndoModel {
                        undo: s.undo.drop_last(),
                        redo: s.redo.push(s.undo.last()),
                        current: None,
                    })
                }
            }),
    {
        self.seal();
        let ghost u0 = self.undo_stack@;
        let ghost r0 = self.redo_stack@;
        let group = match self.undo_stack.pop() {
            Some(g) => g,
            None => return None,
        };
        assert(models_of(self.undo_stack@) =~= models_of(u0).drop_last());
        let copy = group.duplicate();
        self.redo_stack.push(copy);
        assert(models_of(self.redo_stack@) =~= models_of(r0).push(group.model()));
        Some(group)
    }

    /// Takes the last undone group back onto the undo stack.
    pub fn redo(&mut self) -> (res: Option<ActionGroup>)
        ensures
            ({
                let h = old(self).model();
                if h.redo.len() == 0 {
                    res is None && final(self).model() == h
                } else {
                    &&& res matches Some(g) && g.model() == h.redo.last()
                    &&& final(self).model() == (UndoModel {
                        undo: h.undo.push(h.redo.last()),
                        redo: h.redo.drop_last(),
                        current: h.current,
                    })
                }
            }),
    {
        let ghost u0 = self.undo_stack@;
        let ghost r0 = self.redo_stack@;
        let group = match self.redo_stack.pop() {
            Some(g) => g,
            None => return None,
        };
        assert(models_of(self.redo_stack@) =~= models_of(r0).drop_last());
        let copy = group.duplicate();
        self.undo_stack.push(copy);
        assert(models_of(self.undo_stack@) =~= models_of(u0).push(group.model()));
        Some(group)
    }

    fn clear_redo(&mut self)
        ensures
            final(self).model() == (UndoModel { redo: Seq::empty(), ..old(self).model() }),
            final(self).last_edit_instant == old(self).last_edit_instant,
    {
        self.redo_stack.clear();
        assert(models_of(self.redo_stack@) =~= Seq::<GroupModel>::empty());
    }
}

} // verus!
