//! How an undo history stays in step with the text it was recorded on:
//! walking back through the undo groups reverts edits that fit the text,
//! and walking forward through the redo groups applies them again.
use vstd::prelude::*;

use super::text::valid_pos;
use super::undo::{
    apply_op, coalesces, law_apply_then_reverse, op_fits, recorded, reverse_op, sealed, GroupModel,
    OpModel, UndoModel,
};

verus! {

/// The operation that undoes `op`.
pub open spec fn flipped(op: OpModel) -> OpModel {
    OpModel { insert: !op.insert, ..op }
}

/// The text before `ops`, walking back from `t` (the last op first).
pub open spec fn revert_ops(t: Seq<char>, ops: Seq<OpModel>) -> Seq<char>
    decreases ops.len(),
{
    if ops.len() == 0 {
        t
    } else {
        revert_ops(reverse_op(t, ops.last()), ops.drop_last())
    }
}

/// The text after `ops`, applied in order to `t`.
pub open spec fn apply_ops(t: Seq<char>, ops: Seq<OpModel>) -> Seq<char>
    decreases ops.len(),
{
    if ops.len() == 0 {
        t
    } else {
        apply_op(apply_ops(t, ops.drop_last()), ops.last())
    }
}

/// Each op can be undone walking back from `t`, and every text on the way
/// fits a buffer.
pub open spec fn revertible(t: Seq<char>, ops: Seq<OpModel>) -> bool
    decreases ops.len(),
{
    &&& t.len() < usize::MAX
    &&& ops.len() > 0 ==> {
        &&& op_fits(t, flipped(ops.last()))
        &&& revertible(reverse_op(t, ops.last()), ops.drop_last())
    }
}

/// Each op can be applied in order from `t`, and every text on the way
/// fits a buffer.
pub open spec fn applicable(t: Seq<char>, ops: Seq<OpModel>) -> bool
    decreases ops.len(),
{
    &&& t.len() < usize::MAX
    &&& ops.len() > 0 ==> {
        &&& applicable(t, ops.drop_last())
        &&& op_fits(apply_ops(t, ops.drop_last()), ops.last())
        &&& apply_ops(t, ops).len() < usize::MAX
    }
}

pub open spec fn valid_cursor(t: Seq<char>, p: (usize, usize)) -> bool {
    valid_pos(t, p.0 as int, p.1 as int)
}

/// Undoing the groups `gs` (last first) from `t` works: each group's edits
/// can be undone, its cursor after lies in the text before the undo and its
/// cursor before in the text after it.
pub open spec fn undo_chain(t: Seq<char>, gs: Seq<GroupModel>) -> bool
    decreases gs.len(),
{
    gs.len() > 0 ==> {
        let g = gs.last();
        &&& revertible(t, g.ops)
        &&& valid_cursor(t, g.cursor_after)
        &&& valid_cursor(revert_ops(t, g.ops), g.cursor_before)
        &&& undo_chain(revert_ops(t, g.ops), gs.drop_last())
    }
}

/// Redoing the groups `gs` (last first) from `t` works.
pub open spec fn redo_chain(t: Seq<char>, gs: Seq<GroupModel>) -> bool
    decreases gs.len(),
{
    gs.len() > 0 ==> {
        let g = gs.last();
        &&& applicable(t, g.ops)
        &&& valid_cursor(t, g.cursor_before)
        &&& valid_cursor(apply_ops(t, g.ops), g.cursor_after)
        &&& redo_chain(apply_ops(t, g.ops), gs.drop_last())
    }
}

/// The history `h` was recorded on edits that led to `t`: its closed and
/// open groups can be undone from `t`, its undone groups redone, and there
/// is nothing to redo while a group is open.
pub open spec fn history_fits(t: Seq<char>, h: UndoModel) -> bool {
    &&& t.len() < usize::MAX
    &&& undo_chain(t, sealed(h).undo)
    &&& redo_chain(t, h.redo)
    &&& h.redo.len() > 0 ==> h.current is None
}

/// Undoing an applied op gives the text back; applying an undone op too.
pub proof fn lemma_op_roundtrip(t: Seq<char>, op: OpModel)
    ensures
        op_fits(t, op) ==> reverse_op(apply_op(t, op), op) == t && op_fits(apply_op(t, op), flipped(op)),
        op_fits(t, flipped(op)) ==> apply_op(reverse_op(t, op), op) == t && op_fits(reverse_op(t, op), op),
{
    if op_fits(t, op) {
        law_apply_then_reverse(t, op);
    }
    if op_fits(t, flipped(op)) {
        law_apply_then_reverse(t, flipped(op));
        assert(flipped(flipped(op)) == op);
    }
}

/// A group that can be undone from `t` can be applied again to the text
/// it leads back to, and gives `t`.
pub proof fn lemma_revert_then_apply(t: Seq<char>, ops: Seq<OpModel>)
    requires
        revertible(t, ops),
    ensures
        applicable(revert_ops(t, ops), ops),
        apply_ops(revert_ops(t, ops), ops) == t,
    decreases ops.len(),
{
    if ops.len() > 0 {
        let last = ops.last();
        let t1 = reverse_op(t, last);
        lemma_op_roundtrip(t, last);
        lemma_revert_then_apply(t1, ops.drop_last());
        assert(ops.drop_last().len() < ops.len());
    }
}

/// A group that can be applied to `t` can be undone from the text it
/// leads to, and gives `t` back.
pub proof fn lemma_apply_then_revert(t: Seq<char>, ops: Seq<OpModel>)
    requires
        applicable(t, ops),
    ensures
        revertible(apply_ops(t, ops), ops),
        revert_ops(apply_ops(t, ops), ops) == t,
    decreases ops.len(),
{
    if ops.len() > 0 {
        let init = ops.drop_last();
        let last = ops.last();
        lemma_apply_then_revert(t, init);
        let t1 = apply_ops(t, init);
        lemma_op_roundtrip(t1, last);
    }
}

/// After an undo the history still fits the text it leads back to.
pub proof fn lemma_history_undo(t: Seq<char>, h: UndoModel)
    requires
        history_fits(t, h),
        sealed(h).undo.len() > 0,
    ensures
        ({
            let s = sealed(h);
            let g = s.undo.last();
            history_fits(
                revert_ops(t, g.ops),
                UndoModel { undo: s.undo.drop_last(), redo: s.redo.push(g), current: None },
            )
        }),
{
    let s = sealed(h);
    let g = s.undo.last();
    lemma_revert_then_apply(t, g.ops);
    let t1 = revert_ops(t, g.ops);
    let h1 = UndoModel { undo: s.undo.drop_last(), redo: s.redo.push(g), current: None };
    assert(sealed(h1) == h1);
    assert(h1.redo.drop_last() =~= h.redo);
    lemma_revertible_len(t, g.ops);
}

/// The texts on the way back of a revertible group fit a buffer.
pub proof fn lemma_revertible_len(t: Seq<char>, ops: Seq<OpModel>)
    requires
        revertible(t, ops),
    ensures
        revert_ops(t, ops).len() < usize::MAX,
    decreases ops.len(),
{
    if ops.len() > 0 {
        lemma_revertible_len(reverse_op(t, ops.last()), ops.drop_last());
    }
}

/// The texts on the way forward of an applicable group fit a buffer.
pub proof fn lemma_applicable_len(t: Seq<char>, ops: Seq<OpModel>)
    requires
        applicable(t, ops),
    ensures
        apply_ops(t, ops).len() < usize::MAX,
{
}

/// After a redo the history still fits the text it leads to.
pub proof fn lemma_history_redo(t: Seq<char>, h: UndoModel)
    requires
        history_fits(t, h),
        h.redo.len() > 0,
    ensures
        ({
            let g = h.redo.last();
            history_fits(
                apply_ops(t, g.ops),
                UndoModel { undo: h.undo.push(g), redo: h.redo.drop_last(), current: h.current },
            )
        }),
{
    let g = h.redo.last();
    lemma_apply_then_revert(t, g.ops);
    let t1 = apply_ops(t, g.ops);
    let h1 = UndoModel { undo: h.undo.push(g), redo: h.redo.drop_last(), current: h.current };
    assert(sealed(h1) == h1);
    assert(h1.undo.drop_last() =~= h.undo);
}

/// Closing the open group keeps the history in step.
pub proof fn lemma_history_seal(t: Seq<char>, h: UndoModel)
    requires
        history_fits(t, h),
    ensures
        history_fits(t, sealed(h)),
{
    assert(sealed(sealed(h)) == sealed(h));
}

/// Recording an edit that fits the text keeps the history in step with
/// the text after the edit.
pub proof fn lemma_history_record(
    t: Seq<char>,
    h: UndoModel,
    op: OpModel,
    before: (usize, usize),
    after: (usize, usize),
    timed_out: bool,
)
    requires
        history_fits(t, h),
        op_fits(t, op),
        apply_op(t, op).len() < usize::MAX,
        valid_cursor(t, before),
        valid_cursor(apply_op(t, op), after),
    ensures
        history_fits(apply_op(t, op), recorded(h, op, before, after, timed_out)),
{
    let t1 = apply_op(t, op);
    let h1 = recorded(h, op, before, after, timed_out);
    lemma_op_roundtrip(t, op);
    if coalesces(h, op, timed_out) {
        let g = h.current.unwrap();
        let g1 = GroupModel { ops: g.ops.push(op), cursor_after: after, ..g };
        assert(g1.ops.drop_last() =~= g.ops);
        assert(sealed(h1).undo == h.undo.push(g1));
        assert(sealed(h).undo == h.undo.push(g));
        assert(h.undo.push(g1).drop_last() =~= h.undo);
        assert(h.undo.push(g).drop_last() =~= h.undo);
        assert(revert_ops(t1, g1.ops) == revert_ops(t, g.ops));
        assert(undo_chain(t, h.undo.push(g)));
        assert(revertible(t, g.ops));
        assert(revertible(t1, g1.ops));
        assert(undo_chain(t1, sealed(h1).undo));
        assert(h1.redo =~= Seq::<GroupModel>::empty());
    } else {
        let g1 = GroupModel { ops: seq![op], cursor_before: before, cursor_after: after };
        assert(sealed(h1).undo == sealed(h).undo.push(g1));
        assert(sealed(h).undo.push(g1).drop_last() =~= sealed(h).undo);
        assert(g1.ops.drop_last() =~= Seq::<OpModel>::empty());
        assert(revert_ops(t1, g1.ops) == revert_ops(t, Seq::<OpModel>::empty()));
        assert(revertible(t, Seq::<OpModel>::empty()));
        assert(revertible(t1, g1.ops));
        assert(undo_chain(t1, sealed(h1).undo));
        assert(h1.redo =~= Seq::<GroupModel>::empty());
    }
}

/// A prefix of an applicable group is applicable.
pub proof fn lemma_applicable_prefix(t: Seq<char>, ops: Seq<OpModel>, k: int)
    requires
        applicable(t, ops),
        0 <= k <= ops.len(),
    ensures
        applicable(t, ops.take(k)),
    decreases ops.len(),
{
    if k < ops.len() {
        lemma_applicable_prefix(t, ops.drop_last(), k);
        assert(ops.drop_last().take(k) =~= ops.take(k));
    } else {
        assert(ops.take(k) =~= ops);
    }
}

/// Undo takes back a recorded edit: after recording `op` on `t`, undoing
/// the last group from the edited text gives `t` back, or, where the edit
/// joined the open group, the text from before that whole group; the
/// cursor goes back to where the group began.
pub proof fn law_undo_after_record(
    t: Seq<char>,
    h: UndoModel,
    op: OpModel,
    before: (usize, usize),
    after: (usize, usize),
    timed_out: bool,
)
    requires
        history_fits(t, h),
        op_fits(t, op),
        apply_op(t, op).len() < usize::MAX,
        valid_cursor(t, before),
        valid_cursor(apply_op(t, op), after),
    ensures
        ({
            let g = sealed(recorded(h, op, before, after, timed_out)).undo.last();
            if coalesces(h, op, timed_out) {
                &&& revert_ops(apply_op(t, op), g.ops) == revert_ops(t, h.current.unwrap().ops)
                &&& g.cursor_before == h.current.unwrap().cursor_before
            } else {
                &&& revert_ops(apply_op(t, op), g.ops) == t
                &&& g.cursor_before == before
            }
        }),
{
    lemma_op_roundtrip(t, op);
    let t1 = apply_op(t, op);
    let h1 = recorded(h, op, before, after, timed_out);
    if coalesces(h, op, timed_out) {
        let g = h.current.unwrap();
        let g1 = GroupModel { ops: g.ops.push(op), cursor_after: after, ..g };
        assert(sealed(h1).undo == h.undo.push(g1));
        assert(sealed(h1).undo.last() == g1);
        assert(g1.ops.drop_last() =~= g.ops);
        assert(g1.ops.last() == op);
        assert(revert_ops(t1, g1.ops) == revert_ops(reverse_op(t1, op), g.ops));
    } else {
        let g1 = GroupModel { ops: seq![op], cursor_before: before, cursor_after: after };
        assert(sealed(h1).undo == sealed(h).undo.push(g1));
        assert(sealed(h1).undo.last() == g1);
        assert(g1.ops.drop_last() =~= Seq::<OpModel>::empty());
        assert(revert_ops(t1, g1.ops) == revert_ops(reverse_op(t1, op), Seq::<OpModel>::empty()));
    }
}

/// Redo after undo gives the text back: a group undone from `t` applies
/// again to the text it leads to, and gives `t`.
pub proof fn law_redo_after_undo(t: Seq<char>, h: UndoModel)
    requires
        history_fits(t, h),
        sealed(h).undo.len() > 0,
    ensures
        ({
            let g = sealed(h).undo.last();
            &&& applicable(revert_ops(t, g.ops), g.ops)
            &&& apply_ops(revert_ops(t, g.ops), g.ops) == t
        }),
{
    lemma_revert_then_apply(t, sealed(h).undo.last().ops);
}

/// Undo after redo gives the text back.
pub proof fn law_undo_after_redo(t: Seq<char>, h: UndoModel)
    requires
        history_fits(t, h),
        h.redo.len() > 0,
    ensures
        ({
            let g = h.redo.last();
            &&& revertible(apply_ops(t, g.ops), g.ops)
            &&& revert_ops(apply_ops(t, g.ops), g.ops) == t
        }),
{
    lemma_apply_then_revert(t, h.redo.last().ops);
}

} // verus!
