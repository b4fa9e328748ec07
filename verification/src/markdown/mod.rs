//! The markdown syntax tree of a buffer, kept in step with its edits.
use vstd::prelude::*;
use tree_sitter_md::{MarkdownCursor, MarkdownParser, MarkdownTree};

use crate::editor::buffer::{byte_offset, Buffer};
use crate::editor::text::{byte_len, line_start, nl_before};
use reveal_set::NodeInfo;

pub mod reveal_set;
pub mod highlight;
pub mod syntax;

verus! {

#[verifier::external_type_specification]
#[verifier::external_body]
pub struct ExMarkdownParser(MarkdownParser);

#[verifier::external_type_specification]
#[verifier::external_body]
pub struct ExMarkdownTree(MarkdownTree);

#[verifier::external_type_specification]
#[verifier::external_body]
pub struct ExMarkdownCursor<'a>(MarkdownCursor<'a>);

/// The nodes of a markdown tree as its cursor presents them (block nodes,
/// and below an `inline` or `pipe_table_cell` node the nodes of its inline
/// tree), each at its path of child indices from the root: kind, start
/// byte, end byte and number of children.
pub uninterp spec fn tree_nodes(tree: MarkdownTree) -> Map<Seq<int>, (Seq<char>, usize, usize, nat)>;

/// The nodes of the tree a cursor walks (see `tree_nodes`).
pub uninterp spec fn cursor_nodes(cursor: MarkdownCursor<'_>) -> Map<Seq<int>, (Seq<char>, usize, usize, nat)>;

/// The path of the node a cursor is at, from the node it was made at.
pub uninterp spec fn cursor_at(cursor: MarkdownCursor<'_>) -> Seq<int>;

/// Every node's children are nodes too.
pub open spec fn closed_tree(nodes: Map<Seq<int>, (Seq<char>, usize, usize, nat)>) -> bool {
    forall|p: Seq<int>, i: int|
        #![trigger nodes.dom().contains(p), p.push(i)]
        nodes.dom().contains(p) && 0 <= i < nodes[p].3 ==> nodes.dom().contains(p.push(i))
}

/// The cursor is at one of its tree's nodes.
pub open spec fn cursor_ok(c: MarkdownCursor<'_>) -> bool {
    cursor_nodes(c).dom().contains(cursor_at(c))
}

/// Calls `MarkdownTree::walk`: a cursor at the root of the tree.
#[verifier::external_body]
pub(crate) fn walk_tree(tree: &MarkdownTree) -> (c: MarkdownCursor<'_>)
    ensures
        cursor_nodes(c) == tree_nodes(*tree),
        cursor_at(c) == Seq::<int>::empty(),
        cursor_ok(c),
        closed_tree(cursor_nodes(c)),
{
    tree.walk()
}

/// Reads the kind and byte range of the cursor's node (`MarkdownCursor::node`,
/// `Node::kind`, `Node::start_byte`, `Node::end_byte`).
#[verifier::external_body]
pub(crate) fn cursor_node(cursor: &MarkdownCursor<'_>) -> (n: NodeInfo)
    requires
        cursor_ok(*cursor),
    ensures
        n.kind@ == cursor_nodes(*cursor)[cursor_at(*cursor)].0,
        n.start_byte == cursor_nodes(*cursor)[cursor_at(*cursor)].1,
        n.end_byte == cursor_nodes(*cursor)[cursor_at(*cursor)].2,
{
    let node = cursor.node();
    NodeInfo { kind: node.kind().to_string(), start_byte: node.start_byte(), end_byte: node.end_byte() }
}

/// The index of the first child of the node at `p` that ends after `byte`.
pub open spec fn child_past(nodes: Map<Seq<int>, (Seq<char>, usize, usize, nat)>, p: Seq<int>, byte: int, i: int) -> Option<int>
    decreases nodes[p].3 - i,
{
    if i < 0 || i >= nodes[p].3 {
        None
    } else if nodes[p.push(i)].2 > byte {
        Some(i)
    } else {
        child_past(nodes, p, byte, i + 1)
    }
}

/// Calls `MarkdownCursor::goto_first_child`: moves to the first child of
/// the cursor's node, where it has children.
#[verifier::external_body]
pub(crate) fn goto_first_child(cursor: &mut MarkdownCursor<'_>) -> (moved: bool)
    requires
        cursor_ok(*old(cursor)),
    ensures
        cursor_nodes(*final(cursor)) == cursor_nodes(*old(cursor)),
        moved == (cursor_nodes(*old(cursor))[cursor_at(*old(cursor))].3 > 0),
        cursor_at(*final(cursor)) == if moved {
            cursor_at(*old(cursor)).push(0)
        } else {
            cursor_at(*old(cursor))
        },
{
    cursor.goto_first_child()
}

/// Calls `MarkdownCursor::goto_next_sibling`: moves to the next child of
/// the same parent, where there is one (the cursor's root has none).
#[verifier::external_body]
pub(crate) fn goto_next_sibling(cursor: &mut MarkdownCursor<'_>) -> (moved: bool)
    requires
        cursor_ok(*old(cursor)),
    ensures
        cursor_nodes(*final(cursor)) == cursor_nodes(*old(cursor)),
        moved == (cursor_at(*old(cursor)).len() > 0 && cursor_at(*old(cursor)).last() + 1
            < cursor_nodes(*old(cursor))[cursor_at(*old(cursor)).drop_last()].3),
        cursor_at(*final(cursor)) == if moved {
            cursor_at(*old(cursor)).drop_last().push(cursor_at(*old(cursor)).last() + 1)
        } else {
            cursor_at(*old(cursor))
        },
{
    cursor.goto_next_sibling()
}

/// Calls `MarkdownCursor::goto_parent`: moves to the parent of the
/// cursor's node, where it is below the node the cursor was made at.
#[verifier::external_body]
pub(crate) fn goto_parent(cursor: &mut MarkdownCursor<'_>) -> (moved: bool)
    requires
        cursor_ok(*old(cursor)),
    ensures
        cursor_nodes(*final(cursor)) == cursor_nodes(*old(cursor)),
        moved == (cursor_at(*old(cursor)).len() > 0),
        cursor_at(*final(cursor)) == if moved {
            cursor_at(*old(cursor)).drop_last()
        } else {
            cursor_at(*old(cursor))
        },
{
    cursor.goto_parent()
}

/// A row and a byte column.
#[derive(Debug, Clone, Copy, PartialEq, Eq, Structural)]
pub struct Point {
    pub row: usize,
    pub column: usize,
}

/// The byte range and positions an edit changed, as the parser takes it.
#[derive(Debug, Clone, Copy, PartialEq, Eq, Structural)]
pub struct InputEdit {
    pub start_byte: usize,
    pub old_end_byte: usize,
    pub new_end_byte: usize,
    pub start_position: Point,
    pub old_end_position: Point,
    pub new_end_position: Point,
}

/// Calls `MarkdownParser::default`.
#[verifier::external_body]
fn new_parser() -> MarkdownParser {
    MarkdownParser::default()
}

/// How a tree came to be, step by step: `(0, [], text)` for a parse of
/// `text` from scratch, `(1, edit, [])` for an edit moving its nodes (see
/// `edit_numbers`), `(2, [], text)` for a reparse of `text` reusing it.
pub uninterp spec fn tree_log(tree: MarkdownTree) -> Seq<(int, Seq<int>, Seq<char>)>;

/// The nodes of the tree that the steps of `log` give (see `tree_nodes`).
pub uninterp spec fn parse_log(log: Seq<(int, Seq<int>, Seq<char>)>) -> Map<Seq<int>, (Seq<char>, usize, usize, nat)>;

/// The numbers of an edit as the parser takes them: start, old end and new
/// end byte, then the rows and columns of the three positions.
pub open spec fn edit_numbers(e: InputEdit) -> Seq<int> {
    seq![
        e.start_byte as int,
        e.old_end_byte as int,
        e.new_end_byte as int,
        e.start_position.row as int,
        e.start_position.column as int,
        e.old_end_position.row as int,
        e.old_end_position.column as int,
        e.new_end_position.row as int,
        e.new_end_position.column as int,
    ]
}

/// The edit numbers `e` describe how `before` became `after`: chars
/// `p..q` of `before` were replaced by chars `p..r` of `after`, the rest
/// kept, and the edit's start, old end and new end bytes are where those
/// ranges start and end.
pub open spec fn replaces(e: Seq<int>, before: Seq<char>, after: Seq<char>, p: int, q: int, r: int) -> bool {
    &&& 0 <= p <= q <= before.len()
    &&& p <= r <= after.len()
    &&& before.take(p) == after.take(p)
    &&& before.skip(q) == after.skip(r)
    &&& e.len() == 9
    &&& e[0] == byte_offset(after, p)
    &&& e[1] == e[0] + byte_len(before.subrange(p, q))
    &&& e[2] == e[0] + byte_len(after.subrange(p, r))
}

/// Some replacement of chars that the edit numbers `e` describe takes
/// `before` to `after` (see `replaces`).
pub open spec fn describes(e: Seq<int>, before: Seq<char>, after: Seq<char>) -> bool {
    exists|p: int, q: int, r: int| #[trigger] replaces(e, before, after, p, q, r)
}

/// An edit with these byte numbers describes the replacement of chars
/// `p..q` of `before` by chars `p..r` of `after`.
pub proof fn lemma_edit_describes(e: InputEdit, before: Seq<char>, after: Seq<char>, p: int, q: int, r: int)
    requires
        0 <= p <= q <= before.len(),
        p <= r <= after.len(),
        before.take(p) == after.take(p),
        before.skip(q) == after.skip(r),
        e.start_byte == byte_offset(after, p),
        e.old_end_byte == e.start_byte + byte_len(before.subrange(p, q)),
        e.new_end_byte == e.start_byte + byte_len(after.subrange(p, r)),
    ensures
        describes(edit_numbers(e), before, after),
{
    assert(replaces(edit_numbers(e), before, after, p, q, r));
}

/// No chars take no bytes.
pub proof fn lemma_byte_len_empty(s: Seq<char>)
    requires
        s.len() == 0,
    ensures
        byte_len(s) == 0,
{
    assert(s =~= Seq::<char>::empty());
    assert(vstd::utf8::encode_utf8(Seq::<char>::empty()) =~= Seq::<u8>::empty()) by {
        reveal_with_fuel(vstd::utf8::encode_utf8, 1);
    }
}

/// A tree's steps end with an edit of the text last parsed that takes it
/// to `text`: the tree is ready for a reparse of `text`.
pub open spec fn edited_to(log: Seq<(int, Seq<int>, Seq<char>)>, text: Seq<char>) -> bool {
    &&& log.len() >= 2
    &&& log.last().0 == 1
    &&& log[log.len() - 2].0 != 1
    &&& describes(log.last().1, log[log.len() - 2].2, text)
}

/// Calls `MarkdownParser::parse` on the text's bytes. Its documentation
/// gives `None` only where a timeout or a cancellation flag was set on the
/// parser, and this parser has neither, so a tree comes back. An old tree
/// must have been edited to match the text: tree-sitter reuses its nodes
/// and reads the text at their offsets. Its steps are
/// those of the old tree, where one is given, and then this parse of the
/// text; the parse is deterministic, so its nodes are named by `parse_log`
/// over those steps.
#[verifier::external_body]
fn parse_text(parser: &mut MarkdownParser, text: &String, old_tree: Option<&MarkdownTree>) -> (t: Option<MarkdownTree>)
    requires
        old_tree matches Some(o) ==> edited_to(tree_log(*o), text@),
    ensures
        t is Some,
        tree_log(t->Some_0) == match old_tree {
            Some(o) => tree_log(*o).push((2int, Seq::<int>::empty(), text@)),
            None => seq![(0int, Seq::<int>::empty(), text@)],
        },
        tree_nodes(t->Some_0) == parse_log(tree_log(t->Some_0)),
{
    parser.parse(text.as_bytes(), old_tree)
}

/// Calls `MarkdownTree::edit`, which shifts the tree's nodes to match an
/// edit of its text: the edit is added to the tree's steps, and its nodes
/// are named by `parse_log` over them.
#[verifier::external_body]
fn edit_tree(tree: &mut MarkdownTree, edit: &InputEdit)
    ensures
        tree_log(*final(tree)) == tree_log(*old(tree)).push((1int, edit_numbers(*edit), Seq::<char>::empty())),
        tree_nodes(*final(tree)) == parse_log(tree_log(*final(tree))),
{
    let e = tree_sitter::InputEdit {
        start_byte: edit.start_byte,
        old_end_byte: edit.old_end_byte,
        new_end_byte: edit.new_end_byte,
        start_position: tree_sitter::Point { row: edit.start_position.row, column: edit.start_position.column },
        old_end_position: tree_sitter::Point { row: edit.old_end_position.row, column: edit.old_end_position.column },
        new_end_position: tree_sitter::Point { row: edit.new_end_position.row, column: edit.new_end_position.column },
    };
    tree.edit(&e);
}

pub struct MarkdownState {
    parser: MarkdownParser,
    tree: Option<MarkdownTree>,
}

impl MarkdownState {
    /// A state with no tree yet.
    pub fn new() -> (s: Self)
        ensures
            !s.has_tree(),
    {
        MarkdownState { parser: new_parser(), tree: None }
    }

    pub closed spec fn has_tree(&self) -> bool {
        self.tree is Some
    }

    /// The nodes of the tree, where there is one (see `tree_nodes`).
    pub closed spec fn syntax(&self) -> Map<Seq<int>, (Seq<char>, usize, usize, nat)> {
        tree_nodes(self.tree->Some_0)
    }

    /// The steps the tree was made by, where there is one (see `tree_log`).
    pub closed spec fn log(&self) -> Seq<(int, Seq<int>, Seq<char>)> {
        tree_log(self.tree->Some_0)
    }

    /// Parses the whole buffer from scratch.
    pub fn parse_full(&mut self, buffer: &Buffer)
        ensures
            final(self).has_tree(),
            final(self).log() == seq![(0int, Seq::<int>::empty(), buffer@)],
            final(self).syntax() == parse_log(final(self).log()),
    {
        let source = buffer.contents();
        self.tree = parse_text(&mut self.parser, &source, None);
    }

    /// Moves the tree's nodes by `edit`, then reparses the buffer reusing
    /// the old tree (from scratch where there is none).
    pub fn apply_edit(&mut self, edit: InputEdit, buffer: &Buffer)
        requires
            old(self).has_tree() ==> old(self).log().len() > 0 && old(self).log().last().0 != 1
                && describes(edit_numbers(edit), old(self).log().last().2, buffer@),
        ensures
            final(self).has_tree(),
            final(self).log() == if old(self).has_tree() {
                old(self).log().push((1int, edit_numbers(edit), Seq::<char>::empty())).push(
                    (2int, Seq::<int>::empty(), buffer@),
                )
            } else {
                seq![(0int, Seq::<int>::empty(), buffer@)]
            },
            final(self).syntax() == parse_log(final(self).log()),
    {
        match &mut self.tree {
            Some(tree) => edit_tree(tree, &edit),
            None => {},
        }
        let source = buffer.contents();
        let reparsed = match &self.tree {
            Some(t) => parse_text(&mut self.parser, &source, Some(t)),
            None => parse_text(&mut self.parser, &source, None),
        };
        self.tree = reparsed;
    }

    /// Highlights the visible lines (see `highlight::compute`).
    pub fn compute_highlights(
        &self,
        buffer: &Buffer,
        visible_line_start: usize,
        visible_line_end: usize,
        cursor_byte: usize,
    ) -> (m: highlight::HighlightMap)
        requires
            visible_line_start <= crate::editor::text::line_count(buffer@),
        ensures
            !self.has_tree() ==> m.spans_view().len() == 0,
            self.has_tree() ==> m.spans_view() == highlight::sorted_by_start(highlight::hl_node(
                self.syntax(),
                Seq::empty(),
                byte_offset(buffer@, line_start(buffer@, visible_line_start as int)) as int,
                if visible_line_end >= crate::editor::text::line_count(buffer@) {
                    byte_len(buffer@) as int
                } else {
                    byte_offset(buffer@, line_start(buffer@, visible_line_end as int)) as int
                },
                usize::MAX as nat,
            )),
            forall|i: int| 0 <= i < m.spans_view().len() ==>
                #[trigger] m.spans_view()[i].start_byte < m.spans_view()[i].end_byte,
    {
        highlight::compute(self, buffer, visible_line_start, visible_line_end, cursor_byte)
    }

    pub fn tree(&self) -> (t: Option<&MarkdownTree>)
        ensures
            t is Some == self.has_tree(),
            t matches Some(tree) ==> tree_nodes(*tree) == self.syntax(),
    {
        match &self.tree {
            Some(t) => Some(t),
            None => None,
        }
    }
}

/// The point of char index `i` of `t`: its line and its byte column.
pub open spec fn point_of(t: Seq<char>, i: int) -> Point {
    let row = nl_before(t, i);
    Point { row: row as usize, column: (byte_offset(t, i) - byte_offset(t, line_start(t, row as int))) as usize }
}

/// The point reached from (`row`, `col`) by the bytes `b`: a line feed
/// starts a new row, any other byte moves one column.
pub open spec fn advance(row: int, col: int, b: Seq<u8>) -> (int, int)
    decreases b.len(),
{
    if b.len() == 0 {
        (row, col)
    } else {
        let (r, c) = advance(row, col, b.drop_last());
        if b.last() == 10 { (r + 1, 0) } else { (r, c + 1) }
    }
}

/// The edit for an insertion of `inserted_text` at char `char_pos`, given
/// the buffer after the insertion.
pub fn input_edit_for_insert(buffer: &Buffer, char_pos: usize, inserted_text: &str) -> (e: InputEdit)
    requires
        char_pos + inserted_text@.len() <= buffer@.len(),
        byte_offset(buffer@, char_pos as int) + byte_len(inserted_text@) <= usize::MAX,
    ensures
        e.start_byte == byte_offset(buffer@, char_pos as int),
        e.old_end_byte == e.start_byte,
        e.new_end_byte == byte_offset(buffer@, char_pos as int) + byte_len(inserted_text@),
        e.start_position == point_of(buffer@, char_pos as int),
        e.old_end_position == e.start_position,
        e.new_end_position == point_of(buffer@, char_pos + inserted_text@.len()),
{
    let start_byte = buffer.char_to_byte(char_pos);
    let new_end_byte = start_byte + inserted_text.as_bytes().len();
    let (start_line, _) = buffer.char_idx_to_line_col(char_pos);
    let start_line_byte = buffer.line_to_byte(start_line);
    proof {
        use_type_invariant(buffer);
        Buffer::lemma_fits(buffer);
        crate::editor::buffer::lemma_line_starts_ordered(buffer@, start_line as int);
        crate::editor::buffer::lemma_byte_offset_mono(buffer@, line_start(buffer@, start_line as int), char_pos as int);
    }
    let start_col_byte = start_byte - start_line_byte;
    let end_char = char_pos + inserted_text.unicode_len();
    let (end_line, _) = buffer.char_idx_to_line_col(end_char);
    let end_byte = buffer.char_to_byte(end_char);
    let end_line_byte = buffer.line_to_byte(end_line);
    proof {
        crate::editor::buffer::lemma_line_starts_ordered(buffer@, end_line as int);
        crate::editor::buffer::lemma_byte_offset_mono(buffer@, line_start(buffer@, end_line as int), end_char as int);
    }
    let end_col_byte = end_byte - end_line_byte;
    let start = Point { row: start_line, column: start_col_byte };
    InputEdit {
        start_byte,
        old_end_byte: start_byte,
        new_end_byte,
        start_position: start,
        old_end_position: start,
        new_end_position: Point { row: end_line, column: end_col_byte },
    }
}

/// The edit for a deletion of `deleted_text` at char `char_pos`, given the
/// buffer after the deletion: the old end is found by walking the deleted
/// bytes from the start.
pub fn input_edit_for_delete(buffer: &Buffer, char_pos: usize, deleted_text: &str) -> (e: InputEdit)
    requires
        char_pos <= buffer@.len(),
        byte_offset(buffer@, char_pos as int) + byte_len(deleted_text@) <= usize::MAX,
        nl_before(buffer@, char_pos as int) + byte_len(deleted_text@) <= usize::MAX,
    ensures
        e.start_byte == byte_offset(buffer@, char_pos as int),
        e.old_end_byte == byte_offset(buffer@, char_pos as int) + byte_len(deleted_text@),
        e.new_end_byte == e.start_byte,
        e.start_position == point_of(buffer@, char_pos as int),
        e.new_end_position == e.start_position,
        ({
            let (r, c) = advance(
                e.start_position.row as int,
                e.start_position.column as int,
                vstd::utf8::encode_utf8(deleted_text@),
            );
            e.old_end_position == Point { row: r as usize, column: c as usize }
        }),
{
    let start_byte = buffer.char_to_byte(char_pos);
    let bytes = deleted_text.as_bytes();
    let old_end_byte = start_byte + bytes.len();
    let (start_line, _) = buffer.char_idx_to_line_col(char_pos);
    let start_line_byte = buffer.line_to_byte(start_line);
    proof {
        use_type_invariant(buffer);
        Buffer::lemma_fits(buffer);
        crate::editor::buffer::lemma_line_starts_ordered(buffer@, start_line as int);
        crate::editor::buffer::lemma_byte_offset_mono(buffer@, line_start(buffer@, start_line as int), char_pos as int);
    }
    let start_col_byte = start_byte - start_line_byte;
    let mut row = start_line;
    let mut col = start_col_byte;
    let mut i: usize = 0;
    while i < bytes.len()
        invariant
            i <= bytes@.len(),
            bytes@ == vstd::utf8::encode_utf8(deleted_text@),
            start_line + bytes@.len() <= usize::MAX,
            start_col_byte + bytes@.len() <= usize::MAX,
            row <= start_line + i,
            col <= start_col_byte + i,
            (row as int, col as int) == advance(start_line as int, start_col_byte as int, bytes@.take(i as int)),
        decreases bytes@.len() - i,
    {
        proof {
            assert(bytes@.take(i + 1).drop_last() =~= bytes@.take(i as int));
        }
        if bytes[i] == 10u8 {
            row += 1;
            col = 0;
        } else {
            col += 1;
        }
        i += 1;
    }
    assert(bytes@.take(i as int) =~= bytes@);
    let start = Point { row: start_line, column: start_col_byte };
    InputEdit {
        start_byte,
        old_end_byte,
        new_end_byte: start_byte,
        start_position: start,
        old_end_position: Point { row, column: col },
        new_end_position: start,
    }
}

} // verus!
