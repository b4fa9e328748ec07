//! The syntax tree as plain values: each node's kind, byte range and
//! children, read once from the parser's tree.
use vstd::prelude::*;
use tree_sitter_md::{MarkdownCursor, MarkdownTree};

use super::{
    closed_tree, cursor_at, cursor_node, cursor_nodes, cursor_ok, goto_first_child, goto_next_sibling, goto_parent,
    tree_nodes, walk_tree,
};

verus! {

/// A node of the markdown syntax tree.
#[derive(Debug)]
pub struct SyntaxNode {
    pub kind: String,
    pub start_byte: usize,
    pub end_byte: usize,
    pub children: Vec<SyntaxNode>,
}

impl SyntaxNode {
    /// Every node's range is ordered and ends within the first `total`
    /// bytes.
    pub open spec fn fits(&self, total: int) -> bool
        decreases self,
    {
        &&& self.start_byte <= self.end_byte <= total
        &&& forall|i: int| 0 <= i < self.children@.len() ==> (#[trigger] self.children@[i]).fits(total)
    }

    /// Each node's children lie inside it, in order and without overlap,
    /// and are nested the same way.
    pub open spec fn nested(&self) -> bool
        decreases self,
    {
        &&& self.start_byte <= self.end_byte
        &&& forall|i: int|
            0 <= i < self.children@.len() ==> self.start_byte <= (#[trigger] self.children@[i]).start_byte
                && self.children@[i].end_byte <= self.end_byte
        &&& forall|i: int, j: int|
            0 <= i < j < self.children@.len() ==> (#[trigger] self.children@[i]).end_byte
                <= (#[trigger] self.children@[j]).start_byte
        &&& forall|i: int| 0 <= i < self.children@.len() ==> (#[trigger] self.children@[i]).nested()
    }

    /// A leaf node.
    pub fn leaf(kind: String, start_byte: usize, end_byte: usize) -> (n: SyntaxNode)
        ensures
            n.kind == kind,
            n.start_byte == start_byte,
            n.end_byte == end_byte,
            n.children@.len() == 0,
    {
        SyntaxNode { kind, start_byte, end_byte, children: Vec::new() }
    }
}

/// A syntax node as plain values.
pub ghost struct Shape {
    pub kind: Seq<char>,
    pub start: int,
    pub end: int,
    pub children: Seq<Shape>,
}

impl SyntaxNode {
    pub open spec fn shape(self) -> Shape
        decreases self,
    {
        Shape {
            kind: self.kind@,
            start: self.start_byte as int,
            end: self.end_byte as int,
            children: Seq::new(
                self.children@.len(),
                |i: int|
                    if 0 <= i < self.children@.len() {
                        self.children@[i].shape()
                    } else {
                        arbitrary()
                    },
            ),
        }
    }
}

/// The node at `p` of `nodes` with its descendants down to `depth` levels
/// below it, byte ranges kept within `total` (a start past `total` moved
/// to it, an end before the start moved to the start).
pub open spec fn shape_at(nodes: Map<Seq<int>, (Seq<char>, usize, usize, nat)>, p: Seq<int>, total: int, depth: nat) -> Shape
    decreases depth,
{
    let (k, s, e, n) = nodes[p];
    let start = if s < total { s as int } else { total };
    let end = if e < start { start } else if e < total { e as int } else { total };
    Shape {
        kind: k,
        start,
        end,
        children: if depth == 0 {
            Seq::empty()
        } else {
            Seq::new(n, |i: int| shape_at(nodes, p.push(i), total, (depth - 1) as nat))
        },
    }
}

/// Reads the node at the cursor and its descendants down to `depth` levels
/// below it, ranges kept within `total` bytes; the cursor ends where it
/// started.
fn read_node(cursor: &mut MarkdownCursor<'_>, total: usize, depth: usize) -> (n: SyntaxNode)
    requires
        cursor_ok(*old(cursor)),
        closed_tree(cursor_nodes(*old(cursor))),
    ensures
        n.shape() == shape_at(cursor_nodes(*old(cursor)), cursor_at(*old(cursor)), total as int, depth as nat),
        n.fits(total as int),
        cursor_nodes(*final(cursor)) == cursor_nodes(*old(cursor)),
        cursor_at(*final(cursor)) == cursor_at(*old(cursor)),
    decreases depth,
{
    let ghost nodes = cursor_nodes(*cursor);
    let ghost p = cursor_at(*cursor);
    let ghost count = nodes[p].3;
    let info = cursor_node(cursor);
    let start = if info.start_byte < total { info.start_byte } else { total };
    let end = if info.end_byte < start { start } else if info.end_byte < total { info.end_byte } else { total };
    let mut children: Vec<SyntaxNode> = Vec::new();
    if depth > 0 && goto_first_child(cursor) {
        let ghost mut i: int = 0;
        loop
            invariant_except_break
                children@.len() == i,
                forall|k: int| 0 <= k < i ==> (#[trigger] children@[k]).fits(total as int),
                forall|k: int|
                    0 <= k < i ==> (#[trigger] children@[k]).shape() == shape_at(nodes, p.push(k), total as int, (depth - 1) as nat),
            invariant
                cursor_nodes(*cursor) == nodes,
                closed_tree(nodes),
                nodes.dom().contains(p),
                count == nodes[p].3,
                0 <= i < count,
                cursor_at(*cursor) == p.push(i),
                depth > 0,
            ensures
                cursor_nodes(*cursor) == nodes,
                cursor_at(*cursor) == p.push(i),
                children@.len() == count,
                forall|k: int| 0 <= k < count ==> (#[trigger] children@[k]).fits(total as int),
                forall|k: int|
                    0 <= k < count ==> (#[trigger] children@[k]).shape() == shape_at(nodes, p.push(k), total as int, (depth - 1) as nat),
            decreases count - i,
        {
            assert(nodes.dom().contains(p.push(i)));
            let child = read_node(cursor, total, depth - 1);
            children.push(child);
            let moved = goto_next_sibling(cursor);
            proof {
                assert(p.push(i).drop_last() =~= p);
                assert(p.push(i).last() == i);
            }
            if !moved {
                break;
            }
            proof {
                assert(p.push(i).drop_last().push(i + 1) =~= p.push(i + 1));
                i = i + 1;
            }
        }
        let _ = goto_parent(cursor);
        proof {
            assert(p.push(i).drop_last() =~= p);
        }
    }
    let n = SyntaxNode { kind: info.kind, start_byte: start, end_byte: end, children };
    proof {
        let want = shape_at(nodes, p, total as int, depth as nat);
        assert(n.shape().children =~= want.children);
    }
    n
}

/// The whole tree as plain values (see `shape_at`), with ranges kept within
/// `total` bytes (the length of the text it was parsed from). Built by
/// walking the tree with a cursor.
pub fn syntax_tree(tree: &MarkdownTree, total: usize) -> (n: SyntaxNode)
    ensures
        n.shape() == shape_at(tree_nodes(*tree), Seq::empty(), total as int, usize::MAX as nat),
        n.fits(total as int),
{
    let mut cursor = walk_tree(tree);
    // a tree in memory is less than `usize::MAX` nodes deep
    read_node(&mut cursor, total, usize::MAX)
}

} // verus!
