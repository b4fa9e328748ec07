//! Which parts of the text show their raw markdown: the constructs the
//! cursor stands in.
use vstd::prelude::*;
use std::ops::Range;
use tree_sitter_md::MarkdownTree;

use crate::chars::same_text;
use super::{
    child_past, closed_tree, cursor_at, cursor_node, cursor_nodes, cursor_ok, goto_first_child, goto_next_sibling, tree_nodes,
    walk_tree,
};

verus! {

/// A syntax node: its kind and its byte range.
#[derive(Debug)]
pub struct NodeInfo {
    pub kind: String,
    pub start_byte: usize,
    pub end_byte: usize,
}

/// Byte ranges that show raw text.
#[derive(Debug)]
pub struct RevealSet {
    ranges: Vec<Range<usize>>,
}

/// Node kinds whose whole range is shown raw while the cursor is inside:
/// emphasis, code spans, links and images, code blocks and tables,
/// headings and breaks, list, task and block quote markers.
pub open spec fn reveals(kind: Seq<char>) -> bool {
    ||| kind == "emphasis"@
    ||| kind == "strong_emphasis"@
    ||| kind == "strikethrough"@
    ||| kind == "code_span"@
    ||| kind == "inline_link"@
    ||| kind == "full_reference_link"@
    ||| kind == "collapsed_reference_link"@
    ||| kind == "shortcut_link"@
    ||| kind == "image"@
    ||| kind == "fenced_code_block"@
    ||| kind == "pipe_table"@
    ||| kind == "atx_heading"@
    ||| kind == "setext_heading"@
    ||| kind == "thematic_break"@
    ||| kind == "list_marker_minus"@
    ||| kind == "list_marker_plus"@
    ||| kind == "list_marker_star"@
    ||| kind == "list_marker_dot"@
    ||| kind == "list_marker_parenthesis"@
    ||| kind == "task_list_marker_checked"@
    ||| kind == "task_list_marker_unchecked"@
    ||| kind == "block_quote_marker"@
}

fn is_reveal_kind(kind: &str) -> (r: bool)
    ensures
        r == reveals(kind@),
{
    same_text(kind, "emphasis") || same_text(kind, "strong_emphasis") || same_text(kind, "strikethrough")
        || same_text(kind, "code_span") || same_text(kind, "inline_link")
        || same_text(kind, "full_reference_link") || same_text(kind, "collapsed_reference_link")
        || same_text(kind, "shortcut_link") || same_text(kind, "image")
        || same_text(kind, "fenced_code_block") || same_text(kind, "pipe_table")
        || same_text(kind, "atx_heading") || same_text(kind, "setext_heading")
        || same_text(kind, "thematic_break") || same_text(kind, "list_marker_minus")
        || same_text(kind, "list_marker_plus") || same_text(kind, "list_marker_star")
        || same_text(kind, "list_marker_dot") || same_text(kind, "list_marker_parenthesis")
        || same_text(kind, "task_list_marker_checked") || same_text(kind, "task_list_marker_unchecked")
        || same_text(kind, "block_quote_marker")
}

/// Some range of `ranges` overlaps `start..end`.
pub open spec fn overlaps(ranges: Seq<(int, int)>, start: int, end: int) -> bool {
    exists|i: int| 0 <= i < ranges.len() && #[trigger] ranges[i].0 < end && start < ranges[i].1
}

pub open spec fn holds(n: NodeInfo, byte: int) -> bool {
    n.start_byte <= byte < n.end_byte
}

/// How many nodes of `path`, from `i` on, hold `byte` before one does not.
pub open spec fn descent_len(path: Seq<NodeInfo>, byte: int, i: int) -> int
    decreases path.len() - i,
{
    if i >= path.len() || !holds(path[i], byte) {
        i
    } else {
        descent_len(path, byte, i + 1)
    }
}

/// The ranges the first `n` nodes of `path` reveal.
pub open spec fn revealed(path: Seq<NodeInfo>, n: int) -> Seq<(int, int)>
    decreases n,
{
    if n <= 0 {
        Seq::empty()
    } else {
        let rest = revealed(path, n - 1);
        let node = path[n - 1];
        if reveals(node.kind@) {
            rest.push((node.start_byte as int, node.end_byte as int))
        } else {
            rest
        }
    }
}

/// The ranges revealed for `byte` going down from the node at `p` of
/// `nodes`: none where the node does not hold the byte; else its range
/// where it is of a revealing kind, then those found from its first child
/// that ends after the byte, at most `depth` levels further down.
pub open spec fn reveal_from(nodes: Map<Seq<int>, (Seq<char>, usize, usize, nat)>, p: Seq<int>, byte: int, depth: nat) -> Seq<(int, int)>
    decreases depth,
{
    let (k, s, e, n) = nodes[p];
    if byte < s || byte >= e {
        Seq::empty()
    } else {
        let mine = if reveals(k) { seq![(s as int, e as int)] } else { Seq::empty() };
        mine + if depth == 0 {
            Seq::empty()
        } else {
            match child_past(nodes, p, byte, 0) {
                Some(i) => reveal_from(nodes, p.push(i), byte, (depth - 1) as nat),
                None => Seq::empty(),
            }
        }
    }
}

proof fn lemma_child_past_bounds(nodes: Map<Seq<int>, (Seq<char>, usize, usize, nat)>, p: Seq<int>, byte: int, i: int)
    requires
        0 <= i,
    ensures
        child_past(nodes, p, byte, i) matches Some(j) ==> i <= j < nodes[p].3,
    decreases nodes[p].3 - i,
{
    if i < nodes[p].3 && nodes[p.push(i)].2 <= byte {
        lemma_child_past_bounds(nodes, p, byte, i + 1);
    }
}

proof fn lemma_reveal_from_holds(nodes: Map<Seq<int>, (Seq<char>, usize, usize, nat)>, p: Seq<int>, byte: int, depth: nat)
    ensures
        forall|i: int|
            0 <= i < reveal_from(nodes, p, byte, depth).len() ==> #[trigger] reveal_from(nodes, p, byte, depth)[i].0 <= byte
                < reveal_from(nodes, p, byte, depth)[i].1,
    decreases depth,
{
    let (k, s, e, n) = nodes[p];
    if !(byte < s || byte >= e) {
        let mine: Seq<(int, int)> = if reveals(k) { seq![(s as int, e as int)] } else { Seq::empty() };
        let rest = if depth == 0 {
            Seq::empty()
        } else {
            match child_past(nodes, p, byte, 0) {
                Some(j) => {
                    lemma_reveal_from_holds(nodes, p.push(j), byte, (depth - 1) as nat);
                    reveal_from(nodes, p.push(j), byte, (depth - 1) as nat)
                },
                None => Seq::empty(),
            }
        };
        let all = reveal_from(nodes, p, byte, depth);
        assert(all == mine + rest);
        assert forall|i: int| 0 <= i < all.len() implies #[trigger] all[i].0 <= byte < all[i].1 by {
            if i >= mine.len() {
                assert(all[i] == rest[i - mine.len()]);
            } else {
                assert(all[i] == mine[i]);
            }
        }
    }
}

impl RevealSet {
    pub closed spec fn model(&self) -> Seq<(int, int)> {
        self.ranges@.map_values(|r: Range<usize>| (r.start as int, r.end as int))
    }

    /// No range is revealed.
    pub fn empty() -> (s: Self)
        ensures
            s.model() == Seq::<(int, int)>::empty(),
    {
        let s = RevealSet { ranges: Vec::new() };
        assert(s.model() =~= Seq::<(int, int)>::empty());
        s
    }

    /// The revealed ranges, as (start, end) byte pairs.
    pub fn ranges(&self) -> (r: Vec<(usize, usize)>)
        ensures
            r@.len() == self.model().len(),
            forall|i: int| 0 <= i < r@.len() ==> (r@[i].0 as int, r@[i].1 as int) == #[trigger] self.model()[i],
    {
        let mut out: Vec<(usize, usize)> = Vec::new();
        let mut i: usize = 0;
        while i < self.ranges.len()
            invariant
                i <= self.ranges@.len(),
                out@.len() == i,
                forall|j: int| 0 <= j < i ==> (out@[j].0 as int, out@[j].1 as int) == #[trigger] self.model()[j],
            decreases self.ranges@.len() - i,
        {
            out.push((self.ranges[i].start, self.ranges[i].end));
            i += 1;
        }
        out
    }

    /// The reveal set for a descent from the root: nodes are taken while
    /// they hold `cursor_byte`, and each of a revealing kind adds its range.
    pub fn from_path(path: &Vec<NodeInfo>, cursor_byte: usize) -> (s: Self)
        ensures
            s.model() == revealed(path@, descent_len(path@, cursor_byte as int, 0)),
    {
        let mut set = RevealSet::empty();
        let mut i: usize = 0;
        while i < path.len()
            invariant
                i <= path@.len(),
                descent_len(path@, cursor_byte as int, i as int) == descent_len(path@, cursor_byte as int, 0),
                set.model() == revealed(path@, i as int),
            ensures
                set.model() == revealed(path@, descent_len(path@, cursor_byte as int, 0)),
            decreases path@.len() - i,
        {
            let node = &path[i];
            if cursor_byte < node.start_byte || cursor_byte >= node.end_byte {
                break;
            }
            if is_reveal_kind(node.kind.as_str()) {
                let ghost before = set.ranges@;
                set.ranges.push(Range { start: node.start_byte, end: node.end_byte });
                assert(set.model() =~= revealed(path@, i as int).push((node.start_byte as int, node.end_byte as int)));
            }
            i += 1;
        }
        set
    }

    /// The reveal set for the cursor at `cursor_byte`: walks down from the
    /// root through the nodes that hold the byte, each time to the first
    /// child that ends after it, and each node of a revealing kind adds its
    /// range (see `reveal_from`). Every range it reveals holds the cursor
    /// byte.
    pub fn from_cursor(tree: &MarkdownTree, cursor_byte: usize) -> (s: Self)
        ensures
            s.model() == reveal_from(tree_nodes(*tree), Seq::empty(), cursor_byte as int, usize::MAX as nat),
            forall|i: int| 0 <= i < s.model().len() ==> #[trigger] s.model()[i].0 <= cursor_byte < s.model()[i].1,
    {
        let mut set = RevealSet::empty();
        let mut cursor = walk_tree(tree);
        let ghost nodes = cursor_nodes(cursor);
        let ghost whole = reveal_from(nodes, Seq::empty(), cursor_byte as int, usize::MAX as nat);
        let mut fuel: usize = usize::MAX;
        loop
            invariant_except_break
                cursor_ok(cursor),
                set.model() + reveal_from(nodes, cursor_at(cursor), cursor_byte as int, fuel as nat) == whole,
            invariant
                cursor_nodes(cursor) == nodes,
                closed_tree(nodes),
            ensures
                set.model() == whole,
            decreases fuel,
        {
            let ghost p = cursor_at(cursor);
            let node = cursor_node(&cursor);
            if cursor_byte < node.start_byte || cursor_byte >= node.end_byte {
                assert(set.model() =~= whole);
                break;
            }
            if is_reveal_kind(node.kind.as_str()) {
                let ghost before = set.model();
                set.ranges.push(Range { start: node.start_byte, end: node.end_byte });
                assert(set.model() =~= before.push((node.start_byte as int, node.end_byte as int)));
            }
            let ghost mine = set.model();
            if fuel == 0 {
                assert(mine =~= whole);
                break;
            }
            // go down to the first child that ends after the byte
            if !goto_first_child(&mut cursor) {
                assert(child_past(nodes, p, cursor_byte as int, 0) is None);
                assert(mine =~= whole);
                break;
            }
            let ghost mut k: int = 0;
            let mut found = false;
            loop
                invariant_except_break
                    !found,
                invariant
                    cursor_nodes(cursor) == nodes,
                    closed_tree(nodes),
                    nodes.dom().contains(p),
                    0 <= k < nodes[p].3,
                    cursor_at(cursor) == p.push(k),
                    child_past(nodes, p, cursor_byte as int, 0) == child_past(nodes, p, cursor_byte as int, k),
                ensures
                    cursor_nodes(cursor) == nodes,
                    0 <= k < nodes[p].3,
                    cursor_at(cursor) == p.push(k),
                    found ==> child_past(nodes, p, cursor_byte as int, 0) == Some(k),
                    !found ==> child_past(nodes, p, cursor_byte as int, 0) is None,
                decreases nodes[p].3 - k,
            {
                proof { assert(nodes.dom().contains(p.push(k))); }
                let child = cursor_node(&cursor);
                if child.end_byte > cursor_byte {
                    found = true;
                    break;
                }
                let moved = goto_next_sibling(&mut cursor);
                proof {
                    assert(p.push(k).drop_last() =~= p);
                    assert(p.push(k).last() == k);
                }
                if !moved {
                    assert(child_past(nodes, p, cursor_byte as int, k + 1) is None);
                    break;
                }
                proof {
                    assert(p.push(k).drop_last().push(k + 1) =~= p.push(k + 1));
                    k = k + 1;
                }
            }
            if !found {
                assert(mine =~= whole);
                break;
            }
            proof {
                assert(nodes.dom().contains(p.push(k)));
                assert(set.model() + reveal_from(nodes, cursor_at(cursor), cursor_byte as int, (fuel - 1) as nat) =~= whole);
            }
            fuel -= 1;
        }
        proof { lemma_reveal_from_holds(nodes, Seq::empty(), cursor_byte as int, usize::MAX as nat); }
        set
    }

    /// Whether any part of `byte_range` overlaps a revealed range.
    pub fn is_revealed(&self, byte_range: &Range<usize>) -> (b: bool)
        ensures
            b == overlaps(self.model(), byte_range.start as int, byte_range.end as int),
    {
        let mut i: usize = 0;
        while i < self.ranges.len()
            invariant
                i <= self.ranges@.len(),
                forall|j: int| 0 <= j < i ==> !(#[trigger] self.model()[j].0 < byte_range.end && byte_range.start < self.model()[j].1),
            decreases self.ranges@.len() - i,
        {
            let r = &self.ranges[i];
            if r.start < byte_range.end && byte_range.start < r.end {
                assert(self.model()[i as int].0 < byte_range.end && byte_range.start < self.model()[i as int].1);
                return true;
            }
            i += 1;
        }
        false
    }

    /// Whether `byte` lies in a revealed range.
    pub fn is_byte_revealed(&self, byte: usize) -> (b: bool)
        ensures
            b == exists|i: int| 0 <= i < self.model().len() && #[trigger] self.model()[i].0 <= byte < self.model()[i].1,
    {
        let mut i: usize = 0;
        while i < self.ranges.len()
            invariant
                i <= self.ranges@.len(),
                forall|j: int| 0 <= j < i ==> !(#[trigger] self.model()[j].0 <= byte < self.model()[j].1),
            decreases self.ranges@.len() - i,
        {
            let r = &self.ranges[i];
            if r.start <= byte && byte < r.end {
                assert(self.model()[i as int].0 <= byte < self.model()[i as int].1);
                return true;
            }
            i += 1;
        }
        false
    }
}

/// Byte `b` lies in the range `r`.
pub open spec fn range_has(r: (int, int), b: int) -> bool {
    r.0 <= b < r.1
}

/// A byte range counts as revealed exactly when it shares a byte with a
/// revealed range (all of which are non-empty); so a single byte is
/// revealed as a range exactly when it is revealed as a byte.
pub proof fn law_revealed_means_shared_byte(ranges: Seq<(int, int)>, start: int, end: int)
    requires
        start < end,
        forall|i: int| 0 <= i < ranges.len() ==> #[trigger] ranges[i].0 < ranges[i].1,
    ensures
        overlaps(ranges, start, end) <==> exists|i: int, b: int|
            0 <= i < ranges.len() && start <= b < end && #[trigger] range_has(ranges[i], b),
        overlaps(ranges, start, start + 1) <==> exists|i: int|
            0 <= i < ranges.len() && #[trigger] ranges[i].0 <= start < ranges[i].1,
{
    if overlaps(ranges, start, end) {
        let i = choose|i: int| 0 <= i < ranges.len() && #[trigger] ranges[i].0 < end && start < ranges[i].1;
        let b = if start < ranges[i].0 { ranges[i].0 } else { start };
        assert(0 <= i < ranges.len() && start <= b < end && range_has(ranges[i], b));
    }
    if overlaps(ranges, start, start + 1) {
        let i = choose|i: int| 0 <= i < ranges.len() && #[trigger] ranges[i].0 < start + 1 && start < ranges[i].1;
        assert(ranges[i].0 <= start < ranges[i].1);
    }
    if exists|i: int| 0 <= i < ranges.len() && #[trigger] ranges[i].0 <= start < ranges[i].1 {
        let i = choose|i: int| 0 <= i < ranges.len() && #[trigger] ranges[i].0 <= start < ranges[i].1;
        assert(ranges[i].0 < start + 1 && start < ranges[i].1);
    }
}

/// The construct under the cursor shows raw: along a descent that holds
/// the byte, each node that is emphasis, strong emphasis, strikethrough or
/// a code span; an inline, full, collapsed or shortcut reference link, or
/// an image; a fenced code block or a pipe table; an ATX or setext heading
/// or a thematic break; a `-`, `+`, `*`, `.` or `)` list marker, a task
/// marker or a block quote marker, has its byte range in the revealed set.
pub proof fn law_path_reveals_constructs(path: Seq<NodeInfo>, byte: int, k: int)
    requires
        0 <= k < path.len(),
        forall|j: int| 0 <= j <= k ==> #[trigger] holds(path[j], byte),
        ({
            let kind = path[k].kind@;
            ||| kind == "emphasis"@
            ||| kind == "strong_emphasis"@
            ||| kind == "strikethrough"@
            ||| kind == "code_span"@
            ||| kind == "inline_link"@
            ||| kind == "full_reference_link"@
            ||| kind == "collapsed_reference_link"@
            ||| kind == "shortcut_link"@
            ||| kind == "image"@
            ||| kind == "fenced_code_block"@
            ||| kind == "pipe_table"@
            ||| kind == "atx_heading"@
            ||| kind == "setext_heading"@
            ||| kind == "thematic_break"@
            ||| kind == "list_marker_minus"@
            ||| kind == "list_marker_plus"@
            ||| kind == "list_marker_star"@
            ||| kind == "list_marker_dot"@
            ||| kind == "list_marker_parenthesis"@
            ||| kind == "task_list_marker_checked"@
            ||| kind == "task_list_marker_unchecked"@
            ||| kind == "block_quote_marker"@
        }),
    ensures
        revealed(path, descent_len(path, byte, 0)).contains(
            (path[k].start_byte as int, path[k].end_byte as int),
        ),
{
    lemma_descent_reaches(path, byte, 0, k);
    lemma_descent_holds(path, byte, 0);
    lemma_revealed_has(path, descent_len(path, byte, 0), k);
}

/// The same along the syntax tree: where the node at `p` holds the byte
/// and is one of those constructs, its range is revealed; and the ranges
/// found further down, from its first child that ends after the byte, are
/// revealed too.
pub proof fn law_tree_reveals_constructs(
    nodes: Map<Seq<int>, (Seq<char>, usize, usize, nat)>,
    p: Seq<int>,
    byte: int,
    depth: nat,
)
    ensures
        ({
            let kind = nodes[p].0;
            &&& nodes[p].1 <= byte < nodes[p].2
            &&& {
                ||| kind == "emphasis"@
                ||| kind == "strong_emphasis"@
                ||| kind == "strikethrough"@
                ||| kind == "code_span"@
                ||| kind == "inline_link"@
                ||| kind == "full_reference_link"@
                ||| kind == "collapsed_reference_link"@
                ||| kind == "shortcut_link"@
                ||| kind == "image"@
                ||| kind == "fenced_code_block"@
                ||| kind == "pipe_table"@
                ||| kind == "atx_heading"@
                ||| kind == "setext_heading"@
                ||| kind == "thematic_break"@
                ||| kind == "list_marker_minus"@
                ||| kind == "list_marker_plus"@
                ||| kind == "list_marker_star"@
                ||| kind == "list_marker_dot"@
                ||| kind == "list_marker_parenthesis"@
                ||| kind == "task_list_marker_checked"@
                ||| kind == "task_list_marker_unchecked"@
                ||| kind == "block_quote_marker"@
            }
        }) ==> reveal_from(nodes, p, byte, depth).contains((nodes[p].1 as int, nodes[p].2 as int)),
        nodes[p].1 <= byte < nodes[p].2 && depth > 0 ==> (child_past(nodes, p, byte, 0) matches Some(i)
            ==> forall|x: (int, int)|
            #[trigger] reveal_from(nodes, p.push(i), byte, (depth - 1) as nat).contains(x)
                ==> reveal_from(nodes, p, byte, depth).contains(x)),
{
    let (k, s, e, n) = nodes[p];
    if s <= byte < e {
        let all = reveal_from(nodes, p, byte, depth);
        let mine: Seq<(int, int)> = if reveals(k) { seq![(s as int, e as int)] } else { Seq::empty() };
        if reveals(k) {
            assert(all[0] == (s as int, e as int));
        }
        if depth > 0 {
            if let Some(i) = child_past(nodes, p, byte, 0) {
                let rest = reveal_from(nodes, p.push(i), byte, (depth - 1) as nat);
                assert(all == mine + rest);
                assert forall|x: (int, int)| #[trigger] rest.contains(x) implies all.contains(x) by {
                    let j = choose|j: int| 0 <= j < rest.len() && rest[j] == x;
                    assert(all[mine.len() + j] == x);
                }
            }
        }
    }
}

proof fn lemma_descent_reaches(path: Seq<NodeInfo>, byte: int, i: int, k: int)
    requires
        0 <= i <= k < path.len(),
        forall|j: int| 0 <= j <= k ==> #[trigger] holds(path[j], byte),
    ensures
        k < descent_len(path, byte, i),
    decreases path.len() - i,
{
    assert(holds(path[i], byte));
    if i < k {
        lemma_descent_reaches(path, byte, i + 1, k);
    } else {
        lemma_descent_holds(path, byte, i + 1);
    }
}

proof fn lemma_revealed_has(path: Seq<NodeInfo>, n: int, k: int)
    requires
        0 <= k < n <= path.len(),
        reveals(path[k].kind@),
    ensures
        revealed(path, n).contains((path[k].start_byte as int, path[k].end_byte as int)),
    decreases n,
{
    let x = (path[k].start_byte as int, path[k].end_byte as int);
    if k == n - 1 {
        assert(revealed(path, n).last() == x);
    } else {
        lemma_revealed_has(path, n - 1, k);
        let rest = revealed(path, n - 1);
        let j = choose|j: int| 0 <= j < rest.len() && rest[j] == x;
        assert(revealed(path, n)[j] == x);
    }
}

/// Every range revealed along a descent holds the byte.
proof fn lemma_revealed_hold(path: Seq<NodeInfo>, byte: int, i: int)
    requires
        0 <= i,
    ensures
        forall|k: int| 0 <= k < revealed(path, descent_len(path, byte, 0)).len() ==>
            #[trigger] revealed(path, descent_len(path, byte, 0))[k].0 <= byte < revealed(path, descent_len(path, byte, 0))[k].1,
{
    lemma_descent_holds(path, byte, 0);
    lemma_revealed_within(path, descent_len(path, byte, 0), byte);
}

proof fn lemma_descent_holds(path: Seq<NodeInfo>, byte: int, i: int)
    requires
        0 <= i,
    ensures
        i <= descent_len(path, byte, i) <= if i <= path.len() { path.len() as int } else { i },
        forall|k: int| i <= k < descent_len(path, byte, i) ==> #[trigger] holds(path[k], byte),
    decreases path.len() - i,
{
    if !(i >= path.len() || !holds(path[i], byte)) {
        lemma_descent_holds(path, byte, i + 1);
    }
}

proof fn lemma_revealed_within(path: Seq<NodeInfo>, n: int, byte: int)
    requires
        0 <= n <= path.len(),
        forall|k: int| 0 <= k < n ==> #[trigger] holds(path[k], byte),
    ensures
        forall|k: int| 0 <= k < revealed(path, n).len() ==>
            #[trigger] revealed(path, n)[k].0 <= byte < revealed(path, n)[k].1,
    decreases n,
{
    if n > 0 {
        lemma_revealed_within(path, n - 1, byte);
        assert(holds(path[n - 1], byte));
        let rest = revealed(path, n - 1);
        assert forall|k: int| 0 <= k < revealed(path, n).len() implies
            #[trigger] revealed(path, n)[k].0 <= byte < revealed(path, n)[k].1 by {
            if k < rest.len() {
                assert(revealed(path, n)[k] == rest[k]);
            }
        }
    }
}

} // verus!
