//! The sidebar's tree of markdown files: directories that hold markdown
//! files, the files themselves, and the flat list the sidebar shows.
use vstd::prelude::*;

use crate::paths::{
    file_name_of, parent_of, path_eq, path_file_name, path_parent, same_path, sort_paths, sorted_paths, texts,
};

verus! {

#[derive(Debug, Clone, Copy, PartialEq, Eq, Structural)]
pub enum NodeKind {
    Directory,
    File,
}

#[derive(Debug)]
pub struct TreeNode {
    pub name: String,
    pub path: String,
    pub kind: NodeKind,
    pub children: Vec<TreeNode>,
    pub expanded: bool,
}

#[derive(Debug)]
pub struct FlatEntry {
    pub depth: usize,
    pub name: String,
    pub path: String,
    pub kind: NodeKind,
    pub expanded: bool,
}

pub struct FileTree {
    pub root: TreeNode,
    pub flat_view: Vec<FlatEntry>,
    pub selected_index: usize,
}

/// A node as plain values.
pub ghost struct TreeModel {
    pub name: Seq<char>,
    pub path: Seq<char>,
    pub kind: NodeKind,
    pub children: Seq<TreeModel>,
    pub expanded: bool,
}

/// A flat entry as plain values.
pub ghost struct FlatModel {
    pub depth: int,
    pub name: Seq<char>,
    pub path: Seq<char>,
    pub kind: NodeKind,
    pub expanded: bool,
}

impl TreeNode {
    pub open spec fn model(self) -> TreeModel
        decreases self,
    {
        TreeModel {
            name: self.name@,
            path: self.path@,
            kind: self.kind,
            children: Seq::new(
                self.children@.len(),
                |i: int|
                    if 0 <= i < self.children@.len() {
                        self.children@[i].model()
                    } else {
                        arbitrary()
                    },
            ),
            expanded: self.expanded,
        }
    }
}

impl FlatEntry {
    pub open spec fn model(self) -> FlatModel {
        FlatModel {
            depth: self.depth as int,
            name: self.name@,
            path: self.path@,
            kind: self.kind,
            expanded: self.expanded,
        }
    }
}

pub open spec fn flat_models(v: Seq<FlatEntry>) -> Seq<FlatModel> {
    v.map_values(|e: FlatEntry| e.model())
}

/// The entries shown for `node` at `depth`: the node itself unless
/// `skip_self`, then, where the node is skipped or is an expanded
/// directory, its children one level deeper.
pub open spec fn flatten(node: TreeModel, depth: int, skip_self: bool) -> Seq<FlatModel>
    decreases node, 1int,
{
    let me = if skip_self {
        Seq::empty()
    } else {
        seq![FlatModel { depth, name: node.name, path: node.path, kind: node.kind, expanded: node.expanded }]
    };
    let show = skip_self || (node.kind == NodeKind::Directory && node.expanded);
    let child_depth = if skip_self { depth } else { depth + 1 };
    if show {
        me + flatten_all(node, node.children.len() as int, child_depth)
    } else {
        me
    }
}

/// The entries of the first `n` children of `node`, each at `depth`.
pub open spec fn flatten_all(node: TreeModel, n: int, depth: int) -> Seq<FlatModel>
    decreases node, 0int, n,
{
    if n <= 0 || n > node.children.len() {
        Seq::empty()
    } else {
        flatten_all(node, n - 1, depth) + flatten(node.children[n - 1], depth, false)
    }
}

/// Height of a tree: one for a leaf.
pub open spec fn height(node: TreeModel) -> nat
    decreases node, 1int,
{
    1 + max_height(node, node.children.len() as int)
}

pub open spec fn max_height(node: TreeModel, n: int) -> nat
    decreases node, 0int, n,
{
    if n <= 0 || n > node.children.len() {
        0
    } else {
        let a = max_height(node, n - 1);
        let b = height(node.children[n - 1]);
        if a < b { b } else { a }
    }
}

/// Whether `node` or a node below it has path `p`.
pub open spec fn contains_path(node: TreeModel, p: Seq<char>) -> bool
    decreases node, 1int,
{
    node.path == p || any_contains(node, node.children.len() as int, p)
}

/// Whether one of the first `n` children of `node` contains path `p`.
pub open spec fn any_contains(node: TreeModel, n: int, p: Seq<char>) -> bool
    decreases node, 0int, n,
{
    if n <= 0 || n > node.children.len() {
        false
    } else {
        any_contains(node, n - 1, p) || contains_path(node.children[n - 1], p)
    }
}

/// The tree after flipping `expanded` on the first node, in pre-order,
/// whose path is `p`.
pub open spec fn toggled(node: TreeModel, p: Seq<char>) -> TreeModel
    decreases node,
{
    if node.path == p {
        TreeModel { expanded: !node.expanded, ..node }
    } else {
        TreeModel {
            children: Seq::new(
                node.children.len(),
                |i: int|
                    if 0 <= i < node.children.len() && !any_contains(node, i, p) && contains_path(node.children[i], p) {
                        toggled(node.children[i], p)
                    } else {
                        node.children[i]
                    },
            ),
            ..node
        }
    }
}

proof fn lemma_child_height(node: TreeModel, n: int, k: int)
    requires
        0 <= k < n <= node.children.len(),
    ensures
        height(node.children[k]) <= max_height(node, n),
    decreases n,
{
    if k < n - 1 {
        lemma_child_height(node, n - 1, k);
    }
}

proof fn lemma_flat_push(s: Seq<FlatEntry>, e: FlatEntry)
    ensures
        flat_models(s.push(e)) == flat_models(s).push(e.model()),
{
    assert(flat_models(s.push(e)) =~= flat_models(s).push(e.model()));
}

impl FileTree {
    /// Appends the entries of `node` (see `flatten`) to `out`.
    pub fn flatten_node(node: &TreeNode, depth: usize, skip_self: bool, out: &mut Vec<FlatEntry>)
        requires
            depth + height(node.model()) <= usize::MAX,
        ensures
            flat_models(final(out)@) == flat_models(old(out)@) + flatten(node.model(), depth as int, skip_self),
        decreases node,
    {
        let ghost start = out@;
        let ghost m = node.model();
        let ghost me: Seq<FlatModel> = if skip_self {
            Seq::empty()
        } else {
            seq![FlatModel { depth: depth as int, name: m.name, path: m.path, kind: m.kind, expanded: m.expanded }]
        };
        if !skip_self {
            let e = FlatEntry {
                depth,
                name: node.name.clone(),
                path: node.path.clone(),
                kind: node.kind,
                expanded: node.expanded,
            };
            proof { lemma_flat_push(out@, e); }
            out.push(e);
        }
        assert(flat_models(out@) =~= flat_models(start) + me);
        let show = skip_self || (node.kind == NodeKind::Directory && node.expanded);
        if show {
            let child_depth = if skip_self { depth } else { depth + 1 };
            let mut i: usize = 0;
            while i < node.children.len()
                invariant
                    i <= node.children@.len(),
                    m == node.model(),
                    child_depth + height(m) <= usize::MAX + 1,
                    flat_models(out@) == flat_models(start) + me + flatten_all(m, i as int, child_depth as int),
                decreases node.children@.len() - i,
            {
                proof {
                    lemma_child_height(m, m.children.len() as int, i as int);
                    assert(m.children[i as int] == node.children@[i as int].model());
                }
                Self::flatten_node(&node.children[i], child_depth, false, out);
                i += 1;
                proof {
                    assert(flat_models(out@) =~= flat_models(start) + me + flatten_all(m, i as int, child_depth as int));
                }
            }
        }
    }
}

proof fn lemma_any_contains(node: TreeModel, n: int, p: Seq<char>)
    requires
        0 <= n <= node.children.len(),
    ensures
        any_contains(node, n, p) <==> exists|j: int| 0 <= j < n && #[trigger] contains_path(node.children[j], p),
    decreases n,
{
    if n > 0 {
        lemma_any_contains(node, n - 1, p);
        if contains_path(node.children[n - 1], p) {
            assert(0 <= n - 1 < n && contains_path(node.children[n - 1], p));
        }
        if exists|j: int| 0 <= j < n && #[trigger] contains_path(node.children[j], p) {
            let j = choose|j: int| 0 <= j < n && #[trigger] contains_path(node.children[j], p);
            if j < n - 1 {
                assert(0 <= j < n - 1 && contains_path(node.children[j], p));
            }
        }
    }
}

impl FileTree {
    /// Flips `expanded` on the first node (pre-order) whose path is `path`;
    /// returns whether there was one.
    pub fn toggle_node(node: &mut TreeNode, path: &String) -> (found: bool)
        ensures
            found == contains_path(old(node).model(), path@),
            final(node).model() == toggled(old(node).model(), path@),
        decreases height(old(node).model()),
    {
        if node.path == *path {
            node.expanded = !node.expanded;
            proof {
                assert(node.model().children =~= old(node).model().children);
            }
            return true;
        }
        let ghost m0 = old(node).model();
        let ghost p = path@;
        let mut i: usize = 0;
        while i < node.children.len()
            invariant
                i <= node.children@.len(),
                node.children@.len() == m0.children.len(),
                forall|j: int| 0 <= j < node.children@.len() ==> #[trigger] node.children@[j].model() == m0.children[j],
                node.name == old(node).name,
                node.path == old(node).path,
                node.kind == old(node).kind,
                node.expanded == old(node).expanded,
                m0 == old(node).model(),
                m0.path != p,
                p == path@,
                !any_contains(m0, i as int, p),
            decreases node.children@.len() - i,
        {
            let ghost before = node.children@;
            proof {
                lemma_child_height(m0, m0.children.len() as int, i as int);
            }
            let found = Self::toggle_node(&mut node.children[i], path);
            proof {
                assert(before[i as int].model() == m0.children[i as int]);
                assert forall|j: int| 0 <= j < node.children@.len() && j != i implies
                    #[trigger] node.children@[j].model() == m0.children[j] by {
                    assert(node.children@[j] == before[j]);
                }
            }
            if found {
                proof {
                    lemma_any_contains(m0, i as int, p);
                    lemma_any_contains(m0, m0.children.len() as int, p);
                    assert(contains_path(m0.children[i as int], p));
                    assert(any_contains(m0, m0.children.len() as int, p));
                    assert forall|j: int| 0 <= j < m0.children.len() implies
                        node.model().children[j] == #[trigger] toggled(m0, p).children[j] by {
                        lemma_any_contains(m0, j, p);
                        if j > i {
                            assert(contains_path(m0.children[i as int], p) && 0 <= i < j);
                            assert(toggled(m0, p).children[j] == m0.children[j]);
                        } else if j < i {
                            assert(!contains_path(m0.children[j], p));
                            assert(toggled(m0, p).children[j] == m0.children[j]);
                        } else {
                            assert(toggled(m0, p).children[j] == toggled(m0.children[j], p));
                        }
                        assert(node.model().children[j] == node.children@[j].model());
                    }
                    assert(node.model().children =~= toggled(m0, p).children);
                }
                return true;
            }
            proof {
                lemma_any_contains(m0.children[i as int], m0.children[i as int].children.len() as int, p);
                assert(toggled(m0.children[i as int], p).children =~= m0.children[i as int].children);
                assert(node.children@[i as int].model() == m0.children[i as int]);
            }
            i += 1;
        }
        proof {
            lemma_any_contains(m0, m0.children.len() as int, p);
            assert forall|j: int| 0 <= j < m0.children.len() implies
                node.model().children[j] == #[trigger] toggled(m0, p).children[j] by {
                lemma_any_contains(m0, j, p);
                assert(!contains_path(m0.children[j], p));
                assert(toggled(m0, p).children[j] == m0.children[j]);
                assert(node.model().children[j] == node.children@[j].model());
                assert(node.children@[j].model() == m0.children[j]);
            }
            assert(node.model().children =~= toggled(m0, p).children);
        }
        false
    }
}

proof fn lemma_height_toggled(t: TreeModel, p: Seq<char>)
    ensures
        height(toggled(t, p)) == height(t),
    decreases t, 1int,
{
    lemma_max_height_toggled(t, p, t.children.len() as int);
}

proof fn lemma_max_height_toggled(t: TreeModel, p: Seq<char>, n: int)
    requires
        0 <= n <= t.children.len(),
    ensures
        max_height(toggled(t, p), n) == max_height(t, n),
    decreases t, 0int, n,
{
    if n > 0 {
        lemma_max_height_toggled(t, p, n - 1);
        if t.path != p {
            lemma_height_toggled(t.children[n - 1], p);
        }
    }
}

proof fn lemma_contains_toggled(t: TreeModel, p: Seq<char>, q: Seq<char>)
    ensures
        contains_path(toggled(t, p), q) == contains_path(t, q),
        toggled(t, p).path == t.path,
        toggled(t, p).children.len() == t.children.len(),
    decreases t, 1int,
{
    lemma_any_contains_toggled(t, p, q, t.children.len() as int);
}

proof fn lemma_any_contains_toggled(t: TreeModel, p: Seq<char>, q: Seq<char>, n: int)
    requires
        0 <= n <= t.children.len(),
    ensures
        any_contains(toggled(t, p), n, q) == any_contains(t, n, q),
    decreases t, 0int, n,
{
    if n > 0 {
        lemma_any_contains_toggled(t, p, q, n - 1);
        if t.path != p {
            lemma_contains_toggled(t.children[n - 1], p, q);
        }
    }
}

/// Toggling the same path twice gives the tree back: a directory expanded
/// and collapsed again (or the other way round) leaves the whole tree as
/// it was.
pub proof fn law_toggle_twice(t: TreeModel, p: Seq<char>)
    ensures
        toggled(toggled(t, p), p) == t,
    decreases t,
{
    let t1 = toggled(t, p);
    let t2 = toggled(t1, p);
    if t.path == p {
        assert(t2 =~= t);
    } else {
        assert forall|i: int| 0 <= i < t.children.len() implies #[trigger] t2.children[i] == t.children[i] by {
            lemma_any_contains_toggled(t, p, p, i);
            lemma_contains_toggled(t.children[i], p, p);
            if !any_contains(t, i, p) && contains_path(t.children[i], p) {
                law_toggle_twice(t.children[i], p);
            }
        }
        assert(t2.children =~= t.children);
        assert(t2 =~= t);
    }
}

/// No entry of `v` has path `p`.
pub open spec fn lacks_path(v: Seq<FlatModel>, p: Seq<char>) -> bool {
    forall|k: int| 0 <= k < v.len() ==> (#[trigger] v[k]).path != p
}

proof fn lemma_flatten_all_children(a: TreeModel, b: TreeModel, n: int, d: int)
    requires
        a.children == b.children,
    ensures
        flatten_all(a, n, d) == flatten_all(b, n, d),
    decreases n,
{
    if n > 0 && n <= a.children.len() {
        lemma_flatten_all_children(a, b, n - 1, d);
    }
}

/// Toggling a node that the flat view of `t` does not show changes nothing
/// in it.
proof fn lemma_hidden_toggle(t: TreeModel, p: Seq<char>, d: int)
    requires
        lacks_path(flatten(t, d, false), p),
    ensures
        flatten(toggled(t, p), d, false) == flatten(t, d, false),
    decreases t, 1int,
{
    let v = flatten(t, d, false);
    assert(v[0].path == t.path);
    let t1 = toggled(t, p);
    lemma_contains_toggled(t, p, p);
    if t.kind == NodeKind::Directory && t.expanded {
        let rest = flatten_all(t, t.children.len() as int, d + 1);
        assert forall|k: int| 0 <= k < rest.len() implies (#[trigger] rest[k]).path != p by {
            assert(v[k + 1] == rest[k]);
        }
        lemma_hidden_toggle_all(t, p, t.children.len() as int, d + 1);
    }
    assert(flatten(t1, d, false) =~= v);
}

proof fn lemma_hidden_toggle_all(t: TreeModel, p: Seq<char>, n: int, d: int)
    requires
        t.path != p,
        0 <= n <= t.children.len(),
        lacks_path(flatten_all(t, n, d), p),
    ensures
        flatten_all(toggled(t, p), n, d) == flatten_all(t, n, d),
    decreases t, 0int, n,
{
    if n > 0 {
        let a = flatten_all(t, n - 1, d);
        let c = t.children[n - 1];
        let b = flatten(c, d, false);
        assert forall|k: int| 0 <= k < a.len() implies (#[trigger] a[k]).path != p by {
            assert(flatten_all(t, n, d)[k] == a[k]);
        }
        assert forall|k: int| 0 <= k < b.len() implies (#[trigger] b[k]).path != p by {
            assert(flatten_all(t, n, d)[a.len() + k] == b[k]);
        }
        lemma_hidden_toggle_all(t, p, n - 1, d);
        lemma_contains_toggled(t, p, p);
        lemma_hidden_toggle(c, p, d);
    }
}

/// Toggling keeps the first entry with path `p` in place: the entries
/// before it stay, and it keeps its path and kind.
proof fn lemma_toggle_keeps_entry(t: TreeModel, p: Seq<char>, d: int, skip: bool, i: int)
    requires
        0 <= i < flatten(t, d, skip).len(),
        flatten(t, d, skip)[i].path == p,
        lacks_path(flatten(t, d, skip).take(i), p),
    ensures
        i < flatten(toggled(t, p), d, skip).len(),
        flatten(toggled(t, p), d, skip).take(i) == flatten(t, d, skip).take(i),
        flatten(toggled(t, p), d, skip)[i].path == p,
        flatten(toggled(t, p), d, skip)[i].kind == flatten(t, d, skip)[i].kind,
    decreases t, 2int,
{
    let v = flatten(t, d, skip);
    let t1 = toggled(t, p);
    let v1 = flatten(t1, d, skip);
    let cd = if skip { d } else { d + 1 };
    lemma_contains_toggled(t, p, p);
    if t.path == p {
        if skip {
            lemma_flatten_all_children(t, t1, t.children.len() as int, cd);
            assert(v1 =~= v);
        } else {
            assert(i == 0) by {
                if i > 0 {
                    assert(v.take(i)[0] == v[0]);
                }
            }
        }
    } else {
        let me: Seq<FlatModel> = if skip {
            Seq::empty()
        } else {
            seq![FlatModel { depth: d, name: t.name, path: t.path, kind: t.kind, expanded: t.expanded }]
        };
        let show = skip || (t.kind == NodeKind::Directory && t.expanded);
        if !show {
            assert(v == me);
            assert(false);
        }
        let n = t.children.len() as int;
        let rest = flatten_all(t, n, cd);
        let rest1 = flatten_all(t1, n, cd);
        assert(v == me + rest);
        assert(v1 == me + rest1);
        if i < me.len() {
            assert(v[i] == me[i]);
        }
        let j = i - me.len();
        assert(rest[j] == v[i]);
        assert forall|k: int| 0 <= k < j implies (#[trigger] rest.take(j)[k]).path != p by {
            assert(rest.take(j)[k] == v.take(i)[k + me.len()]);
        }
        lemma_toggle_keeps_all(t, p, n, cd, j);
        assert(v1.take(i) =~= me + rest1.take(j));
        assert(v.take(i) =~= me + rest.take(j));
        assert(v1[i] == rest1[j]);
    }
}

proof fn lemma_toggle_keeps_all(t: TreeModel, p: Seq<char>, n: int, d: int, j: int)
    requires
        t.path != p,
        0 <= n <= t.children.len(),
        0 <= j < flatten_all(t, n, d).len(),
        flatten_all(t, n, d)[j].path == p,
        lacks_path(flatten_all(t, n, d).take(j), p),
    ensures
        j < flatten_all(toggled(t, p), n, d).len(),
        flatten_all(toggled(t, p), n, d).take(j) == flatten_all(t, n, d).take(j),
        flatten_all(toggled(t, p), n, d)[j].path == p,
        flatten_all(toggled(t, p), n, d)[j].kind == flatten_all(t, n, d)[j].kind,
    decreases t, 1int, n,
{
    let t1 = toggled(t, p);
    lemma_contains_toggled(t, p, p);
    let all = flatten_all(t, n, d);
    let all1 = flatten_all(t1, n, d);
    let a = flatten_all(t, n - 1, d);
    let a1 = flatten_all(t1, n - 1, d);
    let c = t.children[n - 1];
    let c1 = t1.children[n - 1];
    let b = flatten(c, d, false);
    let b1 = flatten(c1, d, false);
    assert(all == a + b);
    assert(all1 == a1 + b1);
    if j < a.len() {
        assert(a[j] == all[j]);
        assert forall|k: int| 0 <= k < j implies (#[trigger] a.take(j)[k]).path != p by {
            assert(a.take(j)[k] == all.take(j)[k]);
        }
        lemma_toggle_keeps_all(t, p, n - 1, d, j);
        assert(all1.take(j) =~= a1.take(j));
        assert(all.take(j) =~= a.take(j));
        assert(all1[j] == a1[j]);
    } else {
        let k = j - a.len();
        assert forall|m: int| 0 <= m < a.len() implies (#[trigger] a[m]).path != p by {
            assert(a[m] == all.take(j)[m]);
        }
        lemma_hidden_toggle_all(t, p, n - 1, d);
        assert(b[k] == all[j]);
        assert forall|m: int| 0 <= m < k implies (#[trigger] b.take(k)[m]).path != p by {
            assert(b.take(k)[m] == all.take(j)[a.len() + m]);
        }
        if c1 == c {
        } else {
            assert(c1 == toggled(c, p));
            lemma_toggle_keeps_entry(c, p, d, false, k);
        }
        assert(all1.take(j) =~= a + b1.take(k));
        assert(all.take(j) =~= a + b.take(k));
        assert(all1[j] == b1[k]);
    }
}

/// Toggling the selected directory leaves it selected: where the flat view
/// of `t` shows no entry with the same path before entry `i` (so in any
/// tree whose paths differ), toggling that path keeps the entries before
/// `i` and keeps entry `i` a node with that path and kind. So a second
/// toggle of the same entry toggles the same path again, and by
/// `law_toggle_twice` gives the tree, and with it the flat view, back.
pub proof fn law_toggle_keeps_selection(t: TreeModel, i: int)
    requires
        0 <= i < flatten(t, 0, true).len(),
        lacks_path(flatten(t, 0, true).take(i), flatten(t, 0, true)[i].path),
    ensures
        ({
            let v = flatten(t, 0, true);
            let p = v[i].path;
            let v1 = flatten(toggled(t, p), 0, true);
            &&& i < v1.len()
            &&& v1.take(i) == v.take(i)
            &&& v1[i].path == p
            &&& v1[i].kind == v[i].kind
            &&& toggled(toggled(t, p), p) == t
        }),
{
    let p = flatten(t, 0, true)[i].path;
    lemma_toggle_keeps_entry(t, p, 0, true, i);
    law_toggle_twice(t, p);
}

impl FileTree {
    /// The tree fits the depth counter of its flat view.
    pub open spec fn fits(&self) -> bool {
        height(self.root.model()) <= usize::MAX
    }

    /// Recomputes the flat view from the tree (the root itself is not
    /// listed) and keeps the selection inside it.
    pub fn rebuild_flat_view(&mut self)
        requires
            old(self).fits(),
        ensures
            final(self).root == old(self).root,
            flat_models(final(self).flat_view@) == flatten(old(self).root.model(), 0, true),
            final(self).selected_index == (if old(self).selected_index >= final(self).flat_view@.len()
                && final(self).flat_view@.len() > 0 {
                (final(self).flat_view@.len() - 1) as usize
            } else {
                old(self).selected_index
            }),
    {
        self.flat_view.clear();
        proof {
            assert(flat_models(self.flat_view@) =~= Seq::<FlatModel>::empty());
        }
        Self::flatten_node(&self.root, 0, true, &mut self.flat_view);
        assert(flat_models(self.flat_view@) =~= flatten(self.root.model(), 0, true));
        if self.selected_index >= self.flat_view.len() && self.flat_view.len() > 0 {
            self.selected_index = self.flat_view.len() - 1;
        }
    }

    pub fn move_up(&mut self)
        ensures
            final(self).root == old(self).root,
            final(self).flat_view == old(self).flat_view,
            final(self).selected_index == (if old(self).selected_index > 0 {
                (old(self).selected_index - 1) as usize
            } else {
                0
            }),
    {
        if self.selected_index > 0 {
            self.selected_index -= 1;
        }
    }

    pub fn move_down(&mut self)
        ensures
            final(self).root == old(self).root,
            final(self).flat_view == old(self).flat_view,
            final(self).selected_index == (if old(self).flat_view@.len() > 0
                && old(self).selected_index < old(self).flat_view@.len() - 1 {
                (old(self).selected_index + 1) as usize
            } else {
                old(self).selected_index
            }),
    {
        if self.flat_view.len() > 0 && self.selected_index < self.flat_view.len() - 1 {
            self.selected_index += 1;
        }
    }

    /// Expands or collapses the selected directory; files and an empty
    /// view are left alone.
    pub fn toggle_expand(&mut self)
        requires
            old(self).fits(),
            old(self).flat_view@.len() == 0 || old(self).selected_index < old(self).flat_view@.len(),
        ensures
            final(self).fits(),
            ({
                let v = old(self).flat_view@;
                let i = old(self).selected_index as int;
                if v.len() == 0 || v[i].kind != NodeKind::Directory {
                    *final(self) == *old(self)
                } else {
                    &&& final(self).root.model() == toggled(old(self).root.model(), v[i].path@)
                    &&& flat_models(final(self).flat_view@) == flatten(final(self).root.model(), 0, true)
                    &&& final(self).selected_index == (if i >= final(self).flat_view@.len()
                        && final(self).flat_view@.len() > 0 {
                        (final(self).flat_view@.len() - 1) as usize
                    } else {
                        old(self).selected_index
                    })
                }
            }),
    {
        if self.flat_view.len() == 0 {
            return;
        }
        if self.flat_view[self.selected_index].kind != NodeKind::Directory {
            return;
        }
        let path = self.flat_view[self.selected_index].path.clone();
        let _ = Self::toggle_node(&mut self.root, &path);
        proof {
            lemma_height_toggled(old(self).root.model(), path@);
        }
        self.rebuild_flat_view();
    }

    pub fn selected_path(&self) -> (p: Option<&String>)
        ensures
            p == (if self.selected_index < self.flat_view@.len() {
                Some(&self.flat_view@[self.selected_index as int].path)
            } else {
                None
            }),
    {
        if self.selected_index < self.flat_view.len() {
            Some(&self.flat_view[self.selected_index].path)
        } else {
            None
        }
    }

    pub fn selected_kind(&self) -> (k: Option<NodeKind>)
        ensures
            k == (if self.selected_index < self.flat_view@.len() {
                Some(self.flat_view@[self.selected_index as int].kind)
            } else {
                None
            }),
    {
        if self.selected_index < self.flat_view.len() {
            Some(self.flat_view[self.selected_index].kind)
        } else {
            None
        }
    }
}


/// `dirs` with `d` added at the end, unless one of them already names the
/// same path.
pub open spec fn add_dir(dirs: Seq<Seq<char>>, d: Seq<char>) -> Seq<Seq<char>> {
    if exists|i: int| 0 <= i < dirs.len() && same_path(#[trigger] dirs[i], d) {
        dirs
    } else {
        dirs.push(d)
    }
}

/// `dirs` with the ancestors of `path` added, nearest first, up to but not
/// including `root`; at most `steps` of them.
pub open spec fn add_ancestors(dirs: Seq<Seq<char>>, path: Seq<char>, root: Seq<char>, steps: nat) -> Seq<Seq<char>>
    decreases steps,
{
    if steps == 0 {
        dirs
    } else {
        match parent_of(path) {
            None => dirs,
            Some(p) => if same_path(p, root) {
                dirs
            } else {
                add_ancestors(add_dir(dirs, p), p, root, (steps - 1) as nat)
            },
        }
    }
}

/// The directories below `root` that hold one of `files`, at any depth:
/// each ancestor of each file up to `root`, once, in the order first met.
/// (A path has fewer ancestors than chars, so the bound on the steps never
/// cuts a chain short.)
pub open spec fn dirs_holding(files: Seq<Seq<char>>, root: Seq<char>) -> Seq<Seq<char>>
    decreases files.len(),
{
    if files.len() == 0 {
        Seq::empty()
    } else {
        add_ancestors(dirs_holding(files.drop_last(), root), files.last(), root, files.last().len())
    }
}

/// Whether the parent of `path` is `dir`.
pub open spec fn is_child(path: Seq<char>, dir: Seq<char>) -> bool {
    match parent_of(path) {
        Some(p) => same_path(p, dir),
        None => false,
    }
}

/// The paths of `s` whose parent is `dir`, in order.
pub open spec fn children_in(s: Seq<Seq<char>>, dir: Seq<char>) -> Seq<Seq<char>>
    decreases s.len(),
{
    if s.len() == 0 {
        Seq::empty()
    } else {
        let r = children_in(s.drop_last(), dir);
        if is_child(s.last(), dir) { r.push(s.last()) } else { r }
    }
}

/// The node of a markdown file.
pub open spec fn file_model(path: Seq<char>) -> TreeModel {
    TreeModel { name: file_name_of(path), path, kind: NodeKind::File, children: Seq::empty(), expanded: false }
}

/// The tree of directory `dir` at `depth`: its subdirectories that hold
/// markdown files, in path order, then its markdown files, in path order.
/// Only the root (depth zero) starts expanded.
pub open spec fn tree_of(dir: Seq<char>, files: Seq<Seq<char>>, dirs: Seq<Seq<char>>, depth: int) -> TreeModel
    decreases depth_limit(dirs) - depth, 1int, 0int,
{
    let cds = sorted_paths(children_in(dirs, dir));
    let cfs = sorted_paths(children_in(files, dir));
    TreeModel {
        name: file_name_of(dir),
        path: dir,
        kind: NodeKind::Directory,
        children: subdirs(cds, files, dirs, depth, cds.len() as int) + cfs.map_values(|f: Seq<char>| file_model(f)),
        expanded: depth == 0,
    }
}

/// How deep directories are descended into: no deeper than the number of
/// directories (no chain of nested directories is longer than that), and
/// not so deep that the depth of the sidebar's entries would overflow.
pub open spec fn depth_limit(dirs: Seq<Seq<char>>) -> int {
    if dirs.len() < usize::MAX - 3 { dirs.len() as int } else { usize::MAX - 3 }
}

/// The trees of the first `n` of `cds`, one level below `depth`, leaving
/// out those with no children; none at or below `depth_limit`.
pub open spec fn subdirs(cds: Seq<Seq<char>>, files: Seq<Seq<char>>, dirs: Seq<Seq<char>>, depth: int, n: int) -> Seq<TreeModel>
    decreases depth_limit(dirs) - depth, 0int, n,
{
    if n <= 0 || n > cds.len() || depth < 0 || depth >= depth_limit(dirs) {
        Seq::empty()
    } else {
        let prev = subdirs(cds, files, dirs, depth, n - 1);
        let t = tree_of(cds[n - 1], files, dirs, depth + 1);
        if t.children.len() > 0 { prev.push(t) } else { prev }
    }
}

/// The models of some nodes.
pub open spec fn tree_models(v: Seq<TreeNode>) -> Seq<TreeModel> {
    v.map_values(|n: TreeNode| n.model())
}

proof fn lemma_max_height_bound(node: TreeModel, n: int, h: nat)
    requires
        0 <= n <= node.children.len(),
        forall|k: int| 0 <= k < n ==> height(#[trigger] node.children[k]) <= h,
    ensures
        max_height(node, n) <= h,
    decreases n,
{
    if n > 0 {
        lemma_max_height_bound(node, n - 1, h);
    }
}

proof fn lemma_tree_height(dir: Seq<char>, files: Seq<Seq<char>>, dirs: Seq<Seq<char>>, depth: int)
    requires
        0 <= depth <= depth_limit(dirs),
    ensures
        height(tree_of(dir, files, dirs, depth)) <= depth_limit(dirs) - depth + 2,
    decreases depth_limit(dirs) - depth, 1int, 0int,
{
    let t = tree_of(dir, files, dirs, depth);
    let cds = sorted_paths(children_in(dirs, dir));
    let cfs = sorted_paths(children_in(files, dir));
    let sd = subdirs(cds, files, dirs, depth, cds.len() as int);
    lemma_subdirs_height(cds, files, dirs, depth, cds.len() as int);
    assert forall|k: int| 0 <= k < t.children.len() implies height(#[trigger] t.children[k]) <= (depth_limit(dirs)
        - depth + 1) as nat by {
        if k >= sd.len() {
            let f = file_model(cfs[k - sd.len()]);
            assert(t.children[k] == f);
            assert(max_height(f, 0) == 0);
        }
    }
    lemma_max_height_bound(t, t.children.len() as int, (depth_limit(dirs) - depth + 1) as nat);
}

proof fn lemma_subdirs_height(cds: Seq<Seq<char>>, files: Seq<Seq<char>>, dirs: Seq<Seq<char>>, depth: int, n: int)
    requires
        0 <= depth <= depth_limit(dirs),
    ensures
        forall|k: int|
            0 <= k < subdirs(cds, files, dirs, depth, n).len() ==> height(
                #[trigger] subdirs(cds, files, dirs, depth, n)[k],
            ) <= depth_limit(dirs) - depth + 1,
    decreases depth_limit(dirs) - depth, 0int, n,
{
    if n <= 0 || n > cds.len() || depth < 0 || depth >= depth_limit(dirs) {
    } else {
        lemma_subdirs_height(cds, files, dirs, depth, n - 1);
        lemma_tree_height(cds[n - 1], files, dirs, depth + 1);
        let prev = subdirs(cds, files, dirs, depth, n - 1);
        let sd = subdirs(cds, files, dirs, depth, n);
        assert forall|k: int| 0 <= k < sd.len() implies height(#[trigger] sd[k]) <= depth_limit(dirs) - depth + 1 by {
            if k < prev.len() {
                assert(sd[k] == prev[k]);
            }
        }
    }
}

/// Adds `d` to `dirs` unless one of them already names the same path.
fn add_dir_once(dirs: &mut Vec<String>, d: &String)
    ensures
        texts(final(dirs)@) == add_dir(texts(old(dirs)@), d@),
{
    let ghost s = texts(dirs@);
    let mut j: usize = 0;
    while j < dirs.len()
        invariant
            j <= dirs@.len(),
            s == texts(dirs@),
            forall|q: int| 0 <= q < j ==> !same_path(#[trigger] s[q], d@),
        decreases dirs@.len() - j,
    {
        if path_eq(&dirs[j], d) {
            assert(same_path(s[j as int], d@));
            return;
        }
        j += 1;
    }
    dirs.push(d.clone());
    assert(texts(dirs@) =~= s.push(d@));
}

/// The directories below `root` that hold one of `md_files` (see
/// `dirs_holding`).
pub fn collect_dirs(root: &String, md_files: &Vec<String>) -> (dirs: Vec<String>)
    ensures
        texts(dirs@) == dirs_holding(texts(md_files@), root@),
{
    let mut dirs: Vec<String> = Vec::new();
    let mut i: usize = 0;
    while i < md_files.len()
        invariant
            i <= md_files@.len(),
            texts(dirs@) == dirs_holding(texts(md_files@).take(i as int), root@),
        decreases md_files@.len() - i,
    {
        let ghost file = md_files@[i as int]@;
        let ghost start = texts(dirs@);
        let ghost mut cur = file;
        let ghost mut steps: nat = file.len();
        let mut ancestor = path_parent(&md_files[i]);
        loop
            invariant
                cur.len() <= steps,
                add_ancestors(texts(dirs@), cur, root@, steps) == add_ancestors(start, file, root@, file.len()),
                match ancestor {
                    Some(p) => parent_of(cur) == Some(p@) && p@.len() < cur.len(),
                    None => parent_of(cur) is None,
                },
            ensures
                texts(dirs@) == add_ancestors(start, file, root@, file.len()),
            decreases steps,
        {
            let dir = match ancestor {
                Some(d) => d,
                None => {
                    break;
                },
            };
            if path_eq(&dir, root) {
                break;
            }
            add_dir_once(&mut dirs, &dir);
            ancestor = path_parent(&dir);
            proof {
                cur = dir@;
                steps = (steps - 1) as nat;
            }
        }
        proof {
            let ts = texts(md_files@).take(i + 1);
            assert(ts.drop_last() =~= texts(md_files@).take(i as int));
            assert(ts.last() == file);
        }
        i += 1;
    }
    assert(texts(md_files@).take(md_files@.len() as int) =~= texts(md_files@));
    dirs
}

/// The paths of `paths` whose parent is `dir`, in order.
fn children_of(paths: &Vec<String>, dir: &String) -> (out: Vec<String>)
    ensures
        texts(out@) == children_in(texts(paths@), dir@),
{
    let mut out: Vec<String> = Vec::new();
    let mut i: usize = 0;
    while i < paths.len()
        invariant
            i <= paths@.len(),
            texts(out@) == children_in(texts(paths@).take(i as int), dir@),
        decreases paths@.len() - i,
    {
        let ghost before = texts(out@);
        let parent = path_parent(&paths[i]);
        let child = match &parent {
            Some(p) => path_eq(p, dir),
            None => false,
        };
        if child {
            out.push(paths[i].clone());
        }
        proof {
            let ts = texts(paths@).take(i + 1);
            assert(ts.drop_last() =~= texts(paths@).take(i as int));
            assert(ts.last() == paths@[i as int]@);
            assert(texts(out@) =~= children_in(ts, dir@));
        }
        i += 1;
    }
    assert(texts(paths@).take(paths@.len() as int) =~= texts(paths@));
    out
}

impl FileTree {
    /// The tree of directory `dir` at `depth` (see `tree_of`).
    pub fn build_node(dir: &String, md_files: &Vec<String>, dirs: &Vec<String>, depth: usize) -> (n: TreeNode)
        ensures
            n.model() == tree_of(dir@, texts(md_files@), texts(dirs@), depth as int),
        decreases depth_limit(texts(dirs@)) - depth,
    {
        let ghost fs = texts(md_files@);
        let ghost ds = texts(dirs@);
        let child_dirs = sort_paths(&children_of(dirs, dir));
        let child_files = sort_paths(&children_of(md_files, dir));
        let ghost cds = texts(child_dirs@);
        let ghost cfs = texts(child_files@);
        let mut children: Vec<TreeNode> = Vec::new();
        let mut i: usize = 0;
        while i < child_dirs.len()
            invariant
                i <= child_dirs@.len(),
                cds == texts(child_dirs@),
                fs == texts(md_files@),
                ds == texts(dirs@),
                tree_models(children@) == subdirs(cds, fs, ds, depth as int, i as int),
            decreases child_dirs@.len() - i,
        {
            let limit: usize = if dirs.len() < usize::MAX - 3 { dirs.len() } else { usize::MAX - 3 };
            if depth < limit {
                let node = Self::build_node(&child_dirs[i], md_files, dirs, depth + 1);
                assert(cds[i as int] == child_dirs@[i as int]@);
                if node.children.len() > 0 {
                    children.push(node);
                    assert(tree_models(children@) =~= subdirs(cds, fs, ds, depth as int, (i + 1) as int));
                }
            }
            i += 1;
        }
        let ghost sd = tree_models(children@);
        let mut j: usize = 0;
        while j < child_files.len()
            invariant
                j <= child_files@.len(),
                cfs == texts(child_files@),
                tree_models(children@) == sd + cfs.take(j as int).map_values(|f: Seq<char>| file_model(f)),
            decreases child_files@.len() - j,
        {
            let f = &child_files[j];
            let node = TreeNode {
                name: path_file_name(f),
                path: f.clone(),
                kind: NodeKind::File,
                children: Vec::new(),
                expanded: false,
            };
            assert(node.model().children =~= Seq::<TreeModel>::empty());
            assert(node.model() == file_model(f@));
            let ghost old_children = children@;
            children.push(node);
            proof {
                assert(tree_models(children@) =~= tree_models(old_children).push(file_model(f@)));
                assert(cfs.take(j + 1) =~= cfs.take(j as int).push(f@));
                assert(tree_models(children@) =~= sd + cfs.take(j + 1).map_values(|f: Seq<char>| file_model(f)));
            }
            j += 1;
        }
        assert(cfs.take(cfs.len() as int) =~= cfs);
        let n = TreeNode {
            name: path_file_name(dir),
            path: dir.clone(),
            kind: NodeKind::Directory,
            children,
            expanded: depth == 0,
        };
        assert(n.model().children =~= tree_models(n.children@));
        n
    }

    /// The sidebar's tree for the markdown files `md_files` found under
    /// `root`: the root directory's tree (see `tree_of`), listed from the
    /// top with the first entry selected.
    pub fn scan(root: &String, md_files: Vec<String>) -> (t: FileTree)
        ensures
            t.root.model() == tree_of(root@, texts(md_files@), dirs_holding(texts(md_files@), root@), 0),
            flat_models(t.flat_view@) == flatten(t.root.model(), 0, true),
            t.selected_index == 0,
    {
        let dirs = collect_dirs(root, &md_files);
        let root_node = Self::build_node(root, &md_files, &dirs, 0);
        proof { lemma_tree_height(root@, texts(md_files@), texts(dirs@), 0); }
        assert(root_node.model() == tree_of(root@, texts(md_files@), texts(dirs@), 0));
        let mut tree = FileTree { root: root_node, flat_view: Vec::new(), selected_index: 0 };
        tree.rebuild_flat_view();
        tree
    }
}

} // verus!
