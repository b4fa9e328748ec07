use mdedit::filetree::{FileTree, FlatEntry, NodeKind, TreeNode};

fn file(name: &str, path: &str) -> TreeNode {
    TreeNode { name: name.to_string(), path: path.to_string(), kind: NodeKind::File, children: vec![], expanded: false }
}

fn dir(name: &str, path: &str, children: Vec<TreeNode>, expanded: bool) -> TreeNode {
    TreeNode { name: name.to_string(), path: path.to_string(), kind: NodeKind::Directory, children, expanded }
}

fn sample() -> FileTree {
    let root = dir(
        "root",
        "/r",
        vec![
            dir("docs", "/r/docs", vec![file("a.md", "/r/docs/a.md"), file("b.md", "/r/docs/b.md")], false),
            file("readme.md", "/r/readme.md"),
        ],
        true,
    );
    let mut tree = FileTree { root, flat_view: Vec::new(), selected_index: 0 };
    tree.rebuild_flat_view();
    tree
}

fn names(v: &[FlatEntry]) -> Vec<(usize, String)> {
    v.iter().map(|e| (e.depth, e.name.clone())).collect()
}

#[test]
fn flat_view_skips_root_and_collapsed_children() {
    let tree = sample();
    assert_eq!(names(&tree.flat_view), vec![(0, "docs".to_string()), (0, "readme.md".to_string())]);
}

#[test]
fn toggling_a_directory_shows_its_children() {
    let mut tree = sample();
    tree.toggle_expand();
    assert_eq!(
        names(&tree.flat_view),
        vec![
            (0, "docs".to_string()),
            (1, "a.md".to_string()),
            (1, "b.md".to_string()),
            (0, "readme.md".to_string()),
        ]
    );
    assert!(tree.flat_view[0].expanded);
    tree.toggle_expand();
    assert_eq!(tree.flat_view.len(), 2);
}

#[test]
fn toggling_a_file_changes_nothing() {
    let mut tree = sample();
    tree.move_down();
    tree.toggle_expand();
    assert_eq!(tree.flat_view.len(), 2);
    assert_eq!(tree.selected_kind(), Some(NodeKind::File));
    assert_eq!(tree.selected_path().map(|p| p.as_str()), Some("/r/readme.md"));
}

#[test]
fn selection_stays_within_view() {
    let mut tree = sample();
    tree.move_up();
    assert_eq!(tree.selected_index, 0);
    tree.move_down();
    tree.move_down();
    assert_eq!(tree.selected_index, 1);
}

#[test]
fn collapsing_clamps_selection() {
    let mut tree = sample();
    tree.toggle_expand();
    tree.move_down();
    tree.move_down();
    tree.move_down();
    assert_eq!(tree.selected_index, 3);
    tree.selected_index = 0;
    tree.toggle_expand();
    tree.selected_index = 3;
    tree.rebuild_flat_view();
    assert_eq!(tree.selected_index, 1);
}

#[test]
fn toggle_node_finds_nested_path() {
    let mut tree = sample();
    assert!(FileTree::toggle_node(&mut tree.root, &"/r/docs".to_string()));
    assert!(tree.root.children[0].expanded);
    assert!(!FileTree::toggle_node(&mut tree.root, &"/r/missing".to_string()));
}

#[test]
fn flatten_node_lists_expanded_subtree() {
    let tree = sample();
    let mut out = Vec::new();
    FileTree::flatten_node(&tree.root, 0, false, &mut out);
    assert_eq!(names(&out), vec![(0, "root".to_string()), (1, "docs".to_string()), (1, "readme.md".to_string())]);
}

fn strings(v: &[&str]) -> Vec<String> {
    v.iter().map(|s| s.to_string()).collect()
}

#[test]
fn scan_groups_files_under_their_directories() {
    let files = strings(&["/r/zeta.md", "/r/docs/b.md", "/r/docs/deep/c.md", "/r/alpha.md", "/r/docs/a.md"]);
    let tree = FileTree::scan(&"/r".to_string(), files);
    assert_eq!(tree.root.path, "/r");
    assert_eq!(tree.root.name, "r");
    assert!(tree.root.expanded);
    let top: Vec<&str> = tree.root.children.iter().map(|c| c.name.as_str()).collect();
    assert_eq!(top, vec!["docs", "alpha.md", "zeta.md"]);
    let docs = &tree.root.children[0];
    assert_eq!(docs.kind, NodeKind::Directory);
    assert!(!docs.expanded);
    let inner: Vec<&str> = docs.children.iter().map(|c| c.path.as_str()).collect();
    assert_eq!(inner, vec!["/r/docs/deep", "/r/docs/a.md", "/r/docs/b.md"]);
    assert_eq!(docs.children[0].children.len(), 1);
    assert_eq!(docs.children[0].children[0].name, "c.md");
    assert_eq!(
        names(&tree.flat_view),
        vec![(0, "docs".to_string()), (0, "alpha.md".to_string()), (0, "zeta.md".to_string())]
    );
    assert_eq!(tree.selected_index, 0);
}

#[test]
fn scan_of_no_files_is_an_empty_root() {
    let tree = FileTree::scan(&"/r".to_string(), Vec::new());
    assert!(tree.root.children.is_empty());
    assert!(tree.flat_view.is_empty());
    assert_eq!(tree.selected_path(), None);
}

#[test]
fn directories_sort_before_files_and_by_path() {
    let files = strings(&["/r/b/x.md", "/r/a/y.md", "/r/c.md"]);
    let tree = FileTree::scan(&"/r".to_string(), files);
    let top: Vec<&str> = tree.root.children.iter().map(|c| c.path.as_str()).collect();
    assert_eq!(top, vec!["/r/a", "/r/b", "/r/c.md"]);
}

#[test]
fn collect_dirs_lists_each_ancestor_once() {
    let files = strings(&["/r/a/b/x.md", "/r/a/y.md", "/r/a/b/z.md", "/r/top.md"]);
    let dirs = mdedit::filetree::collect_dirs(&"/r".to_string(), &files);
    assert_eq!(dirs, strings(&["/r/a/b", "/r/a"]));
}

#[test]
fn sort_paths_orders_by_components() {
    let v = strings(&["/r/b.md", "/r/a/z.md", "/r/a.md", "/r/a-b.md"]);
    let sorted = mdedit::paths::sort_paths(&v);
    assert_eq!(sorted, strings(&["/r/a/z.md", "/r/a-b.md", "/r/a.md", "/r/b.md"]));
}

#[test]
fn toggling_twice_gives_the_tree_back() {
    let mut tree = sample();
    let before = names(&tree.flat_view);
    tree.toggle_expand();
    tree.toggle_expand();
    assert_eq!(names(&tree.flat_view), before);
    assert!(!tree.root.children[0].expanded);
    assert!(!tree.flat_view[0].expanded);
}
