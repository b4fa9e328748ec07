use mdedit::finder::{rank_by_score, FilteredEntry, FinderState};

fn finder() -> FinderState {
    FinderState::new(
        "/r".to_string(),
        vec!["/r/alpha.md".to_string(), "/r/beta.md".to_string(), "/r/notes/gamma.md".to_string()],
    )
}

#[test]
fn empty_query_lists_all_files_relative_to_root() {
    let f = finder();
    let shown: Vec<&str> = f.filtered.iter().map(|e| e.display.as_str()).collect();
    assert_eq!(shown, vec!["alpha.md", "beta.md", "notes/gamma.md"]);
    assert!(f.filtered.iter().all(|e| e.score == 0));
}

#[test]
fn typing_filters_to_matches() {
    let mut f = finder();
    f.insert_char('g');
    f.insert_char('a');
    f.insert_char('m');
    assert_eq!(f.query, "gam");
    assert_eq!(f.filtered.len(), 1);
    assert_eq!(f.selected_path().map(|p| p.as_str()), Some("/r/notes/gamma.md"));
}

#[test]
fn deleting_the_query_lists_everything_again() {
    let mut f = finder();
    f.insert_char('z');
    assert_eq!(f.filtered.len(), 0);
    assert_eq!(f.selected_path(), None);
    f.delete_backward();
    assert_eq!(f.query, "");
    assert_eq!(f.filtered.len(), 3);
    f.delete_backward();
    assert_eq!(f.query, "");
}

#[test]
fn selection_moves_within_matches() {
    let mut f = finder();
    f.move_down();
    f.move_down();
    f.move_down();
    assert_eq!(f.selected_index, 2);
    f.move_up();
    assert_eq!(f.selected_index, 1);
}

fn entry(path: &str, score: u32) -> FilteredEntry {
    FilteredEntry { path: path.to_string(), display: path.to_string(), score }
}

#[test]
fn ranking_is_by_score_and_stable() {
    let ranked = rank_by_score(vec![entry("a", 5), entry("b", 9), entry("c", 5), entry("d", 9), entry("e", 1)]);
    let order: Vec<&str> = ranked.iter().map(|e| e.path.as_str()).collect();
    assert_eq!(order, vec!["b", "d", "a", "c", "e"]);
}

#[test]
fn better_match_ranks_first() {
    let mut f = FinderState::new("/r".to_string(), vec!["/r/xaxbxc.md".to_string(), "/r/abc.md".to_string()]);
    f.insert_char('a');
    f.insert_char('b');
    f.insert_char('c');
    assert_eq!(f.filtered.len(), 2);
    assert_eq!(f.filtered[0].display, "abc.md");
    assert!(f.filtered[0].score >= f.filtered[1].score);
}

#[test]
fn typing_then_deleting_restores_query_and_list() {
    let mut f = finder();
    let shown: Vec<String> = f.filtered.iter().map(|e| e.display.clone()).collect();
    f.insert_char('g');
    assert_eq!(f.filtered.len(), 1);
    f.delete_backward();
    assert_eq!(f.query, "");
    let again: Vec<String> = f.filtered.iter().map(|e| e.display.clone()).collect();
    assert_eq!(again, shown);
}
