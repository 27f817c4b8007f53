use flook::tree::{is_hidden_name, list_children, sort_by_name, DirItem, FileTree, TreeAction, TreeEntry};

fn item(path: &str, name: &str, is_dir: bool) -> DirItem {
    DirItem { path: path.to_string(), name: name.to_string(), is_dir }
}

fn names(t: &FileTree) -> Vec<String> {
    t.entries.iter().map(|e| e.name.clone()).collect()
}

fn sample_tree() -> FileTree {
    let items = vec![
        item("/p/zeta.rs", "zeta.rs", false),
        item("/p/src", "src", true),
        item("/p/.git", ".git", true),
        item("/p/Alpha.md", "Alpha.md", false),
        item("/p/docs", "docs", true),
        item("/p/.hidden", ".hidden", false),
    ];
    FileTree::new(&"/p".to_string(), &items)
}

#[test]
fn new_tree_lists_dirs_first_sorted_without_hidden() {
    let t = sample_tree();
    assert_eq!(names(&t), vec!["p", "docs", "src", "Alpha.md", "zeta.rs"]);
    assert_eq!(t.selected, 0);
    assert!(t.entries[0].is_dir && t.entries[0].is_expanded);
    assert_eq!(t.entries[0].depth, 0);
    for e in &t.entries[1..] {
        assert_eq!(e.depth, 1);
        assert!(!e.is_expanded);
    }
}

#[test]
fn root_name_is_last_component_or_whole_path() {
    let t = FileTree::new(&"/home/user/project".to_string(), &vec![]);
    assert_eq!(t.entries[0].name, "project");
    assert_eq!(t.entries.len(), 1);
    let r = FileTree::new(&"/".to_string(), &vec![]);
    assert_eq!(r.entries[0].name, "/");
}

#[test]
fn sort_is_case_insensitive_and_stable() {
    let items = vec![
        item("/d/b2", "B", false),
        item("/d/a", "a", false),
        item("/d/b1", "b", false),
        item("/d/C", "C", false),
    ];
    let c = list_children(&items, 3);
    let got: Vec<&str> = c.iter().map(|e| e.path.as_str()).collect();
    assert_eq!(got, vec!["/d/a", "/d/b2", "/d/b1", "/d/C"]);
    assert!(c.iter().all(|e| e.depth == 3));
}

#[test]
fn sort_by_name_orders_by_lowercase() {
    let mk = |n: &str| TreeEntry { path: n.to_string(), name: n.to_string(), depth: 1, is_dir: false, is_expanded: false };
    let v = vec![mk("Zed"), mk("apple"), mk("Mango"), mk("banana")];
    let r = sort_by_name(v);
    let got: Vec<&str> = r.iter().map(|e| e.name.as_str()).collect();
    assert_eq!(got, vec!["apple", "banana", "Mango", "Zed"]);
}

#[test]
fn hidden_names_start_with_a_dot() {
    assert!(is_hidden_name(&".git".to_string()));
    assert!(!is_hidden_name(&"git".to_string()));
    assert!(!is_hidden_name(&"".to_string()));
}

#[test]
fn move_down_and_up_stop_at_the_ends() {
    let mut t = sample_tree();
    t.move_up();
    assert_eq!(t.selected, 0);
    for _ in 0..10 {
        t.move_down();
    }
    assert_eq!(t.selected, 4);
    t.move_up();
    assert_eq!(t.selected, 3);
}

#[test]
fn down_then_up_returns_to_same_selection() {
    let mut t = sample_tree();
    t.selected = 2;
    t.move_down();
    t.move_up();
    assert_eq!(t.selected, 2);
}

#[test]
fn toggle_on_file_asks_to_open_it() {
    let mut t = sample_tree();
    t.selected = 3;
    match t.toggle_selected() {
        TreeAction::OpenFile(p) => assert_eq!(p, "/p/Alpha.md"),
        _ => panic!("expected a file to open"),
    }
    assert_eq!(t.entries.len(), 5);
}

#[test]
fn toggle_expand_then_collapse_restores_entries() {
    let mut t = sample_tree();
    t.selected = 2;
    let before = names(&t);
    let (index, path) = match t.toggle_selected() {
        TreeAction::Expand { index, path } => (index, path),
        _ => panic!("expected a directory to expand"),
    };
    assert_eq!(index, 2);
    assert_eq!(path, "/p/src");
    let items = vec![item("/p/src/main.rs", "main.rs", false), item("/p/src/bin", "bin", true)];
    t.expand(index, &items);
    assert_eq!(names(&t), vec!["p", "docs", "src", "bin", "main.rs", "Alpha.md", "zeta.rs"]);
    assert!(t.entries[2].is_expanded);
    assert_eq!(t.entries[3].depth, 2);
    match t.toggle_selected() {
        TreeAction::Collapsed => {}
        _ => panic!("expected a collapse"),
    }
    assert_eq!(names(&t), before);
    assert!(!t.entries[2].is_expanded);
    assert_eq!(t.selected, 2);
}

#[test]
fn collapsing_root_removes_everything_below() {
    let mut t = sample_tree();
    match t.toggle_selected() {
        TreeAction::Collapsed => {}
        _ => panic!("expected a collapse"),
    }
    assert_eq!(names(&t), vec!["p"]);
    assert!(!t.entries[0].is_expanded);
}

#[test]
fn collapse_removes_nested_levels() {
    let mut t = sample_tree();
    t.expand(2, &vec![item("/p/src/bin", "bin", true)]);
    t.expand(3, &vec![item("/p/src/bin/x.rs", "x.rs", false)]);
    assert_eq!(names(&t), vec!["p", "docs", "src", "bin", "x.rs", "Alpha.md", "zeta.rs"]);
    t.selected = 2;
    t.toggle_selected();
    assert_eq!(names(&t), vec!["p", "docs", "src", "Alpha.md", "zeta.rs"]);
}

#[test]
fn select_path_picks_matching_entry_or_stays() {
    let mut t = sample_tree();
    t.select_path(&"/p/zeta.rs".to_string());
    assert_eq!(t.selected, 4);
    t.select_path(&"/nowhere".to_string());
    assert_eq!(t.selected, 4);
    t.select_path(&"/p".to_string());
    assert_eq!(t.selected, 0);
    t.select_path("/p//src/");
    assert_eq!(t.selected, 2);
}

#[test]
fn expanding_an_expanded_directory_lists_its_children_again() {
    let mut t = sample_tree();
    t.expand(2, &vec![item("/p/src/a.rs", "a.rs", false)]);
    t.expand(2, &vec![item("/p/src/a.rs", "a.rs", false)]);
    assert_eq!(names(&t), vec!["p", "docs", "src", "a.rs", "a.rs", "Alpha.md", "zeta.rs"]);
    assert!(t.entries[2].is_expanded);
    assert_eq!(t.entries[3].depth, 2);
    assert_eq!(t.entries[4].depth, 2);
}
