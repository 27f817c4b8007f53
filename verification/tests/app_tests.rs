use flook::app::{App, Effect, KeyCode, KeyPress, Panel};
use flook::layout::{
    border_style, decimal_chars, diff_decor, gutter_text, gutter_width, max_line, tree_row_style, tree_row_text,
    tree_window, view_window, viewer_title,
};
use flook::diff::DiffLineType;
use flook::style::UiColor;
use flook::tree::{DirItem, TreeEntry};
use flook::viewer::{DiffLine, ViewMode};

fn key(code: KeyCode) -> KeyPress {
    KeyPress { code, ctrl: false }
}

fn app() -> App {
    let items = vec![
        DirItem { path: "/r/lib".to_string(), name: "lib".to_string(), is_dir: true },
        DirItem { path: "/r/a.rs".to_string(), name: "a.rs".to_string(), is_dir: false },
    ];
    App::new(&"/r".to_string(), &items)
}

#[test]
fn quit_keys_quit_from_either_panel() {
    let mut a = app();
    assert!(matches!(a.handle_key(key(KeyCode::Char('q'))), Effect::Nothing));
    assert!(a.quit);
    let mut b = app();
    b.focus = Panel::Viewer;
    b.handle_key(KeyPress { code: KeyCode::Char('c'), ctrl: true });
    assert!(b.quit);
    let mut c = app();
    c.handle_key(key(KeyCode::Char('c')));
    assert!(!c.quit);
}

#[test]
fn tab_switches_focus_and_back() {
    let mut a = app();
    a.handle_key(key(KeyCode::Tab));
    assert_eq!(a.focus, Panel::Viewer);
    a.handle_key(key(KeyCode::Tab));
    assert_eq!(a.focus, Panel::Tree);
}

#[test]
fn tree_keys_move_and_open() {
    let mut a = app();
    a.handle_key(key(KeyCode::Char('j')));
    a.handle_key(key(KeyCode::Down));
    assert_eq!(a.tree.selected, 2);
    match a.handle_key(key(KeyCode::Enter)) {
        Effect::OpenFile(p) => assert_eq!(p, "/r/a.rs"),
        _ => panic!("expected a file to open"),
    }
    a.handle_key(key(KeyCode::Up));
    match a.handle_key(key(KeyCode::Enter)) {
        Effect::ExpandDir { index, path } => {
            assert_eq!(index, 1);
            assert_eq!(path, "/r/lib");
        }
        _ => panic!("expected a directory to expand"),
    }
}

#[test]
fn viewer_keys_scroll_and_ask_for_diff() {
    let mut a = app();
    a.load_file(&"/r/a.rs".to_string(), Ok(b"1\n2\n3\n4\n".to_vec()));
    a.focus = Panel::Viewer;
    a.handle_key(key(KeyCode::PageDown));
    assert_eq!(a.viewer.scroll, 3);
    a.handle_key(key(KeyCode::Char('k')));
    assert_eq!(a.viewer.scroll, 2);
    a.handle_key(key(KeyCode::Home));
    assert_eq!(a.viewer.scroll, 0);
    a.handle_key(key(KeyCode::Char('G')));
    assert_eq!(a.viewer.scroll, 3);
    match a.handle_key(key(KeyCode::Char('d'))) {
        Effect::LoadDiff(p) => assert_eq!(p, "/r/a.rs"),
        _ => panic!("expected a diff request"),
    }
    assert_eq!(a.viewer.view_mode, ViewMode::GitDiff);
    assert!(matches!(a.handle_key(key(KeyCode::Other)), Effect::Nothing));
}

#[test]
fn tree_window_keeps_selection_visible() {
    assert_eq!(tree_window(0, 5, 0), None);
    assert_eq!(tree_window(0, 0, 10), None);
    assert_eq!(tree_window(3, 100, 10), Some((0, 10)));
    assert_eq!(tree_window(50, 100, 10), Some((45, 55)));
    assert_eq!(tree_window(97, 100, 10), Some((90, 100)));
    assert_eq!(tree_window(2, 3, 10), Some((0, 3)));
    for sel in 0..40 {
        let (s, e) = tree_window(sel, 40, 7).unwrap();
        assert!(s <= sel && sel < e && e - s <= 7);
    }
}

#[test]
fn tree_rows_show_indent_icon_and_name() {
    let mut e = TreeEntry { path: "/r/lib".to_string(), name: "lib".to_string(), depth: 2, is_dir: true, is_expanded: false };
    assert_eq!(tree_row_text(&e), "    \u{25b6} lib");
    e.is_expanded = true;
    assert_eq!(tree_row_text(&e), "    \u{25bc} lib");
    e.is_dir = false;
    e.depth = 0;
    assert_eq!(tree_row_text(&e), "  lib");
    let sel = tree_row_style(true, true);
    assert_eq!((sel.fg, sel.bg, sel.bold), (Some(UiColor::Black), Some(UiColor::Cyan), true));
    let dir = tree_row_style(false, true);
    assert_eq!((dir.fg, dir.bold), (Some(UiColor::Blue), true));
    assert_eq!(tree_row_style(false, false).fg, Some(UiColor::White));
}

#[test]
fn borders_follow_focus() {
    assert_eq!(border_style(Panel::Tree, Panel::Tree).fg, Some(UiColor::Cyan));
    assert_eq!(border_style(Panel::Tree, Panel::Viewer).fg, Some(UiColor::DarkGray));
}

#[test]
fn gutters_right_align_numbers() {
    assert_eq!(decimal_chars(0), vec!['0']);
    assert_eq!(decimal_chars(1205), vec!['1', '2', '0', '5']);
    assert_eq!(gutter_width(99), 3);
    assert_eq!(gutter_width(100), 4);
    assert_eq!(gutter_text(Some(7), 4), "  7 ");
    assert_eq!(gutter_text(Some(1234), 3), "1234 ");
    assert_eq!(gutter_text(None, 4), "    ");
    assert_eq!(gutter_text(Some(usize::MAX), 1), format!("{} ", usize::MAX));
}

#[test]
fn titles_and_windows() {
    assert_eq!(viewer_title(&None, ViewMode::Normal), " Viewer ");
    assert_eq!(viewer_title(&Some("/a/b.rs".to_string()), ViewMode::Normal), " /a/b.rs ");
    assert_eq!(viewer_title(&Some("/a/b.rs".to_string()), ViewMode::GitDiff), " /a/b.rs [DIFF]  ");
    assert_eq!(view_window(3, 10, 8), (3, 8));
    assert_eq!(view_window(0, 4, 8), (0, 4));
}

#[test]
fn diff_decor_and_max_line() {
    assert_eq!(diff_decor(DiffLineType::Added), (UiColor::Rgb(0, 64, 0), "+ ".to_string(), UiColor::Green));
    assert_eq!(diff_decor(DiffLineType::Removed), (UiColor::Rgb(64, 0, 0), "- ".to_string(), UiColor::Red));
    assert_eq!(diff_decor(DiffLineType::Context), (UiColor::Reset, "  ".to_string(), UiColor::Reset));
    let mk = |n: Option<usize>| DiffLine { line_type: DiffLineType::Context, segments: vec![], line_number: n };
    assert_eq!(max_line(&vec![mk(Some(3)), mk(None), mk(Some(12)), mk(Some(5))]), 12);
    assert_eq!(max_line(&vec![mk(None)]), 0);
}
