use flook::diff::DiffLineType;
use flook::highlight::{convert_style, Highlighter};
use flook::style::{SegmentStyle, StyledSegment, UiColor};
use flook::viewer::{CodeViewer, DiffError, DiffLine, GitOutput, ViewMode};

fn line(t: DiffLineType) -> DiffLine {
    DiffLine { line_type: t, segments: vec![], line_number: None }
}

fn diff_viewer(types: &[DiffLineType], scroll: usize) -> CodeViewer {
    let mut v = CodeViewer::new();
    v.view_mode = ViewMode::GitDiff;
    v.diff_lines = types.iter().map(|t| line(*t)).collect();
    v.scroll = scroll;
    v
}

fn text_of(row: &[StyledSegment]) -> String {
    row.iter().map(|s| s.text.as_str()).collect()
}

use DiffLineType::{Added as A, Context as C, Removed as R};

#[test]
fn new_viewer_asks_for_a_file() {
    let v = CodeViewer::new();
    assert_eq!(v.message.as_deref(), Some("Select a file to view"));
    assert_eq!(v.view_mode, ViewMode::Normal);
    assert_eq!(v.scroll, 0);
}

#[test]
fn scrolling_is_clamped() {
    let mut v = CodeViewer::new();
    v.lines = vec![vec![]; 5];
    v.scroll_down(3);
    assert_eq!(v.scroll, 3);
    v.scroll_down(20);
    assert_eq!(v.scroll, 4);
    v.scroll_up(1);
    assert_eq!(v.scroll, 3);
    v.scroll_up(20);
    assert_eq!(v.scroll, 0);
    v.scroll_to_bottom();
    assert_eq!(v.scroll, 4);
    v.scroll_to_top();
    assert_eq!(v.scroll, 0);
    assert_eq!(v.max_scroll(), 4);
}

#[test]
fn scroll_down_twice_adds_up() {
    let mut a = CodeViewer::new();
    a.lines = vec![vec![]; 30];
    let mut b = CodeViewer::new();
    b.lines = vec![vec![]; 30];
    a.scroll_down(3);
    a.scroll_down(4);
    b.scroll_down(7);
    assert_eq!(a.scroll, b.scroll);
}

#[test]
fn empty_view_cannot_scroll() {
    let mut v = CodeViewer::new();
    v.scroll_down(1);
    assert_eq!(v.scroll, 0);
    assert_eq!(v.max_scroll(), 0);
}

#[test]
fn max_scroll_follows_the_mode() {
    let mut v = diff_viewer(&[C, C], 0);
    v.lines = vec![vec![]; 9];
    assert_eq!(v.max_scroll(), 1);
    v.view_mode = ViewMode::Normal;
    assert_eq!(v.max_scroll(), 8);
}

#[test]
fn next_change_searches_forward_then_wraps() {
    let mut v = diff_viewer(&[C, A, C, R, C], 1);
    v.jump_to_next_change();
    assert_eq!(v.scroll, 3);
    v.jump_to_next_change();
    assert_eq!(v.scroll, 1);
    let mut w = diff_viewer(&[C, C, A], 2);
    w.jump_to_next_change();
    assert_eq!(w.scroll, 2);
}

#[test]
fn prev_change_searches_backward_then_wraps() {
    let mut v = diff_viewer(&[C, A, C, R, C], 3);
    v.jump_to_prev_change();
    assert_eq!(v.scroll, 1);
    v.jump_to_prev_change();
    assert_eq!(v.scroll, 3);
    let mut w = diff_viewer(&[C, R, C], 1);
    w.jump_to_prev_change();
    assert_eq!(w.scroll, 1);
}

#[test]
fn jumps_stay_without_changes_or_outside_diff_mode() {
    let mut v = diff_viewer(&[C, C, C], 1);
    v.jump_to_next_change();
    v.jump_to_prev_change();
    assert_eq!(v.scroll, 1);
    let mut n = diff_viewer(&[A, R], 0);
    n.view_mode = ViewMode::Normal;
    n.jump_to_next_change();
    assert_eq!(n.scroll, 0);
}

#[test]
fn load_highlights_each_line() {
    let h = Highlighter::new();
    let mut v = CodeViewer::new();
    v.load(&"/x/main.rs".to_string(), Ok(b"fn main() {\n    let x = 1;\n}\n".to_vec()), &h);
    assert_eq!(v.message, None);
    assert_eq!(v.file_path.as_deref(), Some("/x/main.rs"));
    assert_eq!(v.lines.len(), 3);
    assert_eq!(text_of(&v.lines[1]), "    let x = 1;");
    assert!(v.lines[0].len() > 1);
}

#[test]
fn load_reports_read_errors_binary_and_bad_utf8() {
    let h = Highlighter::new();
    let mut v = CodeViewer::new();
    v.load(&"a".to_string(), Err("No such file".to_string()), &h);
    assert_eq!(v.message.as_deref(), Some("Error: No such file"));
    v.load(&"a".to_string(), Ok(vec![b'a', 0, b'b']), &h);
    assert_eq!(v.message.as_deref(), Some("Binary file"));
    v.load(&"a".to_string(), Ok(vec![0xff, 0xfe]), &h);
    assert_eq!(v.message.as_deref(), Some("Cannot display: file is not valid UTF-8"));
    assert!(v.lines.is_empty());
    let mut late_nul = vec![b'a'; 9000];
    late_nul[8500] = 0;
    v.load(&"a".to_string(), Ok(late_nul), &h);
    assert_eq!(v.message, None);
    assert_eq!(v.lines.len(), 1);
}

#[test]
fn toggle_view_mode_asks_for_the_diff_of_a_loaded_file() {
    let mut v = CodeViewer::new();
    v.scroll = 3;
    assert_eq!(v.toggle_view_mode(), None);
    assert_eq!(v.view_mode, ViewMode::GitDiff);
    assert_eq!(v.scroll, 0);
    assert_eq!(v.toggle_view_mode(), None);
    assert_eq!(v.view_mode, ViewMode::Normal);
    v.file_path = Some("/f.rs".to_string());
    assert_eq!(v.toggle_view_mode(), Some("/f.rs".to_string()));
    assert_eq!(v.toggle_view_mode(), None);
}

#[test]
fn git_failures_become_messages() {
    let h = Highlighter::new();
    let mut v = CodeViewer::new();
    let p = "/f.rs".to_string();
    assert_eq!(v.load_git_diff(&p, GitOutput::SpawnFailed("not found".to_string()), &h), Ok(()));
    assert_eq!(v.diff_message.as_deref(), Some("Error running git: not found"));
    v.load_git_diff(&p, GitOutput::Finished { success: false, stdout: vec![] }, &h).unwrap();
    assert_eq!(v.diff_message.as_deref(), Some("Not a git repository or file not tracked"));
    v.load_git_diff(&p, GitOutput::Finished { success: true, stdout: b" \n\t\n".to_vec() }, &h).unwrap();
    assert_eq!(v.diff_message.as_deref(), Some("No changes in working directory"));
    v.load_git_diff(&p, GitOutput::Finished { success: true, stdout: b"diff --git a b\nindex 1\n".to_vec() }, &h)
        .unwrap();
    assert_eq!(v.diff_message.as_deref(), Some("No diff output"));
    assert!(v.diff_lines.is_empty());
    assert_eq!(v.message.as_deref(), Some("Select a file to view"));
}

#[test]
fn git_diff_is_read_into_lines() {
    let h = Highlighter::new();
    let mut v = CodeViewer::new();
    let out = b"--- a/f.rs\n+++ b/f.rs\n@@ -1,2 +1,2 @@\n-let a = 1;\n+let a = 2;\n \n".to_vec();
    v.load_git_diff(&"/f.rs".to_string(), GitOutput::Finished { success: true, stdout: out }, &h).unwrap();
    assert_eq!(v.diff_message, None);
    assert_eq!(v.diff_lines.len(), 3);
    assert_eq!(v.diff_lines[0].line_type, DiffLineType::Removed);
    assert_eq!(v.diff_lines[0].line_number, None);
    assert_eq!(text_of(&v.diff_lines[0].segments), "let a = 1;");
    assert_eq!(v.diff_lines[1].line_number, Some(1));
    assert_eq!(v.diff_lines[2].line_type, DiffLineType::Context);
    assert_eq!(v.diff_lines[2].line_number, Some(2));
    assert_eq!(v.diff_lines[2].segments.len(), 1);
    assert_eq!(v.diff_lines[2].segments[0].text, "");
    assert_eq!(v.diff_lines[2].segments[0].style, SegmentStyle::plain());
}

#[test]
fn git_diff_with_invalid_utf8_is_decoded_lossily() {
    let h = Highlighter::new();
    let mut v = CodeViewer::new();
    let out = vec![b'+', b'a', 0xff, b'\n'];
    v.load_git_diff(&"/f.txt".to_string(), GitOutput::Finished { success: true, stdout: out }, &h).unwrap();
    assert_eq!(text_of(&v.diff_lines[0].segments), "a\u{fffd}");
}

#[test]
fn git_diff_line_number_overflow_is_an_error() {
    let h = Highlighter::new();
    let mut v = CodeViewer::new();
    let out = b"@@ -1 +18446744073709551615 @@\n+x\n+y\n".to_vec();
    let r = v.load_git_diff(&"/f".to_string(), GitOutput::Finished { success: true, stdout: out }, &h);
    assert_eq!(r, Err(DiffError::LineNumberOverflow));
}

#[test]
fn highlight_gives_one_row_per_line() {
    let h = Highlighter::new();
    let rows = h.highlight("a = 1\r\n\nb = [2]\n", "py");
    assert_eq!(rows.len(), 3);
    assert_eq!(text_of(&rows[0]), "a = 1");
    assert!(rows[1].is_empty());
    assert_eq!(text_of(&rows[2]), "b = [2]");
    let unknown = h.highlight("plain text", "no-such-extension");
    assert_eq!(text_of(&unknown[0]), "plain text");
}

#[test]
fn style_bits_map_to_modifiers() {
    let s = convert_style(1, 2, 3, 5);
    assert_eq!(s.fg, Some(UiColor::Rgb(1, 2, 3)));
    assert_eq!(s.bg, None);
    assert!(s.bold && s.italic && !s.underlined);
    let u = convert_style(0, 0, 0, 2);
    assert!(!u.bold && !u.italic && u.underlined);
}

#[test]
fn toggling_back_after_a_failed_diff_shows_the_file() {
    let h = Highlighter::new();
    let mut v = CodeViewer::new();
    let p = "/f.py".to_string();
    v.load(&p, Ok(b"x = 1\n".to_vec()), &h);
    let lines: Vec<String> = v.lines.iter().map(|r| text_of(r)).collect();
    assert_eq!(lines, vec!["x = 1".to_string()]);
    assert_eq!(v.toggle_view_mode(), Some(p.clone()));
    v.load_git_diff(&p, GitOutput::Finished { success: false, stdout: vec![] }, &h).unwrap();
    assert_eq!(v.shown_message().as_deref(), Some("Not a git repository or file not tracked"));
    assert_eq!(v.toggle_view_mode(), None);
    assert_eq!(v.view_mode, ViewMode::Normal);
    assert_eq!(v.scroll, 0);
    assert_eq!(v.shown_message(), &None);
    assert_eq!(v.lines.iter().map(|r| text_of(r)).collect::<Vec<String>>(), lines);
}

#[test]
fn change_before_scroll_looks_only_above() {
    assert!(!diff_viewer(&[C, A, C], 1).change_before_scroll());
    assert!(diff_viewer(&[C, A, C], 2).change_before_scroll());
    assert!(diff_viewer(&[R, C], 9).change_before_scroll());
    assert!(!diff_viewer(&[C, C], 9).change_before_scroll());
}

#[test]
fn removed_comment_lines_stay_in_the_diff() {
    let h = Highlighter::new();
    let mut v = CodeViewer::new();
    let out = b"@@ -1,2 +1,1 @@\n--- old comment\n x\n".to_vec();
    v.load_git_diff(&"q.sql".to_string(), GitOutput::Finished { success: true, stdout: out }, &h).unwrap();
    let types: Vec<DiffLineType> = v.diff_lines.iter().map(|d| d.line_type).collect();
    assert_eq!(types, vec![R, C]);
    assert_eq!(v.diff_lines[0].line_number, None);
    assert_eq!(v.diff_lines[1].line_number, Some(1));
    assert_eq!(v.diff_message, None);
}
