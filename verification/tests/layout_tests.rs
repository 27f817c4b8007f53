use flook::highlight::Highlighter;
use flook::diff::DiffLineType;
use flook::layout::{diff_row_spans, normal_row_spans, panel_areas, viewer_body, ViewerBody};
use flook::path::extension_of;
use flook::style::{SegmentStyle, StyledSegment, UiColor};
use flook::viewer::{CodeViewer, DiffLine, GitOutput, ViewMode};
use std::path::Path;

fn model(row: &[StyledSegment]) -> Vec<(String, SegmentStyle)> {
    row.iter().map(|s| (s.text.clone(), s.style)).collect()
}

#[test]
fn extension_matches_std() {
    for p in ["/a/b.tar.gz", "/a/.bashrc", "/a/foo.", "/a/b", "b.rs", "/", "/a/..", "/a/x.y/", "..", ".a.b"] {
        let want = Path::new(p).extension().map(|e| e.to_string_lossy().into_owned());
        assert_eq!(extension_of(p), want, "{:?}", p);
    }
}

#[test]
fn panels_split_thirty_columns_then_the_rest() {
    assert_eq!(panel_areas((0, 0, 100, 40)), ((0, 0, 30, 40), (30, 0, 70, 40)));
    assert_eq!(panel_areas((2, 1, 50, 10)), ((2, 1, 30, 10), (32, 1, 20, 10)));
}

#[test]
fn viewer_body_prefers_the_message() {
    let m = Some("x".to_string());
    assert_eq!(viewer_body(&m, 10, ViewMode::Normal), ViewerBody::Message);
    assert_eq!(viewer_body(&None, 0, ViewMode::Normal), ViewerBody::Empty);
    assert_eq!(viewer_body(&None, 5, ViewMode::Normal), ViewerBody::Lines);
    assert_eq!(viewer_body(&None, 5, ViewMode::GitDiff), ViewerBody::Diff);
}

#[test]
fn load_highlights_with_the_path_extension() {
    let h = Highlighter::new();
    let src = "# title\n*emphasis* and `code`\n";
    let mut v = CodeViewer::new();
    v.load(&"/d/readme.md".to_string(), Ok(src.as_bytes().to_vec()), &h);
    let want = h.highlight(src, "md");
    assert_eq!(v.lines.len(), want.len());
    for (a, b) in v.lines.iter().zip(want.iter()) {
        assert_eq!(model(a), model(b));
    }
    let plain = h.highlight(src, "");
    assert_ne!(model(&v.lines[1]), model(&plain[1]));
}

#[test]
fn diff_rows_are_highlighted_with_the_path_extension() {
    let h = Highlighter::new();
    let mut v = CodeViewer::new();
    let out = b"@@ -1 +1 @@\n+fn main() { let x = 1; }\n".to_vec();
    v.load_git_diff(&"/d/m.rs".to_string(), GitOutput::Finished { success: true, stdout: out }, &h).unwrap();
    let want = h.highlight("fn main() { let x = 1; }", "rs");
    assert_eq!(model(&v.diff_lines[0].segments), model(&want[0]));
    let txt = h.highlight("fn main() { let x = 1; }", "txt");
    assert_ne!(model(&v.diff_lines[0].segments), model(&txt[0]));
}

fn seg(text: &str, style: SegmentStyle) -> StyledSegment {
    StyledSegment { text: text.to_string(), style }
}

#[test]
fn normal_row_has_a_grey_gutter_then_the_segments() {
    let bold = SegmentStyle { bold: true, ..SegmentStyle::plain() };
    let row = normal_row_spans(7, &vec![seg("fn", bold), seg(" x", SegmentStyle::plain())], 4);
    assert_eq!(
        model(&row),
        vec![
            ("  7 ".to_string(), SegmentStyle::plain().with_fg(UiColor::DarkGray)),
            ("fn".to_string(), bold),
            (" x".to_string(), SegmentStyle::plain()),
        ]
    );
}

#[test]
fn diff_row_lays_its_background_over_every_segment() {
    let green = SegmentStyle::plain().with_fg(UiColor::Green);
    let line = DiffLine { line_type: DiffLineType::Added, segments: vec![seg("let", green)], line_number: Some(12) };
    let bg = UiColor::Rgb(0, 64, 0);
    let (row, style) = diff_row_spans(&line, 3);
    assert_eq!(
        model(&row),
        vec![
            ("12 ".to_string(), SegmentStyle::plain().with_fg(UiColor::DarkGray).with_bg(bg)),
            ("+ ".to_string(), SegmentStyle::plain().with_fg(UiColor::Green).with_bg(bg)),
            ("let".to_string(), green.with_bg(bg)),
        ]
    );
    assert_eq!(style, SegmentStyle::plain().with_bg(bg));
    let removed = DiffLine { line_type: DiffLineType::Removed, segments: vec![], line_number: None };
    let (row, _) = diff_row_spans(&removed, 3);
    assert_eq!(row[0].text, "   ");
    assert_eq!(row[1].text, "- ");
}
