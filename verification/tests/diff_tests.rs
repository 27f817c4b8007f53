use flook::diff::{hunk_start, parse_diff, DiffLineType};

fn cs(s: &str) -> Vec<char> {
    s.chars().collect()
}

const SAMPLE: &str = "diff --git a/f.rs b/f.rs\nindex 1..2 100644\n--- a/f.rs\n+++ b/f.rs\n@@ -1,3 +10,4 @@ fn main\n ctx\n-old\n+new\n+\n\\ No newline at end of file\n";

#[test]
fn diff_rows_carry_types_and_numbers() {
    let rows = parse_diff(&cs(SAMPLE)).unwrap();
    let got: Vec<(DiffLineType, String, Option<usize>)> =
        rows.into_iter().map(|r| (r.line_type, r.content, r.line_number)).collect();
    assert_eq!(
        got,
        vec![
            (DiffLineType::Context, "ctx".to_string(), Some(10)),
            (DiffLineType::Removed, "old".to_string(), None),
            (DiffLineType::Added, "new".to_string(), Some(11)),
            (DiffLineType::Added, "".to_string(), Some(12)),
        ]
    );
}

#[test]
fn lines_before_any_hunk_count_from_one() {
    let rows = parse_diff(&cs("+a\n b\n")).unwrap();
    assert_eq!(rows[0].line_number, Some(1));
    assert_eq!(rows[1].line_number, Some(2));
}

#[test]
fn hunk_header_numbers() {
    assert_eq!(hunk_start(&cs("@@ -1,3 +10,4 @@")), Some(10));
    assert_eq!(hunk_start(&cs("@@ -1 +7 @@ x")), Some(7));
    assert_eq!(hunk_start(&cs("@@ -1 +abc @@")), Some(0));
    assert_eq!(hunk_start(&cs("@@ -1 @@")), None);
    assert_eq!(hunk_start(&cs("@@ -1 5 @@")), None);
    assert_eq!(hunk_start(&cs("@@ -1 ++5,2 @@")), Some(5));
    assert_eq!(hunk_start(&cs("@@@ -1 +3 @@")), None);
    assert_eq!(hunk_start(&cs("@@ -1 +4 @@@@ +9")), Some(4));
}

#[test]
fn hunk_header_resets_running_number() {
    let rows = parse_diff(&cs("@@ -1 +5 @@\n+a\n@@ -9 nothing @@\n+b\n@@ -1 +x @@\n c\n")).unwrap();
    let nums: Vec<Option<usize>> = rows.iter().map(|r| r.line_number).collect();
    assert_eq!(nums, vec![Some(5), Some(6), Some(0)]);
}

#[test]
fn overflowing_line_number_is_refused() {
    assert!(parse_diff(&cs("@@ -1 +18446744073709551615 @@\n+x\n+y\n")).is_none());
    assert!(parse_diff(&cs("@@ -1 +18446744073709551615 @@\n+x\n-y\n")).is_some());
}

#[test]
fn header_like_lines_inside_a_hunk_are_body_lines() {
    let rows = parse_diff(&cs("--- a/q.sql\n+++ b/q.sql\n@@ -1,2 +1,2 @@\n--- old comment\n+++ new comment\n x\n")).unwrap();
    let got: Vec<(DiffLineType, String, Option<usize>)> =
        rows.into_iter().map(|r| (r.line_type, r.content, r.line_number)).collect();
    assert_eq!(
        got,
        vec![
            (DiffLineType::Removed, "-- old comment".to_string(), None),
            (DiffLineType::Added, "++ new comment".to_string(), Some(1)),
            (DiffLineType::Context, "x".to_string(), Some(2)),
        ]
    );
}

#[test]
fn a_file_section_ends_the_hunk() {
    let text = "@@ -1 +1 @@\n+a\ndiff --git a/x b/x\nindex 1..2\n--- a/x\n+++ b/x\n@@ -1 +3 @@\n+b\n";
    let rows = parse_diff(&cs(text)).unwrap();
    let got: Vec<(String, Option<usize>)> = rows.into_iter().map(|r| (r.content, r.line_number)).collect();
    assert_eq!(got, vec![("a".to_string(), Some(1)), ("b".to_string(), Some(3))]);
}
