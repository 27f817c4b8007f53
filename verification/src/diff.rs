//! Reading the output of `git diff`: which lines were added, removed or kept,
//! and the number each added or kept line has in the new file.

use vstd::prelude::*;
use crate::text::{
    has_prefix, lemma_lines_have_no_newline, no_newline, parse_decimal, parse_usize, slice_chars, split_lines, split_tokens, starts_with,
    string_of, text_lines, tokens, views,
};

verus! {

/// Type of diff line.
#[derive(Clone, Copy, Debug, PartialEq, Eq, Structural)]
pub enum DiffLineType {
    Added,
    Removed,
    Context,
}

/// One row of a diff: its type, its text without the leading marker, and
/// for added and kept lines the line's number in the new file.
#[derive(Clone, Debug)]
pub struct DiffRow {
    pub line_type: DiffLineType,
    pub content: String,
    pub line_number: Option<usize>,
}

/// A diff row in the model: type, text, and number (unbounded).
pub type RowModel = (DiffLineType, Seq<char>, Option<int>);

/// The model of a row.
pub open spec fn row_model(r: DiffRow) -> RowModel {
    (
        r.line_type,
        r.content@,
        match r.line_number {
            Some(v) => Some(v as int),
            None => None,
        },
    )
}

/// Index of the first `@@` at or after `i`, or the length.
pub open spec fn marker_index(s: Seq<char>, i: int) -> int
    decreases s.len() - i,
{
    if i + 1 >= s.len() {
        s.len() as int
    } else if s[i] == '@' && s[i + 1] == '@' {
        i
    } else {
        marker_index(s, i + 1)
    }
}

/// Index of the first comma at or after `i`, or the length.
pub open spec fn comma_index(s: Seq<char>, i: int) -> int
    decreases s.len() - i,
{
    if i >= s.len() {
        s.len() as int
    } else if s[i] == ',' {
        i
    } else {
        comma_index(s, i + 1)
    }
}

/// The text of a hunk header `@@ ... @@` between its first two markers
/// (what `line.split("@@").nth(1)` gives).
pub open spec fn hunk_part(l: Seq<char>) -> Seq<char> {
    let r = l.skip(2);
    r.take(marker_index(r, 0))
}

/// Where a hunk header puts the new file's line count: from its second
/// token, when that begins with `+`, the number before any comma, or 0 when
/// that is no number. `None` when the header has no such token, and the
/// count stays.
pub open spec fn hunk_new_start(l: Seq<char>) -> Option<nat> {
    let t = tokens(hunk_part(l));
    if t.len() >= 2 && t[1].len() > 0 && t[1][0] == '+' {
        let rest = t[1].drop_first();
        let num = rest.take(comma_index(rest, 0));
        Some(
            match parse_usize(num) {
                Some(v) => v,
                None => 0,
            },
        )
    } else {
        None
    }
}

/// The line that starts a file's section of a diff; it ends any hunk.
pub open spec fn is_file_start(l: Seq<char>) -> bool {
    has_prefix(l, seq!['d', 'i', 'f', 'f', ' ', '-', '-', 'g', 'i', 't'])
}

/// The other header lines of a file's section, before its first hunk.
pub open spec fn is_file_header(l: Seq<char>) -> bool {
    ||| has_prefix(l, seq!['i', 'n', 'd', 'e', 'x', ' '])
    ||| has_prefix(l, seq!['-', '-', '-', ' '])
    ||| has_prefix(l, seq!['+', '+', '+', ' '])
}

/// A hunk header.
pub open spec fn is_hunk_header(l: Seq<char>) -> bool {
    has_prefix(l, seq!['@', '@'])
}

/// The state of reading a diff: the rows so far, the new-file number of the
/// next added or kept line, and whether a hunk is open.
pub type ScanState = (Seq<RowModel>, int, bool);

/// What one line does to the reading: a file's first line closes the hunk;
/// outside a hunk the file's header lines are skipped; a hunk header opens a
/// hunk whose first added or kept line has the number it gives (the number
/// stays where it gives none); then `+`, `-` and ` ` lines are added,
/// removed and kept lines, the added and kept ones numbered one after
/// another; other lines are skipped.
pub open spec fn diff_step(l: Seq<char>, st: ScanState) -> ScanState {
    let (rows, n, in_hunk) = st;
    if is_file_start(l) {
        (rows, n, false)
    } else if !in_hunk && is_file_header(l) {
        (rows, n, false)
    } else if is_hunk_header(l) {
        (
            rows,
            match hunk_new_start(l) {
                Some(v) => v as int,
                None => n,
            },
            true,
        )
    } else if l.len() > 0 && l[0] == '+' {
        (rows.push((DiffLineType::Added, l.drop_first(), Some(n))), n + 1, in_hunk)
    } else if l.len() > 0 && l[0] == '-' {
        (rows.push((DiffLineType::Removed, l.drop_first(), None)), n, in_hunk)
    } else if l.len() > 0 && l[0] == ' ' {
        (rows.push((DiffLineType::Context, l.drop_first(), Some(n))), n + 1, in_hunk)
    } else {
        (rows, n, in_hunk)
    }
}

/// The state after reading `lines`, from no rows, number 1 and no hunk.
pub open spec fn diff_scan(lines: Seq<Seq<char>>) -> ScanState
    decreases lines.len(),
{
    if lines.len() == 0 {
        (Seq::empty(), 1, false)
    } else {
        diff_step(lines.last(), diff_scan(lines.drop_last()))
    }
}

/// The rows that a diff text gives.
pub open spec fn diff_rows(text: Seq<char>) -> Seq<RowModel> {
    diff_scan(text_lines(text)).0
}

/// Every line number of the rows fits in a `usize`.
pub open spec fn numbers_fit(rows: Seq<RowModel>) -> bool {
    forall|i: int| 0 <= i < rows.len() ==> ((#[trigger] rows[i]).2 matches Some(v) ==> v <= usize::MAX)
}

proof fn lemma_scan_grows(lines: Seq<Seq<char>>)
    requires
        lines.len() > 0,
    ensures
        diff_scan(lines.drop_last()).0.len() <= diff_scan(lines).0.len(),
        diff_scan(lines).0.take(diff_scan(lines.drop_last()).0.len() as int) == diff_scan(
            lines.drop_last(),
        ).0,
{
    let prev = diff_scan(lines.drop_last()).0;
    assert(diff_scan(lines).0.take(prev.len() as int) =~= prev);
}

proof fn lemma_scan_prefix(lines: Seq<Seq<char>>, j: int)
    requires
        0 <= j <= lines.len(),
    ensures
        diff_scan(lines.take(j)).0.len() <= diff_scan(lines).0.len(),
        diff_scan(lines).0.take(diff_scan(lines.take(j)).0.len() as int) == diff_scan(
            lines.take(j),
        ).0,
    decreases lines.len(),
{
    if j == lines.len() {
        assert(lines.take(j) =~= lines);
        assert(diff_scan(lines).0.take(diff_scan(lines).0.len() as int) =~= diff_scan(lines).0);
    } else {
        assert(lines.drop_last().take(j) =~= lines.take(j));
        lemma_scan_prefix(lines.drop_last(), j);
        lemma_scan_grows(lines);
        let a = diff_scan(lines.take(j)).0;
        let b = diff_scan(lines.drop_last()).0;
        let c = diff_scan(lines).0;
        assert(c.take(a.len() as int) =~= b.take(a.len() as int));
    }
}

proof fn lemma_marker_index_bounds(s: Seq<char>, i: int)
    requires
        0 <= i,
    ensures
        marker_index(s, i) <= s.len(),
        i <= marker_index(s, i) || i >= s.len(),
    decreases s.len() - i,
{
    if i + 1 < s.len() && !(s[i] == '@' && s[i + 1] == '@') {
        lemma_marker_index_bounds(s, i + 1);
    }
}

fn find_marker(s: &Vec<char>) -> (r: usize)
    ensures
        r == marker_index(s@, 0),
{
    proof {
        lemma_marker_index_bounds(s@, 0);
    }
    let mut i: usize = 0;
    while s.len() > 0 && i < s.len() - 1
        invariant
            i <= s@.len(),
            marker_index(s@, i as int) == marker_index(s@, 0),
        decreases s.len() - i,
    {
        if s[i] == '@' && s[i + 1] == '@' {
            return i;
        }
        i += 1;
    }
    s.len()
}

proof fn lemma_comma_index_bounds(s: Seq<char>, i: int)
    requires
        0 <= i,
    ensures
        comma_index(s, i) <= s.len(),
        i <= comma_index(s, i) || i >= s.len(),
    decreases s.len() - i,
{
    if i < s.len() && s[i] != ',' {
        lemma_comma_index_bounds(s, i + 1);
    }
}

fn find_comma(s: &Vec<char>) -> (r: usize)
    ensures
        r == comma_index(s@, 0),
{
    proof {
        lemma_comma_index_bounds(s@, 0);
    }
    let mut i: usize = 0;
    while i < s.len()
        invariant
            i <= s@.len(),
            comma_index(s@, i as int) == comma_index(s@, 0),
        decreases s.len() - i,
    {
        if s[i] == ',' {
            return i;
        }
        i += 1;
    }
    s.len()
}

/// Reads where a hunk header puts the line count, as `hunk_new_start`
/// states.
pub fn hunk_start(l: &Vec<char>) -> (r: Option<usize>)
    requires
        is_hunk_header(l@),
    ensures
        r matches Some(v) ==> hunk_new_start(l@) == Some(v as nat),
        r is None ==> hunk_new_start(l@) is None,
{
    let rest = slice_chars(l, 2, l.len());
    proof {
        assert(rest@ =~= l@.skip(2));
    }
    let m = find_marker(&rest);
    proof {
        lemma_marker_index_bounds(rest@, 0);
    }
    let part = slice_chars(&rest, 0, m);
    proof {
        assert(part@ =~= hunk_part(l@));
    }
    let toks = split_tokens(&part);
    proof {
        assert(views(toks@) == tokens(part@));
        if toks@.len() >= 2 {
            assert(views(toks@)[1] == toks@[1]@);
        }
    }
    if toks.len() < 2 {
        return None;
    }
    let tok = &toks[1];
    if tok.len() == 0 || tok[0] != '+' {
        return None;
    }
    let after = slice_chars(tok, 1, tok.len());
    proof {
        assert(after@ =~= tok@.drop_first());
    }
    let c = find_comma(&after);
    proof {
        lemma_comma_index_bounds(after@, 0);
    }
    let num = slice_chars(&after, 0, c);
    proof {
        assert(num@ =~= after@.take(comma_index(after@, 0)));
    }
    match parse_decimal(&num) {
        Some(v) => Some(v),
        None => Some(0),
    }
}

/// Reads a diff text into its rows; `None` where a line number would not
/// fit in a `usize`.
pub fn parse_diff(text: &Vec<char>) -> (r: Option<Vec<DiffRow>>)
    ensures
        r is Some <==> numbers_fit(diff_rows(text@)),
        r matches Some(v) ==> v@.map_values(|x: DiffRow| row_model(x)) == diff_rows(text@),
{
    let lines = split_lines(text);
    let ghost ls = text_lines(text@);
    let mut rows: Vec<DiffRow> = Vec::new();
    let mut n: u128 = 1;
    let mut in_hunk = false;
    let p_diff = vec!['d', 'i', 'f', 'f', ' ', '-', '-', 'g', 'i', 't'];
    let p_index = vec!['i', 'n', 'd', 'e', 'x', ' '];
    let p_old = vec!['-', '-', '-', ' '];
    let p_new = vec!['+', '+', '+', ' '];
    let p_hunk = vec!['@', '@'];
    let mut i: usize = 0;
    proof {
        assert(ls.take(0) =~= Seq::<Seq<char>>::empty());
        assert(rows@.map_values(|x: DiffRow| row_model(x)) =~= Seq::<RowModel>::empty());
    }
    while i < lines.len()
        invariant
            views(lines@) == ls,
            ls == text_lines(text@),
            i <= lines@.len(),
            p_diff@ == seq!['d', 'i', 'f', 'f', ' ', '-', '-', 'g', 'i', 't'],
            p_index@ == seq!['i', 'n', 'd', 'e', 'x', ' '],
            p_old@ == seq!['-', '-', '-', ' '],
            p_new@ == seq!['+', '+', '+', ' '],
            p_hunk@ == seq!['@', '@'],
            rows@.map_values(|x: DiffRow| row_model(x)) == diff_scan(ls.take(i as int)).0,
            n as int == diff_scan(ls.take(i as int)).1,
            in_hunk == diff_scan(ls.take(i as int)).2,
            n <= usize::MAX as u128 + 1,
            numbers_fit(diff_scan(ls.take(i as int)).0),
        decreases lines.len() - i,
    {
        let line = &lines[i];
        let ghost prev = diff_scan(ls.take(i as int));
        proof {
            assert(ls.take(i + 1).drop_last() =~= ls.take(i as int));
            assert(ls.take(i + 1).last() == line@);
            assert(diff_scan(ls.take(i + 1)) == diff_step(line@, prev));
        }
        if starts_with(line, &p_diff) {
            in_hunk = false;
        } else if !in_hunk && (starts_with(line, &p_index) || starts_with(line, &p_old) || starts_with(
            line,
            &p_new,
        )) {
        } else if starts_with(line, &p_hunk) {
            match hunk_start(line) {
                Some(v) => {
                    n = v as u128;
                },
                None => {},
            }
            in_hunk = true;
        } else if line.len() > 0 && (line[0] == '+' || line[0] == ' ') {
            if n > usize::MAX as u128 {
                proof {
                    let next = diff_scan(ls.take(i + 1)).0;
                    assert(next.len() == prev.0.len() + 1);
                    assert(next[next.len() - 1].2 == Some(n as int));
                    lemma_scan_prefix(ls, i + 1);
                    assert(ls.take(ls.len() as int) =~= ls);
                    let all = diff_scan(ls).0;
                    assert(all[next.len() - 1] == next[next.len() - 1]);
                    assert(!numbers_fit(all));
                }
                return None;
            }
            let number = n as usize;
            n = n + 1;
            let content = slice_chars(line, 1, line.len());
            let line_type = if line[0] == '+' {
                DiffLineType::Added
            } else {
                DiffLineType::Context
            };
            rows.push(DiffRow { line_type, content: string_of(&content), line_number: Some(number) });
            proof {
                assert(content@ =~= line@.drop_first());
            }
        } else if line.len() > 0 && line[0] == '-' {
            let content = slice_chars(line, 1, line.len());
            rows.push(
                DiffRow {
                    line_type: DiffLineType::Removed,
                    content: string_of(&content),
                    line_number: None,
                },
            );
            proof {
                assert(content@ =~= line@.drop_first());
            }
        }
        proof {
            let next = diff_scan(ls.take(i + 1));
            assert(rows@.map_values(|x: DiffRow| row_model(x)) =~= next.0);
        }
        i += 1;
    }
    proof {
        assert(ls.take(lines@.len() as int) =~= ls);
    }
    Some(rows)
}

/// No row of a diff holds a line feed.
pub proof fn lemma_rows_have_no_newline(text: Seq<char>)
    ensures
        forall|i: int| 0 <= i < diff_rows(text).len() ==> no_newline((#[trigger] diff_rows(text)[i]).1),
{
    lemma_lines_have_no_newline(text);
    lemma_scan_no_newline(text_lines(text));
}

proof fn lemma_scan_no_newline(lines: Seq<Seq<char>>)
    requires
        forall|i: int| 0 <= i < lines.len() ==> no_newline(#[trigger] lines[i]),
    ensures
        forall|i: int| 0 <= i < diff_scan(lines).0.len() ==> no_newline((#[trigger] diff_scan(lines).0[i]).1),
    decreases lines.len(),
{
    if lines.len() > 0 {
        let prev = diff_scan(lines.drop_last()).0;
        assert forall|i: int| 0 <= i < lines.drop_last().len() implies no_newline(#[trigger] lines.drop_last()[i]) by {
            assert(lines.drop_last()[i] == lines[i]);
        }
        lemma_scan_no_newline(lines.drop_last());
        let l = lines.last();
        assert(no_newline(lines[lines.len() - 1]));
        let rows = diff_scan(lines).0;
        assert forall|i: int| 0 <= i < rows.len() implies no_newline((#[trigger] rows[i]).1) by {
            if i < prev.len() {
                assert(rows[i] == prev[i]);
            } else {
                assert(rows[i].1 == l.drop_first());
                assert forall|k: int| 0 <= k < l.drop_first().len() implies #[trigger] l.drop_first()[k] != '\n' by {
                    assert(l.drop_first()[k] == l[k + 1]);
                }
            }
        }
    }
}

/// Removed rows, and only they, carry no line number.
pub proof fn lemma_numbers_on_kept_rows(text: Seq<char>)
    ensures
        forall|i: int| 0 <= i < diff_rows(text).len() ==> ((#[trigger] diff_rows(text)[i]).2 is None
            <==> diff_rows(text)[i].0 == DiffLineType::Removed),
{
    lemma_scan_numbers(text_lines(text));
}

proof fn lemma_scan_numbers(lines: Seq<Seq<char>>)
    ensures
        forall|i: int| 0 <= i < diff_scan(lines).0.len() ==> ((#[trigger] diff_scan(lines).0[i]).2 is None
            <==> diff_scan(lines).0[i].0 == DiffLineType::Removed),
    decreases lines.len(),
{
    if lines.len() > 0 {
        lemma_scan_numbers(lines.drop_last());
        let prev = diff_scan(lines.drop_last()).0;
        let rows = diff_scan(lines).0;
        assert forall|i: int| 0 <= i < rows.len() implies ((#[trigger] rows[i]).2 is None <==> rows[i].0
            == DiffLineType::Removed) by {
            if i < prev.len() {
                assert(rows[i] == prev[i]);
            }
        }
    }
}

} // verus!
