//! What the screen shows, computed: which tree entries are visible, the
//! text and style of each row, the viewer's title and its line-number
//! gutters. The drawing itself is left to the terminal front end.

use vstd::prelude::*;
use ratatui::layout::{Constraint, Direction, Layout, Rect};
use crate::app::Panel;
use crate::diff::DiffLineType;
use crate::style::{plain_style, segment_model, SegmentStyle, StyledSegment, UiColor};
use crate::text::{chars_of, push_chars, string_of};
use crate::tree::TreeEntry;
use crate::viewer::{DiffLine, ViewMode};

verus! {

/// The border of a panel: cyan where it has focus, dark grey elsewhere.
pub open spec fn border_color_spec(focus: Panel, panel: Panel) -> UiColor {
    if focus == panel {
        UiColor::Cyan
    } else {
        UiColor::DarkGray
    }
}

/// The style of a panel's border.
pub fn border_style(focus: Panel, panel: Panel) -> (r: SegmentStyle)
    ensures
        r == (SegmentStyle { fg: Some(border_color_spec(focus, panel)), ..crate::style::plain_style() }),
{
    let c = if focus == panel {
        UiColor::Cyan
    } else {
        UiColor::DarkGray
    };
    SegmentStyle::plain().with_fg(c)
}

/// The first entry the tree panel shows: it keeps the selection near the
/// middle, the list's ends at the panel's ends.
pub open spec fn tree_offset(selected: int, total: int, height: int) -> int {
    if selected < height / 2 {
        0
    } else if selected + height / 2 >= total {
        if total >= height {
            total - height
        } else {
            0
        }
    } else {
        selected - height / 2
    }
}

/// The entries the tree panel shows, from `start` up to `end`: `None` when
/// the panel has no room or the tree no entries. The selected entry is
/// always among them, and they fill at most the panel.
pub fn tree_window(selected: usize, total: usize, height: usize) -> (r: Option<(usize, usize)>)
    requires
        height > 0 && total > 0 && selected >= height / 2 ==> selected + height / 2 <= usize::MAX,
        height > 0 && total > 0 ==> tree_offset(selected as int, total as int, height as int) + height
            <= usize::MAX,
    ensures
        (height == 0 || total == 0) <==> r is None,
        r matches Some((start, end)) ==> {
            &&& start == tree_offset(selected as int, total as int, height as int)
            &&& end == if start + height < total {
                start + height
            } else {
                total as int
            }
            &&& start <= end <= total
            &&& end - start <= height
            &&& selected < total ==> start <= selected < end
        },
{
    if height == 0 || total == 0 {
        return None;
    }
    let half = height / 2;
    let start = if selected < half {
        0
    } else if selected + half >= total {
        total.saturating_sub(height)
    } else {
        selected - half
    };
    let end = if start + height < total {
        start + height
    } else {
        total
    };
    Some((start, end))
}

/// The two characters that mark an entry: an open or closed triangle for a
/// directory, blanks for a file.
pub open spec fn entry_icon(e: TreeEntry) -> Seq<char> {
    if e.is_dir {
        if e.is_expanded {
            seq!['\u{25bc}', ' ']
        } else {
            seq!['\u{25b6}', ' ']
        }
    } else {
        seq![' ', ' ']
    }
}

/// `n` blanks.
pub open spec fn blanks(n: nat) -> Seq<char> {
    Seq::new(n, |i: int| ' ')
}

/// The text of a tree row: two blanks per level of depth, the icon, the name.
pub open spec fn tree_row_text_spec(e: TreeEntry) -> Seq<char> {
    blanks((2 * e.depth) as nat) + entry_icon(e) + e.name@
}

/// The text of a tree row.
pub fn tree_row_text(e: &TreeEntry) -> (r: String)
    requires
        2 * e.depth <= usize::MAX,
    ensures
        r@ == tree_row_text_spec(*e),
{
    let mut cs: Vec<char> = Vec::new();
    let n = 2 * e.depth;
    let mut i: usize = 0;
    while i < n
        invariant
            i <= n,
            n == 2 * e.depth,
            cs@ == blanks(i as nat),
        decreases n - i,
    {
        cs.push(' ');
        i += 1;
        assert(cs@ =~= blanks(i as nat));
    }
    if e.is_dir {
        if e.is_expanded {
            cs.push('\u{25bc}');
        } else {
            cs.push('\u{25b6}');
        }
    } else {
        cs.push(' ');
    }
    cs.push(' ');
    let mut s = string_of(&cs);
    let name = chars_of(e.name.as_str());
    push_chars(&mut s, &name);
    proof {
        assert(cs@ =~= blanks(n as nat) + entry_icon(*e));
    }
    s
}

/// The style of a tree row: black on cyan, bold, when selected; else blue
/// and bold for a directory, white for a file.
pub open spec fn tree_row_style_spec(selected: bool, is_dir: bool) -> SegmentStyle {
    let p = crate::style::plain_style();
    if selected {
        SegmentStyle { fg: Some(UiColor::Black), bg: Some(UiColor::Cyan), bold: true, ..p }
    } else if is_dir {
        SegmentStyle { fg: Some(UiColor::Blue), bold: true, ..p }
    } else {
        SegmentStyle { fg: Some(UiColor::White), ..p }
    }
}

/// The style of a tree row.
pub fn tree_row_style(selected: bool, is_dir: bool) -> (r: SegmentStyle)
    ensures
        r == tree_row_style_spec(selected, is_dir),
{
    if selected {
        SegmentStyle::plain().with_fg(UiColor::Black).with_bg(UiColor::Cyan).with_bold()
    } else if is_dir {
        SegmentStyle::plain().with_fg(UiColor::Blue).with_bold()
    } else {
        SegmentStyle::plain().with_fg(UiColor::White)
    }
}

/// The viewer's title: the file's path, marked in diff mode, or "Viewer".
pub open spec fn viewer_title_spec(path: Option<Seq<char>>, mode: ViewMode) -> Seq<char> {
    match path {
        Some(p) => seq![' '] + p + (if mode == ViewMode::GitDiff {
            " [DIFF] "@
        } else {
            Seq::empty()
        }) + seq![' '],
        None => " Viewer "@,
    }
}

/// The viewer's title.
pub fn viewer_title(path: &Option<String>, mode: ViewMode) -> (r: String)
    ensures
        r@ == viewer_title_spec(
            match path {
                Some(p) => Some(p@),
                None => None,
            },
            mode,
        ),
{
    match path {
        Some(p) => {
            let mut s = " ".to_owned();
            let pc = chars_of(p.as_str());
            push_chars(&mut s, &pc);
            if mode == ViewMode::GitDiff {
                let m = chars_of(" [DIFF] ");
                push_chars(&mut s, &m);
            }
            let sp = chars_of(" ");
            push_chars(&mut s, &sp);
            proof {
                reveal_strlit(" ");
            }
            s
        },
        None => " Viewer ".to_owned(),
    }
}

/// The decimal digit for `d`.
pub open spec fn digit_char(d: nat) -> char {
    ((d + 48) as u32) as char
}

/// The decimal digits of `n`, as `format!("{}", n)` writes them.
pub open spec fn decimal(n: nat) -> Seq<char>
    decreases n,
{
    if n < 10 {
        seq![digit_char(n)]
    } else {
        decimal(n / 10).push(digit_char(n % 10))
    }
}

/// The decimal digits of `n`.
pub fn decimal_chars(n: usize) -> (r: Vec<char>)
    ensures
        r@ == decimal(n as nat),
    decreases n,
{
    let d = (n % 10) as u32;
    let c = char_of_digit(d);
    if n < 10 {
        let mut v: Vec<char> = Vec::new();
        v.push(c);
        v
    } else {
        let mut v = decimal_chars(n / 10);
        v.push(c);
        v
    }
}

fn char_of_digit(d: u32) -> (c: char)
    requires
        d < 10,
    ensures
        c == digit_char(d as nat),
{
    match d {
        0 => '0',
        1 => '1',
        2 => '2',
        3 => '3',
        4 => '4',
        5 => '5',
        6 => '6',
        7 => '7',
        8 => '8',
        _ => '9',
    }
}

/// `s` right-aligned in `w` columns: blanks before it up to `w`.
pub open spec fn pad_left(s: Seq<char>, w: nat) -> Seq<char> {
    if s.len() < w {
        blanks((w - s.len()) as nat) + s
    } else {
        s
    }
}

/// The width of a line-number gutter for numbers up to `n`: its digits and a
/// blank.
pub fn gutter_width(n: usize) -> (r: usize)
    ensures
        r == decimal(n as nat).len() + 1,
{
    let d = decimal_chars(n);
    proof {
        lemma_decimal_len(n as nat);
    }
    d.len() + 1
}

proof fn lemma_decimal_len(n: nat)
    requires
        n <= usize::MAX,
    ensures
        decimal(n).len() <= 20,
{
    reveal_with_fuel(pow10, 21);
    assert(pow10(20) == 100000000000000000000);
    lemma_decimal_short_k(n, 20);
}

proof fn lemma_decimal_short_k(n: nat, k: nat)
    requires
        k >= 1,
        n < pow10(k),
    ensures
        decimal(n).len() <= k,
    decreases n,
{
    if n >= 10 {
        reveal_with_fuel(pow10, 2);
        assert(k >= 2);
        assert(pow10(k) == 10 * pow10((k - 1) as nat));
        assert(n / 10 < pow10((k - 1) as nat));
        lemma_decimal_short_k(n / 10, (k - 1) as nat);
    }
}

/// Ten to the `k`.
pub open spec fn pow10(k: nat) -> nat
    decreases k,
{
    if k == 0 {
        1
    } else {
        10 * pow10((k - 1) as nat)
    }
}

/// The gutter of a row: its number right-aligned in `width - 1` columns and
/// a blank, or blanks only for a row without a number.
pub open spec fn gutter_text_spec(n: Option<usize>, width: nat) -> Seq<char> {
    let w = (width - 1) as nat;
    match n {
        Some(v) => pad_left(decimal(v as nat), w).push(' '),
        None => blanks(w).push(' '),
    }
}

/// The gutter of a row.
pub fn gutter_text(n: Option<usize>, width: usize) -> (r: String)
    requires
        width >= 1,
    ensures
        r@ == gutter_text_spec(n, width as nat),
{
    let w = width - 1;
    let digits: Vec<char> = match n {
        Some(v) => decimal_chars(v),
        None => Vec::new(),
    };
    let mut cs: Vec<char> = Vec::new();
    let pad = if digits.len() < w {
        w - digits.len()
    } else {
        0
    };
    let mut i: usize = 0;
    while i < pad
        invariant
            i <= pad,
            cs@ == blanks(i as nat),
        decreases pad - i,
    {
        cs.push(' ');
        i += 1;
        assert(cs@ =~= blanks(i as nat));
    }
    let mut s = string_of(&cs);
    push_chars(&mut s, &digits);
    let mut t = s;
    crate::text::push_char(&mut t, ' ');
    proof {
        match n {
            Some(v) => {
                assert(pad_left(decimal(v as nat), w as nat) =~= blanks(pad as nat) + digits@);
            },
            None => {
                assert(blanks(w as nat) =~= blanks(pad as nat) + digits@);
            },
        }
    }
    t
}

/// The rows a view shows from `scroll`: up to `height` of them, ending at
/// the last.
pub fn view_window(scroll: usize, height: usize, len: usize) -> (r: (usize, usize))
    requires
        scroll <= len,
        scroll + height <= usize::MAX,
    ensures
        r.0 == scroll,
        r.1 == if scroll + height < len {
            scroll + height
        } else {
            len as int
        },
{
    let end = if scroll + height < len {
        scroll + height
    } else {
        len
    };
    (scroll, end)
}

/// The largest line number among the rows, or 0.
pub open spec fn max_line_number(d: Seq<DiffLine>) -> nat
    decreases d.len(),
{
    if d.len() == 0 {
        0
    } else {
        let m = max_line_number(d.drop_last());
        match d.last().line_number {
            Some(v) => if v > m {
                v as nat
            } else {
                m
            },
            None => m,
        }
    }
}

/// The largest line number among the rows, or 0.
pub fn max_line(d: &Vec<DiffLine>) -> (r: usize)
    ensures
        r == max_line_number(d@),
{
    let mut m: usize = 0;
    let mut i: usize = 0;
    while i < d.len()
        invariant
            i <= d@.len(),
            m == max_line_number(d@.take(i as int)),
        decreases d.len() - i,
    {
        proof {
            assert(d@.take(i + 1).drop_last() =~= d@.take(i as int));
        }
        match d[i].line_number {
            Some(v) => {
                if v > m {
                    m = v;
                }
            },
            None => {},
        }
        i += 1;
    }
    proof {
        assert(d@.take(d@.len() as int) =~= d@);
    }
    m
}

/// How a diff row is marked: its background, its prefix and the prefix's
/// colour.
pub open spec fn diff_decor_spec(t: DiffLineType) -> (UiColor, Seq<char>, UiColor) {
    match t {
        DiffLineType::Added => (UiColor::Rgb(0, 64, 0), seq!['+', ' '], UiColor::Green),
        DiffLineType::Removed => (UiColor::Rgb(64, 0, 0), seq!['-', ' '], UiColor::Red),
        DiffLineType::Context => (UiColor::Reset, seq![' ', ' '], UiColor::Reset),
    }
}

/// How a diff row is marked.
pub fn diff_decor(t: DiffLineType) -> (r: (UiColor, String, UiColor))
    ensures
        r.0 == diff_decor_spec(t).0,
        r.1@ == diff_decor_spec(t).1,
        r.2 == diff_decor_spec(t).2,
{
    let (bg, a, fg) = match t {
        DiffLineType::Added => (UiColor::Rgb(0, 64, 0), '+', UiColor::Green),
        DiffLineType::Removed => (UiColor::Rgb(64, 0, 0), '-', UiColor::Red),
        DiffLineType::Context => (UiColor::Reset, ' ', UiColor::Reset),
    };
    let mut s = String::new();
    crate::text::push_char(&mut s, a);
    crate::text::push_char(&mut s, ' ');
    proof {
        assert(s@ =~= diff_decor_spec(t).1);
    }
    (bg, s, fg)
}

/// What the viewer panel shows inside its border.
#[derive(Clone, Copy, Debug, PartialEq, Eq, Structural)]
pub enum ViewerBody {
    /// The viewer's message.
    Message,
    /// Nothing: the panel has no room.
    Empty,
    /// The file's highlighted lines.
    Lines,
    /// The file's diff rows.
    Diff,
}

/// What the viewer panel shows: its message where it has one, else nothing
/// where there is no room, else the lines or the diff rows by mode.
pub open spec fn viewer_body_spec(has_message: bool, height: usize, mode: ViewMode) -> ViewerBody {
    if has_message {
        ViewerBody::Message
    } else if height == 0 {
        ViewerBody::Empty
    } else if mode == ViewMode::Normal {
        ViewerBody::Lines
    } else {
        ViewerBody::Diff
    }
}

/// What the viewer panel shows.
pub fn viewer_body(message: &Option<String>, height: usize, mode: ViewMode) -> (r: ViewerBody)
    ensures
        r == viewer_body_spec(message is Some, height, mode),
{
    if message.is_some() {
        ViewerBody::Message
    } else if height == 0 {
        ViewerBody::Empty
    } else {
        match mode {
            ViewMode::Normal => ViewerBody::Lines,
            ViewMode::GitDiff => ViewerBody::Diff,
        }
    }
}

/// An area of the screen: column, row, width, height.
pub type Area = (u16, u16, u16, u16);

/// ratatui's `Layout::split` of an area into two columns, the first 30
/// cells wide (`Constraint::Length(30)`), the second taking the rest
/// (`Constraint::Min(1)`). A function of the area alone.
pub uninterp spec fn column_split(area: Area) -> (Area, Area);

/// Calls ratatui's `Layout::split` with the constraints that `column_split`
/// names; the contract names its result.
#[verifier::external_body]
fn split_columns(area: Area) -> (r: (Area, Area))
    ensures
        r == column_split(area),
{
    let chunks = Layout::default()
        .direction(Direction::Horizontal)
        .constraints([Constraint::Length(30), Constraint::Min(1)])
        .split(Rect::new(area.0, area.1, area.2, area.3));
    let (a, b) = (chunks[0], chunks[1]);
    ((a.x, a.y, a.width, a.height), (b.x, b.y, b.width, b.height))
}

/// The areas of the two panels: the tree's 30 columns, then the viewer's.
pub fn panel_areas(area: Area) -> (r: (Area, Area))
    ensures
        r == column_split(area),
{
    split_columns(area)
}

/// The style of a gutter: dark grey, on `bg` where one is given.
pub open spec fn gutter_style_spec(bg: Option<UiColor>) -> SegmentStyle {
    SegmentStyle { fg: Some(UiColor::DarkGray), bg, ..plain_style() }
}

/// A normal-view row as drawn: its gutter with line number `number`, then
/// its segments as they are.
pub fn normal_row_spans(number: usize, segments: &Vec<StyledSegment>, width: usize) -> (r: Vec<StyledSegment>)
    requires
        width >= 1,
    ensures
        r@.len() == segments@.len() + 1,
        segment_model(r@[0]) == (gutter_text_spec(Some(number), width as nat), gutter_style_spec(None)),
        forall|k: int| 0 <= k < segments@.len() ==> segment_model(#[trigger] r@[k + 1]) == segment_model(segments@[k]),
{
    let mut r: Vec<StyledSegment> = Vec::new();
    r.push(StyledSegment { text: gutter_text(Some(number), width), style: SegmentStyle::plain().with_fg(UiColor::DarkGray) });
    let mut k: usize = 0;
    while k < segments.len()
        invariant
            k <= segments@.len(),
            r@.len() == k + 1,
            segment_model(r@[0]) == (gutter_text_spec(Some(number), width as nat), gutter_style_spec(None)),
            forall|m: int| 0 <= m < k ==> segment_model(#[trigger] r@[m + 1]) == segment_model(segments@[m]),
        decreases segments.len() - k,
    {
        let s = &segments[k];
        r.push(StyledSegment { text: s.text.clone(), style: s.style });
        k += 1;
    }
    r
}

/// A diff row as drawn: its gutter and its prefix on the row's background,
/// then its segments with that background laid over their styles; and the
/// style of the whole line, that background.
pub fn diff_row_spans(line: &DiffLine, width: usize) -> (r: (Vec<StyledSegment>, SegmentStyle))
    requires
        width >= 1,
    ensures
        ({
            let (bg, prefix, prefix_color) = diff_decor_spec(line.line_type);
            let segs = line.segments@;
            &&& r.0@.len() == segs.len() + 2
            &&& segment_model(r.0@[0]) == (gutter_text_spec(line.line_number, width as nat), gutter_style_spec(Some(bg)))
            &&& segment_model(r.0@[1]) == (prefix, SegmentStyle { fg: Some(prefix_color), bg: Some(bg), ..plain_style() })
            &&& forall|k: int| 0 <= k < segs.len() ==> segment_model(#[trigger] r.0@[k + 2]) == (
                segs[k].text@,
                SegmentStyle { bg: Some(bg), ..segs[k].style },
            )
            &&& r.1 == SegmentStyle { bg: Some(bg), ..plain_style() }
        }),
{
    let (bg, prefix, prefix_color) = diff_decor(line.line_type);
    let mut r: Vec<StyledSegment> = Vec::new();
    r.push(StyledSegment {
        text: gutter_text(line.line_number, width),
        style: SegmentStyle::plain().with_fg(UiColor::DarkGray).with_bg(bg),
    });
    r.push(StyledSegment { text: prefix, style: SegmentStyle::plain().with_fg(prefix_color).with_bg(bg) });
    let segs = &line.segments;
    let mut k: usize = 0;
    while k < segs.len()
        invariant
            k <= segs@.len(),
            r@.len() == k + 2,
            bg == diff_decor_spec(line.line_type).0,
            segs == &line.segments,
            segment_model(r@[0]) == (gutter_text_spec(line.line_number, width as nat), gutter_style_spec(Some(bg))),
            segment_model(r@[1]) == (diff_decor_spec(line.line_type).1, SegmentStyle {
                fg: Some(diff_decor_spec(line.line_type).2),
                bg: Some(bg),
                ..plain_style()
            }),
            forall|m: int| 0 <= m < k ==> segment_model(#[trigger] r@[m + 2]) == (
                segs@[m].text@,
                SegmentStyle { bg: Some(bg), ..segs@[m].style },
            ),
        decreases segs.len() - k,
    {
        let s = &segs[k];
        r.push(StyledSegment { text: s.text.clone(), style: s.style.with_bg(bg) });
        k += 1;
    }
    (r, SegmentStyle::plain().with_bg(bg))
}

/// The selected row is drawn black on cyan and bold, a directory's as a
/// file's; other rows have no background: directories blue and bold, files
/// white and not bold.
pub proof fn lemma_selection_bar(is_dir: bool)
    ensures
        tree_row_style_spec(true, is_dir).fg == Some(UiColor::Black),
        tree_row_style_spec(true, is_dir).bg == Some(UiColor::Cyan),
        tree_row_style_spec(true, is_dir).bold,
        tree_row_style_spec(true, true) == tree_row_style_spec(true, false),
        tree_row_style_spec(false, is_dir).bg is None,
        tree_row_style_spec(false, true).fg == Some(UiColor::Blue),
        tree_row_style_spec(false, true).bold,
        tree_row_style_spec(false, false).fg == Some(UiColor::White),
        !tree_row_style_spec(false, false).bold,
{
}

} // verus!
