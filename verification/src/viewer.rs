//! The code viewer: the highlighted lines of a file or the rows of its git
//! diff, a scroll position, and the message shown in place of content.

use vstd::prelude::*;
use vstd::utf8::{decode_utf8, valid_utf8};
use crate::diff::{
    diff_rows, lemma_rows_have_no_newline, numbers_fit, parse_diff, row_model, DiffLineType, DiffRow,
    RowModel,
};
use crate::engine::is_prefix;
use crate::engine::syntect_tokens;
use crate::highlight::{chosen_syntax, highlighting, highlights, styled_tokens, Highlighter};
use crate::path::{extension_of, path_extension};
use crate::style::{plain_style, segments_model, segments_text, SegmentStyle, StyledSegment};
use crate::text::{all_ws, chars_of, is_blank, lemma_single_line, push_chars};

verus! {

/// View mode for the code viewer.
#[derive(Clone, Copy, Debug, PartialEq, Eq, Structural)]
pub enum ViewMode {
    Normal,
    GitDiff,
}

/// A line in diff view with its type and highlighted segments.
pub struct DiffLine {
    pub line_type: DiffLineType,
    pub segments: Vec<StyledSegment>,
    pub line_number: Option<usize>,
}

/// What running `git diff HEAD <file>` came to.
pub enum GitOutput {
    /// git could not be run; the error's text.
    SpawnFailed(String),
    /// git ran; whether it succeeded, and what it wrote to stdout.
    Finished { success: bool, stdout: Vec<u8> },
}

/// Reading a diff stopped: a line number would not fit in a `usize`.
#[derive(Clone, Copy, Debug, PartialEq, Eq, Structural)]
pub enum DiffError {
    LineNumberOverflow,
}

/// std's `String::from_utf8_lossy`: the bytes decoded as UTF-8, each
/// invalid sequence replaced by U+FFFD. A function of the bytes alone.
pub uninterp spec fn utf8_lossy(b: Seq<u8>) -> Seq<char>;

/// Calls std's `String::from_utf8_lossy`; the contract names its result, and
/// states what std documents: valid UTF-8 is decoded unchanged.
#[verifier::external_body]
fn decode_lossy(b: &Vec<u8>) -> (r: String)
    ensures
        r@ == utf8_lossy(b@),
        valid_utf8(b@) ==> r@ == decode_utf8(b@),
{
    String::from_utf8_lossy(b).into_owned()
}

/// Calls std's `String::from_utf8`: the text when the bytes are valid UTF-8,
/// `None` when they are not.
#[verifier::external_body]
fn decode_strict(b: Vec<u8>) -> (r: Option<String>)
    ensures
        r is Some <==> valid_utf8(b@),
        r matches Some(s) ==> s@ == decode_utf8(b@),
{
    String::from_utf8(b).ok()
}

/// The message is present and reads `text`.
pub open spec fn msg_is(m: Option<String>, text: Seq<char>) -> bool {
    m matches Some(s) && s@ == text
}

/// The most rows a scroll can skip: all but the last.
pub open spec fn max_scroll_for(total: nat) -> nat {
    if total == 0 {
        0
    } else {
        (total - 1) as nat
    }
}

/// Scrolling down by `amount` from `s`, stopping at `max`.
pub open spec fn scrolled_down(s: nat, amount: nat, max: nat) -> nat {
    if s + amount < max {
        s + amount
    } else {
        max
    }
}

/// Scrolling up by `amount` from `s`, stopping at 0.
pub open spec fn scrolled_up(s: nat, amount: nat) -> nat {
    if s >= amount {
        (s - amount) as nat
    } else {
        0
    }
}

/// An added or removed line.
pub open spec fn is_change(t: DiffLineType) -> bool {
    t == DiffLineType::Added || t == DiffLineType::Removed
}

/// The first change in `d[lo..hi)`, or `hi` where there is none.
pub open spec fn first_change(d: Seq<DiffLine>, lo: int, hi: int) -> int
    decreases hi - lo,
{
    if lo >= hi {
        hi
    } else if is_change(d[lo].line_type) {
        lo
    } else {
        first_change(d, lo + 1, hi)
    }
}

/// The last change in `d[lo..hi)`, or -1 where there is none.
pub open spec fn last_change(d: Seq<DiffLine>, lo: int, hi: int) -> int
    decreases hi - lo,
{
    if lo >= hi {
        -1
    } else if is_change(d[hi - 1].line_type) {
        hi - 1
    } else {
        last_change(d, lo, hi - 1)
    }
}

/// Some change lies before row `scroll`.
pub open spec fn has_change_before(d: Seq<DiffLine>, scroll: int) -> bool {
    last_change(
        d,
        0,
        if scroll < d.len() {
            scroll
        } else {
            d.len() as int
        },
    ) >= 0
}

/// Where the next-change jump lands from `scroll`: the first change after
/// it, else the first change up to and including it, else `scroll`.
pub open spec fn next_change_target(d: Seq<DiffLine>, scroll: int) -> int {
    let start = scroll + 1;
    let a = first_change(d, start, d.len() as int);
    let hi = if start < d.len() {
        start
    } else {
        d.len() as int
    };
    let b = first_change(d, 0, hi);
    if a < d.len() {
        a
    } else if b < hi {
        b
    } else {
        scroll
    }
}

/// Where the previous-change jump lands from `scroll`: the last change
/// before it, else the last change after it, else `scroll`.
pub open spec fn prev_change_target(d: Seq<DiffLine>, scroll: int) -> int {
    let hi = if scroll < d.len() {
        scroll
    } else {
        d.len() as int
    };
    let a = last_change(d, 0, hi);
    let b = last_change(d, scroll + 1, d.len() as int);
    if a >= 0 {
        a
    } else if b >= 0 {
        b
    } else {
        scroll
    }
}

proof fn lemma_first_change(d: Seq<DiffLine>, lo: int, hi: int)
    requires
        0 <= lo,
        hi <= d.len(),
    ensures
        lo <= hi ==> lo <= first_change(d, lo, hi) <= hi,
        lo > hi ==> first_change(d, lo, hi) == hi,
        first_change(d, lo, hi) < hi ==> is_change(d[first_change(d, lo, hi)].line_type),
        forall|k: int| lo <= k < first_change(d, lo, hi) ==> !is_change(#[trigger] d[k].line_type),
    decreases hi - lo,
{
    if lo < hi && !is_change(d[lo].line_type) {
        lemma_first_change(d, lo + 1, hi);
    }
}

proof fn lemma_last_change(d: Seq<DiffLine>, lo: int, hi: int)
    requires
        0 <= lo,
        hi <= d.len(),
    ensures
        last_change(d, lo, hi) == -1 || lo <= last_change(d, lo, hi) < hi,
        last_change(d, lo, hi) >= 0 ==> is_change(d[last_change(d, lo, hi)].line_type),
        forall|k: int|
            (if last_change(d, lo, hi) >= 0 {
                last_change(d, lo, hi) + 1
            } else {
                lo
            }) <= k < hi ==> !is_change(#[trigger] d[k].line_type),
    decreases hi - lo,
{
    if lo < hi && !is_change(d[hi - 1].line_type) {
        lemma_last_change(d, lo, hi - 1);
    }
}

/// The state of the code viewer panel.
pub struct CodeViewer {
    /// Currently loaded file path (if any).
    pub file_path: Option<String>,
    /// Pre-highlighted lines ready for rendering (normal mode).
    pub lines: Vec<Vec<StyledSegment>>,
    /// Diff lines (git diff mode).
    pub diff_lines: Vec<DiffLine>,
    /// Current view mode.
    pub view_mode: ViewMode,
    /// Current scroll offset (first visible line).
    pub scroll: usize,
    /// Status/error message to display instead of the file's lines.
    pub message: Option<String>,
    /// Status/error message to display instead of the diff's rows.
    pub diff_message: Option<String>,
}

impl CodeViewer {
    /// The number of rows of the current mode.
    pub open spec fn total_rows(&self) -> nat {
        match self.view_mode {
            ViewMode::Normal => self.lines@.len(),
            ViewMode::GitDiff => self.diff_lines@.len(),
        }
    }

    /// The largest scroll of the current mode.
    pub open spec fn max_scroll_spec(&self) -> nat {
        max_scroll_for(self.total_rows())
    }

    /// Nothing but the scroll differs between the two viewers.
    pub open spec fn same_but_scroll(&self, other: &CodeViewer) -> bool {
        &&& self.file_path == other.file_path
        &&& self.lines == other.lines
        &&& self.diff_lines == other.diff_lines
        &&& self.view_mode == other.view_mode
        &&& self.message == other.message
        &&& self.diff_message == other.diff_message
    }

    /// `self` is `old` after loading the file at `path` from what reading it
    /// gave: the error's text, or bytes, shown highlighted unless they look
    /// binary or are not UTF-8; back at the top, in the same mode.
    pub open spec fn loaded_from(&self, old: CodeViewer, path: Seq<char>, contents: Result<Vec<u8>, String>) -> bool {
        &&& self.file_path matches Some(p) && p@ == path
        &&& self.scroll == 0
        &&& self.view_mode == old.view_mode
        &&& self.diff_lines == old.diff_lines
        &&& self.diff_message == old.diff_message
        &&& match contents {
                Err(e) => self.lines@.len() == 0 && msg_is(self.message, "Error: "@ + e@),
                Ok(b) => if looks_binary(b@) {
                    self.lines@.len() == 0 && msg_is(self.message, "Binary file"@)
                } else if !valid_utf8(b@) {
                    self.lines@.len() == 0 && msg_is(self.message, "Cannot display: file is not valid UTF-8"@)
                } else {
                    self.message is None && highlights(self.lines@, decode_utf8(b@)) && highlighting(
                        self.lines@,
                        decode_utf8(b@),
                        extension_text(path),
                    )
                },
            }
    }

    /// `self` is `old` with the other view mode, back at the top; `r` is the
    /// loaded file's path when the new mode is the diff, to load its diff.
    pub open spec fn mode_toggled_from(&self, old: CodeViewer, r: Option<String>) -> bool {
        &&& self.view_mode == (if old.view_mode == ViewMode::Normal {
            ViewMode::GitDiff
        } else {
            ViewMode::Normal
        })
        &&& self.scroll == 0
        &&& self.file_path == old.file_path
        &&& self.lines == old.lines
        &&& self.diff_lines == old.diff_lines
        &&& self.message == old.message
        &&& self.diff_message == old.diff_message
        &&& r == (if self.view_mode == ViewMode::GitDiff {
            old.file_path
        } else {
            None
        })
    }

    /// `self` shows the file as `old` did: same file, lines, message, mode
    /// and scroll.
    pub open spec fn keeps_file_view(&self, old: CodeViewer) -> bool {
        &&& self.file_path == old.file_path
        &&& self.lines == old.lines
        &&& self.message == old.message
        &&& self.view_mode == old.view_mode
        &&& self.scroll == old.scroll
    }

    /// The message the current mode shows: the file's in normal mode, the
    /// diff's in diff mode.
    pub open spec fn shown_message_spec(&self) -> Option<String> {
        match self.view_mode {
            ViewMode::Normal => self.message,
            ViewMode::GitDiff => self.diff_message,
        }
    }

    /// The message the current mode shows.
    pub fn shown_message(&self) -> (r: &Option<String>)
        ensures
            *r == self.shown_message_spec(),
    {
        match self.view_mode {
            ViewMode::Normal => &self.message,
            ViewMode::GitDiff => &self.diff_message,
        }
    }

    /// An empty viewer that asks for a file.
    pub open spec fn is_fresh(&self) -> bool {
        &&& self.file_path is None
        &&& self.lines@.len() == 0
        &&& self.diff_lines@.len() == 0
        &&& self.view_mode == ViewMode::Normal
        &&& self.scroll == 0
        &&& msg_is(self.message, "Select a file to view"@)
        &&& msg_is(self.diff_message, "Select a file to view"@)
    }

    /// An empty viewer that asks for a file.
    pub fn new() -> (r: Self)
        ensures
            r.is_fresh(),
    {
        CodeViewer {
            file_path: None,
            lines: Vec::new(),
            diff_lines: Vec::new(),
            view_mode: ViewMode::Normal,
            scroll: 0,
            message: Some("Select a file to view".to_owned()),
            diff_message: Some("Select a file to view".to_owned()),
        }
    }

    /// Scrolls down by `amount`, stopping at the last row.
    pub fn scroll_down(&mut self, amount: usize)
        requires
            old(self).scroll + amount <= usize::MAX,
        ensures
            final(self).same_but_scroll(old(self)),
            final(self).scroll == scrolled_down(old(self).scroll as nat, amount as nat, old(self).max_scroll_spec()),
    {
        let max = self.max_scroll();
        let s = self.scroll + amount;
        self.scroll = if s < max {
            s
        } else {
            max
        };
    }

    /// Scrolls up by `amount`, stopping at the first row.
    pub fn scroll_up(&mut self, amount: usize)
        ensures
            final(self).same_but_scroll(old(self)),
            final(self).scroll == scrolled_up(old(self).scroll as nat, amount as nat),
    {
        self.scroll = self.scroll.saturating_sub(amount);
    }

    /// Scrolls to the first row.
    pub fn scroll_to_top(&mut self)
        ensures
            final(self).same_but_scroll(old(self)),
            final(self).scroll == 0,
    {
        self.scroll = 0;
    }

    /// Scrolls to the last row.
    pub fn scroll_to_bottom(&mut self)
        ensures
            final(self).same_but_scroll(old(self)),
            final(self).scroll == old(self).max_scroll_spec(),
    {
        self.scroll = self.max_scroll();
    }

    /// The largest scroll of the current mode: all rows but the last.
    pub fn max_scroll(&self) -> (r: usize)
        ensures
            r == self.max_scroll_spec(),
    {
        let total = match self.view_mode {
            ViewMode::Normal => self.lines.len(),
            ViewMode::GitDiff => self.diff_lines.len(),
        };
        if total == 0 {
            0
        } else {
            total - 1
        }
    }

    /// Jumps to the next change (added or removed line) in diff mode,
    /// wrapping to the beginning.
    pub fn jump_to_next_change(&mut self)
        requires
            old(self).view_mode == ViewMode::GitDiff ==> old(self).scroll < usize::MAX,
        ensures
            final(self).same_but_scroll(old(self)),
            old(self).view_mode != ViewMode::GitDiff ==> final(self).scroll == old(self).scroll,
            old(self).view_mode == ViewMode::GitDiff ==> final(self).scroll == next_change_target(
                old(self).diff_lines@,
                old(self).scroll as int,
            ),
    {
        if self.view_mode != ViewMode::GitDiff {
            return;
        }
        let ghost d = self.diff_lines@;
        let n = self.diff_lines.len();
        let start = self.scroll + 1;
        proof {
            lemma_first_change(d, start as int, n as int);
        }
        let mut idx = start;
        while idx < n
            invariant
                n == d.len(),
                d == self.diff_lines@,
                d == old(self).diff_lines@,
                self.same_but_scroll(old(self)),
                self.scroll == old(self).scroll,
                old(self).view_mode == ViewMode::GitDiff,
                start == old(self).scroll + 1,
                start <= idx,
                idx <= n || idx == start,
                first_change(d, idx as int, n as int) == first_change(d, start as int, n as int),
            decreases n - idx,
        {
            if is_change_line(self.diff_lines[idx].line_type) {
                proof {
                    assert(first_change(d, idx as int, n as int) == idx);
                }
                self.scroll = idx;
                return;
            }
            idx += 1;
        }
        let hi = if start < n {
            start
        } else {
            n
        };
        proof {
            lemma_first_change(d, 0, hi as int);
        }
        let mut idx: usize = 0;
        while idx < hi
            invariant
                n == d.len(),
                d == self.diff_lines@,
                d == old(self).diff_lines@,
                self.same_but_scroll(old(self)),
                self.scroll == old(self).scroll,
                old(self).view_mode == ViewMode::GitDiff,
                hi <= n,
                start == old(self).scroll + 1,
                hi == (if start < n { start } else { n }),
                idx <= hi,
                first_change(d, idx as int, hi as int) == first_change(d, 0, hi as int),
                first_change(d, start as int, n as int) == n,
            decreases hi - idx,
        {
            if is_change_line(self.diff_lines[idx].line_type) {
                proof {
                    assert(first_change(d, idx as int, hi as int) == idx);
                }
                self.scroll = idx;
                return;
            }
            idx += 1;
        }
    }

    /// Whether some change lies before the scroll.
    pub fn change_before_scroll(&self) -> (r: bool)
        ensures
            r == has_change_before(self.diff_lines@, self.scroll as int),
    {
        let n = self.diff_lines.len();
        let hi = if self.scroll < n {
            self.scroll
        } else {
            n
        };
        proof {
            lemma_last_change(self.diff_lines@, 0, hi as int);
        }
        let mut idx = hi;
        while idx > 0
            invariant
                n == self.diff_lines@.len(),
                idx <= hi <= n,
                hi == (if self.scroll < n { self.scroll } else { n }),
                last_change(self.diff_lines@, 0, idx as int) == last_change(self.diff_lines@, 0, hi as int),
            decreases idx,
        {
            if is_change_line(self.diff_lines[idx - 1].line_type) {
                proof {
                    assert(last_change(self.diff_lines@, 0, idx as int) == idx - 1);
                }
                return true;
            }
            idx -= 1;
        }
        false
    }

    /// Jumps to the previous change (added or removed line) in diff mode,
    /// wrapping to the end.
    pub fn jump_to_prev_change(&mut self)
        requires
            old(self).view_mode == ViewMode::GitDiff && !has_change_before(
                old(self).diff_lines@,
                old(self).scroll as int,
            ) ==> old(self).scroll < usize::MAX,
        ensures
            final(self).same_but_scroll(old(self)),
            old(self).view_mode != ViewMode::GitDiff ==> final(self).scroll == old(self).scroll,
            old(self).view_mode == ViewMode::GitDiff ==> final(self).scroll == prev_change_target(
                old(self).diff_lines@,
                old(self).scroll as int,
            ),
    {
        if self.view_mode != ViewMode::GitDiff {
            return;
        }
        let ghost d = self.diff_lines@;
        let n = self.diff_lines.len();
        let scroll = self.scroll;
        let hi = if scroll < n {
            scroll
        } else {
            n
        };
        proof {
            lemma_last_change(d, 0, hi as int);
        }
        let mut idx = hi;
        while idx > 0
            invariant
                n == d.len(),
                d == self.diff_lines@,
                d == old(self).diff_lines@,
                self.same_but_scroll(old(self)),
                self.scroll == old(self).scroll,
                old(self).view_mode == ViewMode::GitDiff,
                idx <= hi <= n,
                scroll == old(self).scroll,
                hi == (if scroll < n { scroll } else { n }),
                last_change(d, 0, idx as int) == last_change(d, 0, hi as int),
            decreases idx,
        {
            if is_change_line(self.diff_lines[idx - 1].line_type) {
                proof {
                    assert(last_change(d, 0, idx as int) == idx - 1);
                }
                self.scroll = idx - 1;
                return;
            }
            idx -= 1;
        }
        let lo = scroll + 1;
        proof {
            lemma_last_change(d, lo as int, n as int);
        }
        let mut idx = n;
        while idx > lo
            invariant
                n == d.len(),
                d == self.diff_lines@,
                d == old(self).diff_lines@,
                self.same_but_scroll(old(self)),
                self.scroll == old(self).scroll,
                old(self).view_mode == ViewMode::GitDiff,
                idx <= n,
                scroll == old(self).scroll,
                lo == scroll + 1,
                hi == (if scroll < n { scroll } else { n }),
                last_change(d, 0, hi as int) == -1,
                last_change(d, lo as int, idx as int) == last_change(d, lo as int, n as int),
            decreases idx,
        {
            if is_change_line(self.diff_lines[idx - 1].line_type) {
                proof {
                    assert(last_change(d, lo as int, idx as int) == idx - 1);
                }
                self.scroll = idx - 1;
                return;
            }
            idx -= 1;
        }
    }
}

/// Whether a diff line is an added or removed one.
pub fn is_change_line(t: DiffLineType) -> (r: bool)
    ensures
        r == is_change(t),
{
    match t {
        DiffLineType::Added => true,
        DiffLineType::Removed => true,
        DiffLineType::Context => false,
    }
}

/// The bytes hold a NUL within their first 8192, which marks a binary file.
pub open spec fn looks_binary(b: Seq<u8>) -> bool {
    exists|i: int| 0 <= i < b.len() && i < 8192 && b[i] == 0
}

/// Whether the first 8192 bytes hold a NUL.
pub fn sniff_binary(b: &Vec<u8>) -> (r: bool)
    ensures
        r == looks_binary(b@),
{
    let n = if b.len() < 8192 {
        b.len()
    } else {
        8192
    };
    let mut i: usize = 0;
    while i < n
        invariant
            n <= b@.len(),
            n == b@.len() || n == 8192,
            n <= 8192,
            i <= n,
            forall|k: int| 0 <= k < i ==> b@[k] != 0,
        decreases n - i,
    {
        if b[i] == 0 {
            proof {
                assert(0 <= i < b@.len() && i < 8192 && b@[i as int] == 0);
            }
            return true;
        }
        i += 1;
    }
    false
}

/// `prefix` followed by the text of `tail`.
fn message_with(prefix: &str, tail: &String) -> (r: String)
    ensures
        r@ == prefix@ + tail@,
{
    let mut m = prefix.to_owned();
    let cs = chars_of(tail.as_str());
    push_chars(&mut m, &cs);
    m
}

/// The segments of all rows, one row after another.
pub open spec fn concat_rows(rows: Seq<Vec<StyledSegment>>) -> Seq<StyledSegment>
    decreases rows.len(),
{
    if rows.len() == 0 {
        Seq::empty()
    } else {
        concat_rows(rows.drop_last()) + rows.last()@
    }
}

/// The segments of all rows, one row after another.
pub fn flatten(rows: Vec<Vec<StyledSegment>>) -> (r: Vec<StyledSegment>)
    ensures
        r@ == concat_rows(rows@),
{
    let ghost all = rows@;
    let mut out: Vec<StyledSegment> = Vec::new();
    let mut rest = rows;
    let mut i: usize = 0;
    let n = rest.len();
    while i < n
        invariant
            n == all.len(),
            i <= n,
            rest@ == all.skip(i as int),
            out@ == concat_rows(all.take(i as int)),
        decreases n - i,
    {
        let mut row = rest.remove(0);
        proof {
            assert(all.take(i + 1).drop_last() =~= all.take(i as int));
            assert(row == all[i as int]);
        }
        out.append(&mut row);
        proof {
            assert(rest@ =~= all.skip(i + 1));
        }
        i += 1;
    }
    proof {
        assert(all.take(n as int) =~= all);
    }
    out
}

/// `d` shows the diff rows `rows`: one line per row, with its type and
/// number; the segments of an empty row are one empty plain segment, those
/// of another row are its highlighting for `extension` (syntect's tokens for
/// the row as a text of its own, styled), whose text is a prefix of the
/// row's.
pub open spec fn shows_rows(d: Seq<DiffLine>, rows: Seq<RowModel>, extension: Seq<char>) -> bool {
    &&& d.len() == rows.len()
    &&& forall|i: int|
        0 <= i < d.len() ==> {
            let line = #[trigger] d[i];
            let row = rows[i];
            &&& line.line_type == row.0
            &&& (match line.line_number {
                Some(v) => Some(v as int),
                None => None,
            }) == row.2
            &&& row.1.len() == 0 ==> line.segments@.len() == 1 && line.segments@[0].text@.len() == 0
                && line.segments@[0].style == plain_style()
            &&& row.1.len() > 0 ==> is_prefix(segments_text(line.segments@), row.1)
            &&& row.1.len() > 0 ==> segments_model(line.segments@) == styled_tokens(
                syntect_tokens(chosen_syntax(extension), Seq::empty(), row.1),
            )
        }
}

/// Where git succeeded with valid UTF-8 on stdout, its lossy decoding is the
/// plain decoding.
pub open spec fn lossy_is_plain(output: GitOutput) -> bool {
    match output {
        GitOutput::Finished { success, stdout } => success && valid_utf8(stdout@) ==> utf8_lossy(stdout@)
            == decode_utf8(stdout@),
        GitOutput::SpawnFailed(_) => true,
    }
}

/// The extension that picks a file's syntax: its path's extension, or none.
pub open spec fn extension_text(path: Seq<char>) -> Seq<char> {
    match path_extension(path) {
        Some(e) => e,
        None => Seq::empty(),
    }
}

impl CodeViewer {
    /// Loads a file from what reading it gave: the error's text, or its
    /// bytes, which are shown highlighted unless they look binary or are not
    /// UTF-8.
    pub fn load(&mut self, path: &String, contents: Result<Vec<u8>, String>, highlighter: &Highlighter)
        ensures
            final(self).loaded_from(*old(self), path@, contents),
    {
        self.file_path = Some(path.clone());
        self.scroll = 0;
        self.message = None;
        self.lines = Vec::new();
        let bytes = match contents {
            Ok(b) => b,
            Err(e) => {
                self.message = Some(message_with("Error: ", &e));
                return;
            },
        };
        if sniff_binary(&bytes) {
            self.message = Some("Binary file".to_owned());
            return;
        }
        let source = match decode_strict(bytes) {
            Some(s) => s,
            None => {
                self.message = Some("Cannot display: file is not valid UTF-8".to_owned());
                return;
            },
        };
        let ext = match extension_of(path.as_str()) {
            Some(e) => e,
            None => String::new(),
        };
        assert(ext@ == extension_text(path@));
        self.lines = highlighter.highlight(source.as_str(), ext.as_str());
    }

    /// Toggles between normal and git diff view, back at the top. Switching to
    /// the diff of a loaded file calls for its diff: the result is the file's
    /// path then, for `load_git_diff`.
    pub fn toggle_view_mode(&mut self) -> (r: Option<String>)
        ensures
            final(self).mode_toggled_from(*old(self), r),
    {
        self.view_mode = match self.view_mode {
            ViewMode::Normal => ViewMode::GitDiff,
            ViewMode::GitDiff => ViewMode::Normal,
        };
        self.scroll = 0;
        match self.view_mode {
            ViewMode::GitDiff => self.file_path.clone(),
            ViewMode::Normal => None,
        }
    }

    /// Loads the git diff of the file at `path` from what running git gave.
    /// The scroll stays: the diff is asked for by `toggle_view_mode`, which
    /// has just put it back at the top.
    pub fn load_git_diff(&mut self, path: &String, output: GitOutput, highlighter: &Highlighter) -> (r:
        Result<(), DiffError>)
        ensures
            final(self).keeps_file_view(*old(self)),
            lossy_is_plain(output),
            match output {
                GitOutput::SpawnFailed(e) => r is Ok && final(self).diff_lines@.len() == 0 && msg_is(final(self).diff_message, "Error running git: "@ + e@),
                GitOutput::Finished { success, stdout } => if !success {
                    r is Ok && final(self).diff_lines@.len() == 0 && msg_is(final(self).diff_message, "Not a git repository or file not tracked"@)
                } else if all_ws(utf8_lossy(stdout@)) {
                    r is Ok && final(self).diff_lines@.len() == 0 && msg_is(final(self).diff_message, "No changes in working directory"@)
                } else if !numbers_fit(diff_rows(utf8_lossy(stdout@))) {
                    r == Err::<(), DiffError>(DiffError::LineNumberOverflow)
                        && final(self).diff_lines@.len() == 0 && final(self).diff_message is None
                } else {
                    &&& r is Ok
                    &&& shows_rows(
                        final(self).diff_lines@,
                        diff_rows(utf8_lossy(stdout@)),
                        extension_text(path@),
                    )
                    &&& final(self).diff_lines@.len() == 0 ==> msg_is(final(self).diff_message, "No diff output"@)
                    &&& final(self).diff_lines@.len() > 0 ==> final(self).diff_message is None
                },
            },
    {
        self.diff_lines = Vec::new();
        self.diff_message = None;
        let stdout = match output {
            GitOutput::SpawnFailed(e) => {
                self.diff_message = Some(message_with("Error running git: ", &e));
                return Ok(());
            },
            GitOutput::Finished { success, stdout } => {
                if !success {
                    self.diff_message = Some("Not a git repository or file not tracked".to_owned());
                    return Ok(());
                }
                stdout
            },
        };
        let text = decode_lossy(&stdout);
        let chars = chars_of(text.as_str());
        if is_blank(&chars) {
            self.diff_message = Some("No changes in working directory".to_owned());
            return Ok(());
        }
        let rows = match parse_diff(&chars) {
            Some(rows) => rows,
            None => {
                return Err(DiffError::LineNumberOverflow);
            },
        };
        let ghost model = diff_rows(chars@);
        proof {
            lemma_rows_have_no_newline(chars@);
        }
        let ext = match extension_of(path.as_str()) {
            Some(e) => e,
            None => String::new(),
        };
        assert(ext@ == extension_text(path@));
        let mut lines: Vec<DiffLine> = Vec::new();
        let mut i: usize = 0;
        while i < rows.len()
            invariant
                i <= rows@.len(),
                rows@.map_values(|x: DiffRow| row_model(x)) == model,
                forall|k: int| 0 <= k < model.len() ==> crate::text::no_newline((#[trigger] model[k]).1),
                shows_rows(lines@, model.take(i as int), extension_text(path@)),
                ext@ == extension_text(path@),
            decreases rows.len() - i,
        {
            let row = &rows[i];
            proof {
                assert(model[i as int] == row_model(*row));
            }
            let segments = if row.content.as_str().is_empty() {
                let mut v: Vec<StyledSegment> = Vec::new();
                v.push(StyledSegment { text: String::new(), style: SegmentStyle::plain() });
                v
            } else {
                let hl = highlighter.highlight(row.content.as_str(), ext.as_str());
                proof {
                    lemma_single_line(row.content@);
                    assert(hl@.len() == 1);
                    assert(seq![row.content@].take(0) =~= Seq::<Seq<char>>::empty());
                    assert(hl@.drop_last() =~= Seq::<Vec<StyledSegment>>::empty());
                    assert(concat_rows(hl@.drop_last()) =~= Seq::<StyledSegment>::empty());
                    assert(concat_rows(hl@) =~= hl@[0]@);
                }
                flatten(hl)
            };
            let ghost before = lines@;
            lines.push(DiffLine { line_type: row.line_type, segments, line_number: row.line_number });
            proof {
                let m = model.take(i + 1);
                assert forall|k: int| 0 <= k < lines@.len() implies {
                    let line = #[trigger] lines@[k];
                    let row = m[k];
                    &&& line.line_type == row.0
                    &&& (match line.line_number {
                        Some(v) => Some(v as int),
                        None => None,
                    }) == row.2
                    &&& row.1.len() == 0 ==> line.segments@.len() == 1 && line.segments@[0].text@.len()
                        == 0 && line.segments@[0].style == plain_style()
                    &&& row.1.len() > 0 ==> is_prefix(segments_text(line.segments@), row.1)
                    &&& row.1.len() > 0 ==> segments_model(line.segments@) == styled_tokens(
                        syntect_tokens(chosen_syntax(extension_text(path@)), Seq::empty(), row.1),
                    )
                } by {
                    if k < i {
                        assert(lines@[k] == before[k]);
                        assert(m[k] == model.take(i as int)[k]);
                    }
                }
            }
            i += 1;
        }
        proof {
            assert(model.take(rows@.len() as int) =~= model);
        }
        if lines.len() == 0 {
            self.diff_message = Some("No diff output".to_owned());
        }
        self.diff_lines = lines;
        Ok(())
    }
}

/// Scrolling down by `a` and then by `b` is scrolling down by `a + b`.
pub proof fn lemma_scroll_down_adds(s: nat, a: nat, b: nat, max: nat)
    ensures
        scrolled_down(scrolled_down(s, a, max), b, max) == scrolled_down(s, a + b, max),
{
}

/// Scrolling up by `a` and then by `b` is scrolling up by `a + b`.
pub proof fn lemma_scroll_up_adds(s: nat, a: nat, b: nat)
    ensures
        scrolled_up(scrolled_up(s, a), b) == scrolled_up(s, a + b),
{
}

/// Scrolling down never goes past the last row, and scrolling back up by as
/// much returns to where it started when the way down was clear.
pub proof fn lemma_scroll_down_then_up(s: nat, a: nat, max: nat)
    ensures
        scrolled_down(s, a, max) <= max,
        s + a <= max ==> scrolled_up(scrolled_down(s, a, max), a) == s,
{
}

/// Where the diff has a change, jumping to the next one lands on a change.
pub proof fn lemma_next_jump_finds_change(d: Seq<DiffLine>, scroll: int, c: int)
    requires
        0 <= scroll,
        0 <= c < d.len(),
        is_change(d[c].line_type),
    ensures
        0 <= next_change_target(d, scroll) < d.len(),
        is_change(d[next_change_target(d, scroll)].line_type),
{
    let start = scroll + 1;
    let hi = if start < d.len() {
        start
    } else {
        d.len() as int
    };
    lemma_first_change(d, start, d.len() as int);
    lemma_first_change(d, 0, hi);
    if first_change(d, start, d.len() as int) >= d.len() {
        if c >= start {
            assert(!is_change(d[c].line_type));
        }
        if first_change(d, 0, hi) >= hi {
            assert(!is_change(d[c].line_type));
        }
    }
}

/// Where the diff has a change, jumping to the previous one lands on a
/// change.
pub proof fn lemma_prev_jump_finds_change(d: Seq<DiffLine>, scroll: int, c: int)
    requires
        0 <= scroll,
        0 <= c < d.len(),
        is_change(d[c].line_type),
    ensures
        0 <= prev_change_target(d, scroll) < d.len(),
        is_change(d[prev_change_target(d, scroll)].line_type),
{
    let hi = if scroll < d.len() {
        scroll
    } else {
        d.len() as int
    };
    lemma_last_change(d, 0, hi);
    lemma_last_change(d, scroll + 1, d.len() as int);
    if last_change(d, 0, hi) < 0 && last_change(d, scroll + 1, d.len() as int) < 0 {
        if c < hi {
            assert(!is_change(d[c].line_type));
        } else if c > scroll {
            assert(!is_change(d[c].line_type));
        } else {
            assert(c == scroll);
        }
    }
}

/// Jumping to the next change takes the nearest change below the scroll,
/// passing over no change on the way; where there is none below, it wraps
/// to the topmost change of the diff.
pub proof fn lemma_next_jump_takes_nearest(d: Seq<DiffLine>, scroll: int, c: int)
    requires
        0 <= scroll,
        0 <= c < d.len(),
        is_change(d[c].line_type),
    ensures
        c > scroll ==> scroll < next_change_target(d, scroll) <= c,
        c > scroll ==> forall|k: int|
            scroll < k < next_change_target(d, scroll) ==> !is_change(#[trigger] d[k].line_type),
        (forall|k: int| scroll < k < d.len() ==> !is_change(#[trigger] d[k].line_type)) ==> next_change_target(d, scroll)
            <= c,
        (forall|k: int| scroll < k < d.len() ==> !is_change(#[trigger] d[k].line_type)) ==> forall|k: int|
            0 <= k < next_change_target(d, scroll) ==> !is_change(#[trigger] d[k].line_type),
{
    let start = scroll + 1;
    let hi = if start < d.len() {
        start
    } else {
        d.len() as int
    };
    lemma_first_change(d, start, d.len() as int);
    lemma_first_change(d, 0, hi);
    lemma_next_jump_finds_change(d, scroll, c);
    if c > scroll {
        assert(first_change(d, start, d.len() as int) <= c);
    }
    if forall|k: int| scroll < k < d.len() ==> !is_change(#[trigger] d[k].line_type) {
        if first_change(d, start, d.len() as int) < d.len() {
            let a = first_change(d, start, d.len() as int);
            assert(!is_change(d[a].line_type));
        }
        assert(c < hi);
        assert(first_change(d, 0, hi) <= c);
    }
}

/// Jumping to the previous change takes the nearest change above the
/// scroll, passing over no change on the way; where there is none above, it
/// wraps to the bottom-most change of the diff.
pub proof fn lemma_prev_jump_takes_nearest(d: Seq<DiffLine>, scroll: int, c: int)
    requires
        0 <= scroll,
        0 <= c < d.len(),
        is_change(d[c].line_type),
    ensures
        c < scroll ==> c <= prev_change_target(d, scroll) < scroll,
        c < scroll ==> forall|k: int|
            prev_change_target(d, scroll) < k < scroll && k < d.len() ==> !is_change(#[trigger] d[k].line_type),
        (forall|k: int| 0 <= k < scroll && k < d.len() ==> !is_change(#[trigger] d[k].line_type)) ==> c
            <= prev_change_target(d, scroll),
        (forall|k: int| 0 <= k < scroll && k < d.len() ==> !is_change(#[trigger] d[k].line_type)) ==> forall|k: int|
            prev_change_target(d, scroll) < k < d.len() ==> !is_change(#[trigger] d[k].line_type),
{
    let hi = if scroll < d.len() {
        scroll
    } else {
        d.len() as int
    };
    lemma_last_change(d, 0, hi);
    lemma_last_change(d, scroll + 1, d.len() as int);
    lemma_prev_jump_finds_change(d, scroll, c);
    if c < scroll {
        assert(c < hi);
        assert(last_change(d, 0, hi) >= c);
    }
    if forall|k: int| 0 <= k < scroll && k < d.len() ==> !is_change(#[trigger] d[k].line_type) {
        if last_change(d, 0, hi) >= 0 {
            let a = last_change(d, 0, hi);
            assert(!is_change(d[a].line_type));
        }
        if c > scroll {
            assert(last_change(d, scroll + 1, d.len() as int) >= c);
        }
    }
}

/// Where the diff has no change, neither jump moves.
pub proof fn lemma_jumps_stay_without_changes(d: Seq<DiffLine>, scroll: int)
    requires
        0 <= scroll,
        forall|i: int| 0 <= i < d.len() ==> !is_change(#[trigger] d[i].line_type),
    ensures
        next_change_target(d, scroll) == scroll,
        prev_change_target(d, scroll) == scroll,
{
    let start = scroll + 1;
    let hi = if start < d.len() {
        start
    } else {
        d.len() as int
    };
    lemma_first_change(d, start, d.len() as int);
    lemma_first_change(d, 0, hi);
    let hp = if scroll < d.len() {
        scroll
    } else {
        d.len() as int
    };
    lemma_last_change(d, 0, hp);
    lemma_last_change(d, scroll + 1, d.len() as int);
}

/// Toggling the view mode twice gives back the mode, the file and its lines,
/// at the top.
pub proof fn lemma_toggle_twice(
    v0: CodeViewer,
    v1: CodeViewer,
    v2: CodeViewer,
    r1: Option<String>,
    r2: Option<String>,
)
    requires
        v1.mode_toggled_from(v0, r1),
        v2.mode_toggled_from(v1, r2),
    ensures
        v2.view_mode == v0.view_mode,
        v2.file_path == v0.file_path,
        v2.lines == v0.lines,
        v2.scroll == 0,
{
}

/// Switching to the diff, loading it, and switching back shows the file as
/// before: its lines and its message, in the first mode, at the top.
pub proof fn lemma_diff_and_back(
    v0: CodeViewer,
    v1: CodeViewer,
    v2: CodeViewer,
    v3: CodeViewer,
    r1: Option<String>,
    r3: Option<String>,
)
    requires
        v1.mode_toggled_from(v0, r1),
        v2.keeps_file_view(v1),
        v3.mode_toggled_from(v2, r3),
    ensures
        v3.view_mode == v0.view_mode,
        v3.lines == v0.lines,
        v3.message == v0.message,
        v3.file_path == v0.file_path,
        v3.scroll == 0,
        v0.view_mode == ViewMode::Normal ==> v3.shown_message_spec() == v0.shown_message_spec(),
{
}

} // verus!
