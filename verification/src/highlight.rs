//! Syntax highlighting: syntect does the highlighting; the library picks
//! the syntax, splits the text into lines and turns syntect's styles into
//! its own.

use vstd::prelude::*;
use crate::engine::{
    highlight_line, tokens_model, is_prefix, line_highlighter, plain_text_syntax, syntax_by_extension, syntax_listed,
    syntect_tokens, tokens_text, RawToken, SyntaxPick, TokenModel,
};
pub use crate::engine::Highlighter;
use crate::style::{segments_model, segments_text, SegmentStyle, StyledSegment, UiColor};
use crate::text::{chars_of, split_lines, string_of, text_lines, views};

verus! {

/// The style of a highlighted token: its foreground colour, bold for font
/// bit 1, underlined for bit 2, italic for bit 4 (syntect's `FontStyle`).
pub open spec fn token_style(red: u8, green: u8, blue: u8, font_bits: u8) -> SegmentStyle {
    SegmentStyle {
        fg: Some(UiColor::Rgb(red, green, blue)),
        bg: None,
        bold: font_bits & 1 != 0,
        italic: font_bits & 4 != 0,
        underlined: font_bits & 2 != 0,
    }
}

/// Converts a highlighted token's colour and font bits to a style.
pub fn convert_style(red: u8, green: u8, blue: u8, font_bits: u8) -> (r: SegmentStyle)
    ensures
        r == token_style(red, green, blue, font_bits),
{
    SegmentStyle {
        fg: Some(UiColor::Rgb(red, green, blue)),
        bg: None,
        bold: font_bits & 1 != 0,
        italic: font_bits & 4 != 0,
        underlined: font_bits & 2 != 0,
    }
}

/// Turns tokens into styled segments with the same texts.
pub fn segments_of(tokens: Vec<RawToken>) -> (r: Vec<StyledSegment>)
    ensures
        r@.len() == tokens@.len(),
        segments_text(r@) == tokens_text(tokens@),
        forall|i: int| 0 <= i < r@.len() ==> (#[trigger] r@[i]).text == tokens@[i].text && r@[i].style
            == token_style(tokens@[i].red, tokens@[i].green, tokens@[i].blue, tokens@[i].font_bits),
{
    let mut r: Vec<StyledSegment> = Vec::new();
    let mut i: usize = 0;
    while i < tokens.len()
        invariant
            i <= tokens@.len(),
            r@.len() == i,
            segments_text(r@) == tokens_text(tokens@.take(i as int)),
            forall|k: int| 0 <= k < i ==> (#[trigger] r@[k]).text == tokens@[k].text && r@[k].style
                == token_style(tokens@[k].red, tokens@[k].green, tokens@[k].blue, tokens@[k].font_bits),
        decreases tokens.len() - i,
    {
        let t = &tokens[i];
        let style = convert_style(t.red, t.green, t.blue, t.font_bits);
        let ghost before = r@;
        r.push(StyledSegment { text: t.text.clone(), style });
        proof {
            assert(r@.drop_last() =~= before);
            assert(tokens@.take(i + 1).drop_last() =~= tokens@.take(i as int));
        }
        i += 1;
    }
    proof {
        assert(tokens@.take(tokens@.len() as int) =~= tokens@);
    }
    r
}

/// Each row of `rows` is the highlighting of the matching line of `source`:
/// one row per line, each row's text a prefix of its line (the whole line
/// unless syntect stopped early; empty where it failed).
pub open spec fn highlights(rows: Seq<Vec<StyledSegment>>, source: Seq<char>) -> bool {
    &&& rows.len() == text_lines(source).len()
    &&& forall|i: int| 0 <= i < rows.len() ==> is_prefix(segments_text((#[trigger] rows[i])@), text_lines(source)[i])
}

/// The styled segments that a line's tokens give; none where syntect
/// failed.
pub open spec fn styled_tokens(t: Option<Seq<TokenModel>>) -> Seq<(Seq<char>, SegmentStyle)> {
    match t {
        Some(ts) => ts.map_values(|x: TokenModel| (x.0, token_style(x.1, x.2, x.3, x.4))),
        None => Seq::empty(),
    }
}

/// The syntax highlighting uses for an extension: the one the default set
/// finds for it, else the one it finds for "txt", else plain text.
pub open spec fn chosen_syntax(extension: Seq<char>) -> Option<Seq<char>> {
    if syntax_listed(extension) {
        Some(extension)
    } else if syntax_listed("txt"@) {
        Some("txt"@)
    } else {
        None
    }
}

/// The segments of line `i` of `lines`: syntect's tokens for it, with the
/// lines before it fed first, styled.
pub open spec fn highlighted_row(syntax: Option<Seq<char>>, lines: Seq<Seq<char>>, i: int) -> Seq<
    (Seq<char>, SegmentStyle),
> {
    styled_tokens(syntect_tokens(syntax, lines.take(i), lines[i]))
}

/// `rows` is the highlighting of `source` for `extension`: one row per line,
/// each the styled tokens that syntect gives for it, in the syntax chosen for
/// the extension, the text's lines fed in order.
pub open spec fn highlighting(rows: Seq<Vec<StyledSegment>>, source: Seq<char>, extension: Seq<char>) -> bool {
    let lines = text_lines(source);
    &&& rows.len() == lines.len()
    &&& forall|i: int| 0 <= i < rows.len() ==> segments_model((#[trigger] rows[i])@) == highlighted_row(
        chosen_syntax(extension),
        lines,
        i,
    )
}

impl Highlighter {
    /// The syntax for an extension: the one that lists it, else the one for
    /// "txt", else plain text.
    fn syntax_for(&self, extension: &str) -> (r: SyntaxPick)
        ensures
            r.key() == chosen_syntax(extension@),
    {
        match syntax_by_extension(self, extension) {
            Some(s) => s,
            None => match syntax_by_extension(self, "txt") {
                Some(s) => s,
                None => plain_text_syntax(self),
            },
        }
    }

    /// Highlights source code, one row of styled segments per line.
    /// `extension` picks the syntax (e.g. "rs", "py").
    pub fn highlight(&self, source: &str, extension: &str) -> (r: Vec<Vec<StyledSegment>>)
        ensures
            highlighting(r@, source@, extension@),
            highlights(r@, source@),
    {
        let syntax = self.syntax_for(extension);
        let mut h = line_highlighter(&syntax, self);
        let text = chars_of(source);
        let lines = split_lines(&text);
        let ghost ls = text_lines(source@);
        let ghost syn = chosen_syntax(extension@);
        let mut rows: Vec<Vec<StyledSegment>> = Vec::new();
        let mut i: usize = 0;
        proof {
            assert(ls.take(0) =~= Seq::<Seq<char>>::empty());
        }
        while i < lines.len()
            invariant
                i <= lines@.len(),
                views(lines@) == ls,
                ls == text_lines(source@),
                syn == chosen_syntax(extension@),
                h.key() == syn,
                h.fed() == ls.take(i as int),
                rows@.len() == i,
                forall|k: int| 0 <= k < i ==> is_prefix(segments_text((#[trigger] rows@[k])@), ls[k]),
                forall|k: int| 0 <= k < i ==> segments_model((#[trigger] rows@[k])@) == highlighted_row(syn, ls, k),
            decreases lines.len() - i,
        {
            let line = string_of(&lines[i]);
            proof {
                assert(views(lines@)[i as int] == lines@[i as int]@);
            }
            let got = highlight_line(&mut h, line.as_str(), self);
            let ghost toks = tokens_model(got);
            let row = match got {
                Some(tokens) => segments_of(tokens),
                None => Vec::new(),
            };
            proof {
                if row@.len() == 0 {
                    assert(segments_text(row@) =~= Seq::<char>::empty());
                }
                assert(segments_model(row@) =~= styled_tokens(toks));
                assert(ls.take(i + 1) =~= ls.take(i as int).push(ls[i as int]));
            }
            rows.push(row);
            i += 1;
        }
        rows
    }
}

} // verus!
