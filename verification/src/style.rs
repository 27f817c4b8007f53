//! Colours and text styles, as the library hands them to the screen.

use vstd::prelude::*;

verus! {

/// A colour on the terminal.
#[derive(Clone, Copy, Debug, PartialEq, Eq, Structural)]
pub enum UiColor {
    Reset,
    Black,
    Red,
    Green,
    Blue,
    Cyan,
    White,
    DarkGray,
    Rgb(u8, u8, u8),
}

/// How a piece of text is drawn: colours where set, and modifiers.
#[derive(Clone, Copy, Debug, PartialEq, Eq, Structural)]
pub struct SegmentStyle {
    pub fg: Option<UiColor>,
    pub bg: Option<UiColor>,
    pub bold: bool,
    pub italic: bool,
    pub underlined: bool,
}

/// The style that sets nothing.
pub open spec fn plain_style() -> SegmentStyle {
    SegmentStyle { fg: None, bg: None, bold: false, italic: false, underlined: false }
}

impl SegmentStyle {
    /// The style that sets nothing.
    pub fn plain() -> (r: SegmentStyle)
        ensures
            r == plain_style(),
    {
        SegmentStyle { fg: None, bg: None, bold: false, italic: false, underlined: false }
    }

    /// The same style with its foreground set.
    pub fn with_fg(self, c: UiColor) -> (r: SegmentStyle)
        ensures
            r == (SegmentStyle { fg: Some(c), ..self }),
    {
        SegmentStyle { fg: Some(c), ..self }
    }

    /// The same style with its background set.
    pub fn with_bg(self, c: UiColor) -> (r: SegmentStyle)
        ensures
            r == (SegmentStyle { bg: Some(c), ..self }),
    {
        SegmentStyle { bg: Some(c), ..self }
    }

    /// The same style, bold.
    pub fn with_bold(self) -> (r: SegmentStyle)
        ensures
            r == (SegmentStyle { bold: true, ..self }),
    {
        SegmentStyle { bold: true, ..self }
    }
}

/// A segment of text with its style.
#[derive(Clone, Debug)]
pub struct StyledSegment {
    pub text: String,
    pub style: SegmentStyle,
}

/// The text of a row of segments, joined.
pub open spec fn segments_text(v: Seq<StyledSegment>) -> Seq<char>
    decreases v.len(),
{
    if v.len() == 0 {
        Seq::empty()
    } else {
        segments_text(v.drop_last()) + v.last().text@
    }
}

/// The plain values of a segment: its text and style.
pub open spec fn segment_model(s: StyledSegment) -> (Seq<char>, SegmentStyle) {
    (s.text@, s.style)
}

/// The plain values of a row of segments.
pub open spec fn segments_model(v: Seq<StyledSegment>) -> Seq<(Seq<char>, SegmentStyle)> {
    v.map_values(|s: StyledSegment| segment_model(s))
}

} // verus!
