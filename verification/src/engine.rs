//! The boundary with syntect. A highlighter holds syntect's default syntax
//! set and theme, which syntect ships inside the crate; nothing else builds
//! one. The handles that this module hands out record, as ghost state, which
//! syntax they stand for and which lines have been fed to them; only the
//! trusted wrappers below build or advance them, so what a handle records is
//! what syntect was given.

use vstd::prelude::*;
use syntect::easy::HighlightLines;
use syntect::highlighting::Theme;
use syntect::parsing::{SyntaxReference, SyntaxSet};

verus! {

#[verifier::external_type_specification]
#[verifier::external_body]
pub struct ExSyntaxSet(SyntaxSet);

#[verifier::external_type_specification]
#[verifier::external_body]
pub struct ExSyntaxReference(SyntaxReference);

#[verifier::external_type_specification]
#[verifier::external_body]
pub struct ExTheme(Theme);

#[verifier::external_type_specification]
#[verifier::external_body]
pub struct ExHighlightLines<'a>(HighlightLines<'a>);

/// A token as syntect's highlighter hands it out: its text, its foreground
/// colour and the bits of its font style.
pub struct RawToken {
    pub text: String,
    pub red: u8,
    pub green: u8,
    pub blue: u8,
    pub font_bits: u8,
}

/// A token as plain values: text, red, green, blue, font bits.
pub type TokenModel = (Seq<char>, u8, u8, u8, u8);

/// The plain values of a token.
pub open spec fn token_model(t: RawToken) -> TokenModel {
    (t.text@, t.red, t.green, t.blue, t.font_bits)
}

/// The plain values of what a line's highlighting gave.
pub open spec fn tokens_model(r: Option<Vec<RawToken>>) -> Option<Seq<TokenModel>> {
    match r {
        Some(v) => Some(v@.map_values(|t: RawToken| token_model(t))),
        None => None,
    }
}

/// The text of a row of tokens, joined.
pub open spec fn tokens_text(v: Seq<RawToken>) -> Seq<char>
    decreases v.len(),
{
    if v.len() == 0 {
        Seq::empty()
    } else {
        tokens_text(v.drop_last()) + v.last().text@
    }
}

/// `p` is a prefix of `s`.
pub open spec fn is_prefix(p: Seq<char>, s: Seq<char>) -> bool {
    p.len() <= s.len() && s.take(p.len() as int) =~= p
}

/// syntect's `SyntaxSet::find_syntax_by_extension` on its default set:
/// whether some syntax lists `extension` (ignoring ASCII case). The default
/// set is fixed, so this depends on the extension alone.
pub uninterp spec fn syntax_listed(extension: Seq<char>) -> bool;

/// syntect's `HighlightLines::highlight_line` with the default set and the
/// "base16-ocean.dark" theme: the tokens of `line`, for the syntax that
/// `syntax` names (`Some(e)`: the one the default set finds for extension
/// `e`; `None`: plain text), after the lines `earlier` were fed in order;
/// `None` where syntect fails. Set and theme are fixed, so this depends on
/// these values alone.
pub uninterp spec fn syntect_tokens(syntax: Option<Seq<char>>, earlier: Seq<Seq<char>>, line: Seq<char>) -> Option<
    Seq<TokenModel>,
>;

/// Wrapper around syntect for syntax highlighting.
pub struct Highlighter {
    syntax_set: SyntaxSet,
    theme: Theme,
}

/// A syntax of the default set, with the name of how it was found.
pub struct SyntaxPick<'a> {
    syntax: &'a SyntaxReference,
    key: Ghost<Option<Seq<char>>>,
}

impl<'a> SyntaxPick<'a> {
    /// How the syntax was found: `Some(e)` by extension `e`, `None` as plain
    /// text.
    pub closed spec fn key(&self) -> Option<Seq<char>> {
        self.key@
    }
}

/// syntect's line highlighter, with the syntax it highlights and the lines
/// fed to it so far.
pub struct LineHighlighter<'a> {
    inner: HighlightLines<'a>,
    key: Ghost<Option<Seq<char>>>,
    fed: Ghost<Seq<Seq<char>>>,
}

impl<'a> LineHighlighter<'a> {
    /// The syntax it highlights, as `SyntaxPick::key` names it.
    pub closed spec fn key(&self) -> Option<Seq<char>> {
        self.key@
    }

    /// The lines fed to it so far, in order.
    pub closed spec fn fed(&self) -> Seq<Seq<char>> {
        self.fed@
    }
}

/// Calls syntect's `SyntaxSet::load_defaults_newlines`: the syntaxes that
/// syntect ships, for lines that end in a newline.
#[verifier::external_body]
fn default_syntaxes() -> SyntaxSet {
    SyntaxSet::load_defaults_newlines()
}

/// Calls syntect's `ThemeSet::load_defaults` and takes its theme
/// "base16-ocean.dark", which syntect ships.
#[verifier::external_body]
fn default_theme() -> Theme {
    syntect::highlighting::ThemeSet::load_defaults().themes["base16-ocean.dark"].clone()
}

impl Highlighter {
    /// A highlighter with syntect's default syntaxes and the
    /// "base16-ocean.dark" theme.
    pub fn new() -> Self {
        Highlighter { syntax_set: default_syntaxes(), theme: default_theme() }
    }
}

/// Calls syntect's `SyntaxSet::find_syntax_by_extension` on the highlighter's
/// default set: the last syntax that lists `extension`, if any, named by
/// that extension.
#[verifier::external_body]
pub(crate) fn syntax_by_extension<'a>(h: &'a Highlighter, extension: &str) -> (r: Option<SyntaxPick<'a>>)
    ensures
        r is Some <==> syntax_listed(extension@),
        r matches Some(p) ==> p.key() == Some(extension@),
{
    h.syntax_set.find_syntax_by_extension(extension).map(|s| SyntaxPick { syntax: s, key: Ghost(Some(extension@)) })
}

/// Calls syntect's `SyntaxSet::find_syntax_plain_text` on the highlighter's
/// default set, which has that syntax.
#[verifier::external_body]
pub(crate) fn plain_text_syntax<'a>(h: &'a Highlighter) -> (r: SyntaxPick<'a>)
    ensures
        r.key() is None,
{
    SyntaxPick { syntax: h.syntax_set.find_syntax_plain_text(), key: Ghost(None) }
}

/// Calls syntect's `HighlightLines::new`: a line highlighter for the picked
/// syntax in the highlighter's theme, at the start of a text.
#[verifier::external_body]
pub(crate) fn line_highlighter<'a>(pick: &SyntaxPick, h: &'a Highlighter) -> (r: LineHighlighter<'a>)
    ensures
        r.key() == pick.key(),
        r.fed() == Seq::<Seq<char>>::empty(),
{
    LineHighlighter {
        inner: HighlightLines::new(pick.syntax, &h.theme),
        key: Ghost(pick.key()),
        fed: Ghost(Seq::empty()),
    }
}

/// Calls syntect's `HighlightLines::highlight_line`, which parses the next
/// line and hands out its tokens; `None` where it fails. The result is named
/// by `syntect_tokens` over the syntax and the lines fed before. Each
/// token's text is a non-empty slice of the line, the slices following one
/// another from the line's start, so their concatenation is a prefix of the
/// line. (syntect documents that it is the whole line; its iterator can stop
/// early on a scope-stack error, so only the prefix is stated.)
#[verifier::external_body]
pub(crate) fn highlight_line(lh: &mut LineHighlighter, line: &str, h: &Highlighter) -> (r: Option<Vec<RawToken>>)
    ensures
        tokens_model(r) == syntect_tokens(old(lh).key(), old(lh).fed(), line@),
        final(lh).key() == old(lh).key(),
        final(lh).fed() == old(lh).fed().push(line@),
        r matches Some(v) ==> is_prefix(tokens_text(v@), line@),
        r matches Some(v) ==> forall|i: int| 0 <= i < v@.len() ==> (#[trigger] v@[i]).text@.len() > 0,
{
    lh.fed = Ghost(lh.fed@.push(line@));
    lh.inner.highlight_line(line, &h.syntax_set).ok().map(|v| v.into_iter().map(|(st, t)| RawToken {
        text: t.to_string(),
        red: st.foreground.r,
        green: st.foreground.g,
        blue: st.foreground.b,
        font_bits: st.font_style.bits(),
    }).collect())
}

} // verus!
