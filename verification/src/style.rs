//! Colours, styles and styled text.

use vstd::prelude::*;

verus! {

/// A colour of the window.
#[derive(Clone, Copy, PartialEq, Eq, Debug, Structural)]
pub enum Color {
    Black,
    Blue,
    Cyan,
    DarkGray,
    Gray,
    LightGreen,
    LightRed,
    LightYellow,
    White,
    Yellow,
    /// A colour of the palette.
    Indexed(u8),
    /// Red, green and blue.
    Rgb(u8, u8, u8),
}

/// How text looks; a colour that is not set is that of the ground.
#[derive(Clone, Copy, PartialEq, Eq, Debug)]
pub struct Style {
    pub fg: Option<Color>,
    pub bg: Option<Color>,
    pub bold: bool,
    pub italic: bool,
    pub underlined: bool,
    pub reversed: bool,
}

/// The style with these colours and nothing else.
pub open spec fn colors(fg: Option<Color>, bg: Option<Color>) -> Style {
    Style { fg, bg, bold: false, italic: false, underlined: false, reversed: false }
}

/// The style with these colours and nothing else.
pub fn style_of(fg: Option<Color>, bg: Option<Color>) -> (r: Style)
    ensures
        r == colors(fg, bg),
{
    Style { fg, bg, bold: false, italic: false, underlined: false, reversed: false }
}

/// A piece of text in one style.
#[derive(Debug)]
pub struct Span {
    pub text: String,
    pub style: Style,
}

/// The model of `Span`.
#[verifier::ext_equal]
pub struct SpanState {
    pub text: Seq<char>,
    pub style: Style,
}

impl View for Span {
    type V = SpanState;

    open spec fn view(&self) -> SpanState {
        SpanState { text: self.text@, style: self.style }
    }
}

/// The models of the pieces.
pub open spec fn span_states(spans: Seq<Span>) -> Seq<SpanState> {
    spans.map_values(|s: Span| s@)
}

/// A piece of text without a style of its own.
pub open spec fn raw(text: Seq<char>) -> SpanState {
    SpanState { text, style: colors(None, None) }
}

/// A piece of text without a style of its own.
pub fn raw_span(text: String) -> (r: Span)
    ensures
        r@ == raw(text@),
{
    Span { text, style: style_of(None, None) }
}

/// A piece of text in these colours.
pub open spec fn colored(text: Seq<char>, fg: Option<Color>, bg: Option<Color>) -> SpanState {
    SpanState { text, style: colors(fg, bg) }
}

/// A piece of text in these colours.
pub fn colored_span(text: String, fg: Option<Color>, bg: Option<Color>) -> (r: Span)
    ensures
        r@ == colored(text@, fg, bg),
{
    Span { text, style: style_of(fg, bg) }
}

} // verus!
