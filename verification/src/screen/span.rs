//! Styled text.

use vstd::prelude::*;

verus! {

#[derive(Clone, Copy, Debug, PartialEq, Eq, Structural)]
pub enum Color {
    White,
    Gray,
    Cyan,
    Red,
    Orange,
    Yellow,
    Green,
    Blue,
    Magenta,
}

/// How text looks; without a color it has that of the terminal.
#[derive(Clone, Copy, Debug, PartialEq, Eq, Structural)]
pub struct Style {
    pub color: Option<Color>,
    pub bold: bool,
}

/// A piece of text in one style.
#[derive(Debug)]
pub struct Span {
    pub text: String,
    pub style: Style,
}

/// The contents of a span.
pub struct Styled {
    pub text: Seq<char>,
    pub style: Style,
}

impl View for Span {
    type V = Styled;

    open spec fn view(&self) -> Styled {
        Styled { text: self.text@, style: self.style }
    }
}

/// The contents of a line of spans.
pub open spec fn line(spans: Seq<Span>) -> Seq<Styled> {
    spans.map_values(|s: Span| s@)
}

/// The contents of lines of spans.
pub open spec fn lines(rows: Seq<Vec<Span>>) -> Seq<Seq<Styled>> {
    rows.map_values(|row: Vec<Span>| line(row@))
}

/// Text in a color.
pub open spec fn colored(text: Seq<char>, color: Color) -> Styled {
    Styled { text, style: Style { color: Some(color), bold: false } }
}

/// Bold text in a color.
pub open spec fn strong(text: Seq<char>, color: Color) -> Styled {
    Styled { text, style: Style { color: Some(color), bold: true } }
}

/// Text as it is.
pub open spec fn plain(text: Seq<char>) -> Styled {
    Styled { text, style: Style { color: None, bold: false } }
}

/// Bold text in the color of the terminal.
pub open spec fn bold(text: Seq<char>) -> Styled {
    Styled { text, style: Style { color: None, bold: true } }
}

pub fn colored_span(text: &str, color: Color) -> (r: Span)
    ensures
        r@ == colored(text@, color),
{
    Span { text: String::from_str(text), style: Style { color: Some(color), bold: false } }
}

pub fn strong_span(text: &str, color: Color) -> (r: Span)
    ensures
        r@ == strong(text@, color),
{
    Span { text: String::from_str(text), style: Style { color: Some(color), bold: true } }
}

pub fn plain_span(text: &str) -> (r: Span)
    ensures
        r@ == plain(text@),
{
    Span { text: String::from_str(text), style: Style { color: None, bold: false } }
}

pub fn bold_span(text: &str) -> (r: Span)
    ensures
        r@ == bold(text@),
{
    Span { text: String::from_str(text), style: Style { color: None, bold: true } }
}

/// A line without spans.
pub fn empty_line() -> (r: Vec<Span>)
    ensures
        line(r@) == Seq::<Styled>::empty(),
{
    let r: Vec<Span> = Vec::new();
    assert(line(r@) =~= Seq::<Styled>::empty());
    r
}

/// Adds a span behind the others.
pub fn put(spans: &mut Vec<Span>, span: Span)
    ensures
        line(final(spans)@) == line(old(spans)@).push(span@),
{
    spans.push(span);
    assert(line(spans@) =~= line(old(spans)@).push(span@));
}

} // verus!
