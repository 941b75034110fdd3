use vstd::prelude::*;
use vstd::string::*;

verus! {

/// How a piece of text is to look on the terminal.
#[derive(Debug, Clone, Copy, PartialEq, Eq, Structural)]
pub enum Style {
    Plain,
    Bold,
    DarkGrey,
    Grey,
    Blue,
    Yellow,
    Cyan,
    Green,
    Red,
}

/// A piece of text with the style it is shown in.
#[derive(Debug)]
pub struct Span {
    pub style: Style,
    pub text: String,
}

/// A `Span` with its text as a plain sequence of characters.
pub struct SpanView {
    pub style: Style,
    pub text: Seq<char>,
}

impl View for Span {
    type V = SpanView;

    open spec fn view(&self) -> SpanView {
        SpanView { style: self.style, text: self.text@ }
    }
}

/// The spans of a line, each as plain text with its style.
pub open spec fn spans(line: Seq<Span>) -> Seq<SpanView> {
    line.map_values(|span: Span| span@)
}

/// A span of the given style and text.
pub open spec fn styled(style: Style, text: Seq<char>) -> SpanView {
    SpanView { style, text }
}

/// The text of a line with the styles left out.
pub open spec fn plain_text(line: Seq<SpanView>) -> Seq<char>
    decreases line.len(),
{
    if line.len() == 0 {
        Seq::<char>::empty()
    } else {
        plain_text(line.drop_last()) + line.last().text
    }
}

impl Span {
    /// A span of the given style that holds `text`.
    pub fn new(style: Style, text: &str) -> (span: Span)
        ensures
            span@ == styled(style, text@),
    {
        Span { style, text: String::from_str(text) }
    }
}

} // verus!
