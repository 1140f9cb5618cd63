//! Styled text: spans of characters, each with its colors and modifiers,
//! gathered into lines.
//!
//! All colors are palette entries, never RGB, so the view absorbs the
//! terminal emulator's theme instead of fighting it.

use vstd::prelude::*;

use crate::item;
use crate::text;

verus! {

/// A palette color.
#[derive(Clone, Copy, Debug, PartialEq, Eq, Structural)]
pub enum Color {
    Green,
    Red,
    Yellow,
    Cyan,
    Magenta,
}

/// A foreground color, if any, and the modifiers that are on.
#[derive(Clone, Copy, Debug, PartialEq, Eq, Structural)]
pub struct Style {
    pub fg: Option<Color>,
    pub bold: bool,
    pub dim: bool,
    pub underlined: bool,
    pub crossed_out: bool,
    pub reversed: bool,
}

/// A run of characters in one style.
#[derive(Debug, PartialEq, Eq)]
pub struct Span {
    pub content: String,
    pub style: Style,
}

/// A display line. Its own style lies beneath the styles of its spans.
#[derive(Debug, PartialEq, Eq)]
pub struct StyledLine {
    pub spans: Vec<Span>,
    pub style: Style,
}

/// The mathematical model of a `Span`.
#[verifier::ext_equal]
pub struct SpanModel {
    pub content: Seq<char>,
    pub style: Style,
}

/// The mathematical model of a `StyledLine`.
#[verifier::ext_equal]
pub struct LineModel {
    pub spans: Seq<SpanModel>,
    pub style: Style,
}

impl View for Span {
    type V = SpanModel;

    open spec fn view(&self) -> SpanModel {
        SpanModel { content: self.content@, style: self.style }
    }
}

impl View for StyledLine {
    type V = LineModel;

    open spec fn view(&self) -> LineModel {
        LineModel { spans: item::views(self.spans@), style: self.style }
    }
}

/// No color, no modifier.
pub open spec fn plain() -> Style {
    Style {
        fg: None,
        bold: false,
        dim: false,
        underlined: false,
        crossed_out: false,
        reversed: false,
    }
}

/// A line of one unstyled span.
pub open spec fn one_span(content: Seq<char>, style: Style) -> LineModel {
    LineModel { spans: seq![SpanModel { content, style: plain() }], style }
}

/// A line without spans.
pub open spec fn blank() -> LineModel {
    LineModel { spans: seq![], style: plain() }
}

/// The characters of a sequence of spans.
pub open spec fn spans_text(spans: Seq<SpanModel>) -> Seq<char>
    decreases spans.len(),
{
    if spans.len() == 0 {
        seq![]
    } else {
        spans_text(spans.drop_last()) + spans.last().content
    }
}

impl Style {
    /// No color, no modifier.
    pub fn plain() -> (style: Self)
        ensures
            style == plain(),
    {
        Style {
            fg: None,
            bold: false,
            dim: false,
            underlined: false,
            crossed_out: false,
            reversed: false,
        }
    }

    /// The style in another color.
    pub fn color(self, color: Color) -> (style: Self)
        ensures
            style == (Style { fg: Some(color), ..self }),
    {
        Style { fg: Some(color), ..self }
    }

    /// The style in bold.
    pub fn bold(self) -> (style: Self)
        ensures
            style == (Style { bold: true, ..self }),
    {
        Style { bold: true, ..self }
    }

    /// The style, dimmed.
    pub fn dim(self) -> (style: Self)
        ensures
            style == (Style { dim: true, ..self }),
    {
        Style { dim: true, ..self }
    }

    /// The style, underlined.
    pub fn underlined(self) -> (style: Self)
        ensures
            style == (Style { underlined: true, ..self }),
    {
        Style { underlined: true, ..self }
    }

    /// The style, struck out.
    pub fn crossed_out(self) -> (style: Self)
        ensures
            style == (Style { crossed_out: true, ..self }),
    {
        Style { crossed_out: true, ..self }
    }

    /// The style with foreground and background swapped.
    pub fn reversed(self) -> (style: Self)
        ensures
            style == (Style { reversed: true, ..self }),
    {
        Style { reversed: true, ..self }
    }
}

impl Clone for Span {
    fn clone(&self) -> (copy: Self)
        ensures
            copy@ == self@,
    {
        Span { content: self.content.clone(), style: self.style }
    }
}

impl Clone for StyledLine {
    fn clone(&self) -> (copy: Self)
        ensures
            copy@ == self@,
    {
        let mut spans: Vec<Span> = Vec::new();
        let mut i: usize = 0;
        while i < self.spans.len()
            invariant
                i <= self.spans@.len(),
                item::views(spans@) == item::views(self.spans@).take(i as int),
            decreases self.spans.len() - i,
        {
            let copied = self.spans[i].clone();
            proof {
                item::lemma_views_push(spans@, copied);
            }
            spans.push(copied);
            i = i + 1;
            assert(item::views(spans@) =~= item::views(self.spans@).take(i as int));
        }
        assert(item::views(self.spans@).take(i as int) =~= item::views(self.spans@));
        StyledLine { spans, style: self.style }
    }
}

impl StyledLine {
    /// A line of one unstyled span.
    pub fn of(content: String, style: Style) -> (line: Self)
        ensures
            line@ == one_span(content@, style),
    {
        let mut spans: Vec<Span> = Vec::new();
        spans.push(Span { content, style: Style::plain() });
        let line = StyledLine { spans, style };
        assert(line@.spans =~= one_span(content@, style).spans);
        line
    }

    /// A line without spans.
    pub fn blank() -> (line: Self)
        ensures
            line@ == blank(),
    {
        let line = StyledLine { spans: Vec::new(), style: Style::plain() };
        assert(line@.spans =~= seq![]);
        line
    }
}

/// Concatenates a line's spans back into plain text, for substring search.
pub fn line_text(line: &StyledLine) -> (content: String)
    ensures
        content@ == spans_text(line@.spans),
{
    let mut content = String::new();
    let mut i: usize = 0;
    while i < line.spans.len()
        invariant
            i <= line.spans@.len(),
            content@ == spans_text(line@.spans.take(i as int)),
        decreases line.spans.len() - i,
    {
        proof {
            assert(line@.spans.take(i + 1).drop_last() =~= line@.spans.take(i as int));
            assert(line@.spans.take(i + 1).last() == line.spans@[i as int]@);
        }
        content = text::join2(content.as_str(), line.spans[i].content.as_str());
        i = i + 1;
    }
    assert(line@.spans.take(i as int) =~= line@.spans);
    content
}

} // verus!
