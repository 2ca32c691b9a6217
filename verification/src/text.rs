//! Styled text: colours, text modifiers, styles that layer over one another
//! (`Style::patch`), and the span / line / text structure the renderer
//! produces. Terminal column widths come from `unicode-width`.

use vstd::prelude::*;
use unicode_width::UnicodeWidthStr;

verus! {

/// A terminal colour: one of the sixteen named colours, the terminal's
/// default (`Reset`), a 24-bit colour or a 256-colour palette index.
#[derive(Clone, Copy, Debug, PartialEq, Eq, Structural)]
pub enum Color {
    Reset,
    Black,
    Red,
    Green,
    Yellow,
    Blue,
    Magenta,
    Cyan,
    Gray,
    DarkGray,
    LightRed,
    LightGreen,
    LightYellow,
    LightBlue,
    LightMagenta,
    LightCyan,
    White,
    Rgb(u8, u8, u8),
    Indexed(u8),
}

/// A set of text modifiers.
#[derive(Clone, Copy, Debug, PartialEq, Eq, Structural)]
pub struct Modifier {
    pub bold: bool,
    pub italic: bool,
    pub underlined: bool,
    pub reversed: bool,
    pub crossed_out: bool,
}

impl Modifier {
    /// The empty set.
    pub open spec fn none() -> Modifier {
        Modifier { bold: false, italic: false, underlined: false, reversed: false, crossed_out: false }
    }

    /// Every modifier in `self` or `other`.
    pub open spec fn union(self, other: Modifier) -> Modifier {
        Modifier {
            bold: self.bold || other.bold,
            italic: self.italic || other.italic,
            underlined: self.underlined || other.underlined,
            reversed: self.reversed || other.reversed,
            crossed_out: self.crossed_out || other.crossed_out,
        }
    }

    /// Every modifier in `self` but not in `other`.
    pub open spec fn minus(self, other: Modifier) -> Modifier {
        Modifier {
            bold: self.bold && !other.bold,
            italic: self.italic && !other.italic,
            underlined: self.underlined && !other.underlined,
            reversed: self.reversed && !other.reversed,
            crossed_out: self.crossed_out && !other.crossed_out,
        }
    }

    /// The empty set.
    pub fn empty() -> (r: Modifier)
        ensures
            r == Modifier::none(),
    {
        Modifier { bold: false, italic: false, underlined: false, reversed: false, crossed_out: false }
    }

    /// Bold only.
    pub fn bold() -> (r: Modifier)
        ensures
            r == (Modifier { bold: true, ..Modifier::none() }),
    {
        Modifier { bold: true, italic: false, underlined: false, reversed: false, crossed_out: false }
    }

    /// Italic only.
    pub fn italic() -> (r: Modifier)
        ensures
            r == (Modifier { italic: true, ..Modifier::none() }),
    {
        Modifier { bold: false, italic: true, underlined: false, reversed: false, crossed_out: false }
    }

    /// Underlined only.
    pub fn underlined() -> (r: Modifier)
        ensures
            r == (Modifier { underlined: true, ..Modifier::none() }),
    {
        Modifier { bold: false, italic: false, underlined: true, reversed: false, crossed_out: false }
    }

    /// Reversed (foreground and background swapped) only.
    pub fn reversed() -> (r: Modifier)
        ensures
            r == (Modifier { reversed: true, ..Modifier::none() }),
    {
        Modifier { bold: false, italic: false, underlined: false, reversed: true, crossed_out: false }
    }

    /// Crossed-out only.
    pub fn crossed_out() -> (r: Modifier)
        ensures
            r == (Modifier { crossed_out: true, ..Modifier::none() }),
    {
        Modifier { bold: false, italic: false, underlined: false, reversed: false, crossed_out: true }
    }

    /// Every modifier in `self` or `other`.
    pub fn with(self, other: Modifier) -> (r: Modifier)
        ensures
            r == self.union(other),
    {
        Modifier {
            bold: self.bold || other.bold,
            italic: self.italic || other.italic,
            underlined: self.underlined || other.underlined,
            reversed: self.reversed || other.reversed,
            crossed_out: self.crossed_out || other.crossed_out,
        }
    }

    /// Every modifier in `self` but not in `other`.
    pub fn without(self, other: Modifier) -> (r: Modifier)
        ensures
            r == self.minus(other),
    {
        Modifier {
            bold: self.bold && !other.bold,
            italic: self.italic && !other.italic,
            underlined: self.underlined && !other.underlined,
            reversed: self.reversed && !other.reversed,
            crossed_out: self.crossed_out && !other.crossed_out,
        }
    }
}

/// A text style: optional foreground and background colours, the modifiers
/// it turns on (`add_modifier`) and the ones it turns off (`sub_modifier`).
/// A `None` colour leaves whatever lies underneath in place.
#[derive(Clone, Copy, Debug, PartialEq, Eq, Structural)]
pub struct Style {
    pub fg: Option<Color>,
    pub bg: Option<Color>,
    pub add_modifier: Modifier,
    pub sub_modifier: Modifier,
}

/// The style that changes nothing.
pub open spec fn plain_style() -> Style {
    Style { fg: None, bg: None, add_modifier: Modifier::none(), sub_modifier: Modifier::none() }
}

impl Style {
    /// `other` layered over `self`: `other`'s colours win where set, its
    /// added modifiers are added and its removed modifiers removed.
    pub open spec fn layered(self, other: Style) -> Style {
        Style {
            fg: if other.fg is Some { other.fg } else { self.fg },
            bg: if other.bg is Some { other.bg } else { self.bg },
            add_modifier: self.add_modifier.minus(other.sub_modifier).union(other.add_modifier),
            sub_modifier: self.sub_modifier.minus(other.add_modifier).union(other.sub_modifier),
        }
    }

    /// `self` with foreground `c`.
    pub open spec fn with_fg(self, c: Color) -> Style {
        Style { fg: Some(c), ..self }
    }

    /// `self` with the modifiers `m` turned on.
    pub open spec fn adding(self, m: Modifier) -> Style {
        Style {
            add_modifier: self.add_modifier.union(m),
            sub_modifier: self.sub_modifier.minus(m),
            ..self
        }
    }

    /// Layers `other` over `self` (as ratatui's `Style::patch`).
    pub fn patch(self, other: Style) -> (r: Style)
        ensures
            r == self.layered(other),
    {
        Style {
            fg: if other.fg.is_some() { other.fg } else { self.fg },
            bg: if other.bg.is_some() { other.bg } else { self.bg },
            add_modifier: self.add_modifier.without(other.sub_modifier).with(other.add_modifier),
            sub_modifier: self.sub_modifier.without(other.add_modifier).with(other.sub_modifier),
        }
    }

    /// `self` with foreground `c`.
    pub fn fg(self, c: Color) -> (r: Style)
        ensures
            r == (Style { fg: Some(c), ..self }),
    {
        Style { fg: Some(c), ..self }
    }

    /// `self` with background `c`.
    pub fn bg(self, c: Color) -> (r: Style)
        ensures
            r == (Style { bg: Some(c), ..self }),
    {
        Style { bg: Some(c), ..self }
    }

    /// `self` with the modifiers `m` turned on (and no longer turned off).
    pub fn add_modifier(self, m: Modifier) -> (r: Style)
        ensures
            r == self.adding(m),
    {
        Style { add_modifier: self.add_modifier.with(m), sub_modifier: self.sub_modifier.without(m), ..self }
    }
}

impl Default for Style {
    fn default() -> (r: Style)
        ensures
            r == plain_style(),
    {
        Style { fg: None, bg: None, add_modifier: Modifier::empty(), sub_modifier: Modifier::empty() }
    }
}

/// A run of text in one style.
#[derive(Debug)]
pub struct Span {
    pub content: String,
    pub style: Style,
}

/// The value a [`Span`] denotes.
pub struct SpanView {
    pub content: Seq<char>,
    pub style: Style,
}

impl View for Span {
    type V = SpanView;

    open spec fn view(&self) -> SpanView {
        SpanView { content: self.content@, style: self.style }
    }
}

impl Span {
    /// A span of `content` in `style`.
    pub fn styled(content: String, style: Style) -> (r: Span)
        ensures
            r@ == (SpanView { content: content@, style }),
    {
        Span { content, style }
    }

    /// An equal, independent copy.
    pub fn duplicate(&self) -> (r: Span)
        ensures
            r@ == self@,
    {
        Span { content: self.content.clone(), style: self.style }
    }
}

/// One display line: a sequence of spans.
#[derive(Debug)]
pub struct Line {
    pub spans: Vec<Span>,
}

/// The spans a line's value is made of.
pub open spec fn spans_view(spans: Seq<Span>) -> Seq<SpanView> {
    spans.map_values(|s: Span| s@)
}

impl View for Line {
    type V = Seq<SpanView>;

    open spec fn view(&self) -> Seq<SpanView> {
        spans_view(self.spans@)
    }
}

impl Line {
    /// A line made of `spans`.
    pub fn from_spans(spans: Vec<Span>) -> (r: Line)
        ensures
            r@ == spans_view(spans@),
    {
        Line { spans }
    }

    /// A line with no spans.
    pub fn blank() -> (r: Line)
        ensures
            r@ == Seq::<SpanView>::empty(),
    {
        let r = Line { spans: Vec::new() };
        assert(r@ =~= Seq::<SpanView>::empty());
        r
    }

    /// A line holding the single span `s`.
    pub fn single(s: Span) -> (r: Line)
        ensures
            r@ == seq![s@],
    {
        let mut spans = Vec::new();
        spans.push(s);
        let r = Line { spans };
        assert(r@ =~= seq![r.spans@[0]@]);
        r
    }

    /// An equal, independent copy.
    pub fn duplicate(&self) -> (r: Line)
        ensures
            r@ == self@,
    {
        let mut spans: Vec<Span> = Vec::new();
        let mut i: usize = 0;
        while i < self.spans.len()
            invariant
                i <= self.spans@.len(),
                spans_view(spans@) == spans_view(self.spans@).subrange(0, i as int),
            decreases self.spans.len() - i,
        {
            let s = self.spans[i].duplicate();
            let ghost before = spans@;
            spans.push(s);
            proof {
                assert(spans_view(spans@) =~= spans_view(before).push(s@));
                assert(spans_view(self.spans@).subrange(0, i + 1) =~= spans_view(
                    self.spans@,
                ).subrange(0, i as int).push(self.spans@[i as int]@));
            }
            i = i + 1;
        }
        assert(spans_view(self.spans@).subrange(0, self.spans@.len() as int) =~= spans_view(
            self.spans@,
        ));
        Line { spans }
    }
}

/// A block of display lines.
#[derive(Debug)]
pub struct Text {
    pub lines: Vec<Line>,
}

/// The values of a sequence of lines.
pub open spec fn lines_view(lines: Seq<Line>) -> Seq<Seq<SpanView>> {
    lines.map_values(|l: Line| l@)
}

impl View for Text {
    type V = Seq<Seq<SpanView>>;

    open spec fn view(&self) -> Seq<Seq<SpanView>> {
        lines_view(self.lines@)
    }
}

/// The terminal column width of a string, as `unicode-width`'s
/// `UnicodeWidthStr::width` computes it.
pub uninterp spec fn display_width(s: Seq<char>) -> usize;

/// Column width of `s` on a terminal.
///
/// Trusted: calls `unicode_width::UnicodeWidthStr::width`, which folds
/// per-character widths over the string; its source starts that fold at 0,
/// so the empty string is 0 columns wide.
#[verifier::external_body]
pub fn str_width(s: &str) -> (r: usize)
    ensures
        r == display_width(s@),
        s@.len() == 0 ==> r == 0,
{
    s.width()
}

} // verus!
