//! Syntax highlighting of fenced code blocks with syntect's bundled
//! syntaxes and themes, turned into styled display lines.

use vstd::prelude::*;
use syntect::easy::HighlightLines;
use syntect::highlighting::{FontStyle, ThemeSet};
use syntect::parsing::SyntaxSet;
use syntect::util::LinesWithEndings;
use crate::chars::{from_chars, to_chars, trim_newlines, trim_newlines_len};
use crate::text::{Color, Line, Modifier, Span, SpanView, Style};

verus! {

#[verifier::external_type_specification]
#[verifier::external_body]
pub struct ExSyntaxSet(SyntaxSet);

#[verifier::external_type_specification]
#[verifier::external_body]
pub struct ExThemeSet(ThemeSet);

/// One highlighted run of a source line: its foreground colour, font
/// style, and text (as syntect reports it, line ending included).
pub struct HlRange {
    pub r: u8,
    pub g: u8,
    pub b: u8,
    pub bold: bool,
    pub italic: bool,
    pub underline: bool,
    pub text: String,
}

/// The value an [`HlRange`] denotes.
pub struct HlRangeView {
    pub r: u8,
    pub g: u8,
    pub b: u8,
    pub bold: bool,
    pub italic: bool,
    pub underline: bool,
    pub text: Seq<char>,
}

impl View for HlRange {
    type V = HlRangeView;

    open spec fn view(&self) -> HlRangeView {
        HlRangeView {
            r: self.r,
            g: self.g,
            b: self.b,
            bold: self.bold,
            italic: self.italic,
            underline: self.underline,
            text: self.text@,
        }
    }
}

/// The values of highlighted lines.
pub open spec fn hl_lines_view(v: Seq<Vec<HlRange>>) -> Seq<Seq<HlRangeView>> {
    v.map_values(|l: Vec<HlRange>| l@.map_values(|r: HlRange| r@))
}

/// Whether syntect's bundled theme set (`ThemeSet::load_defaults`) has a
/// theme called `name`.
pub uninterp spec fn is_bundled_theme(name: Seq<char>) -> bool;

/// syntect's highlighting of `code`, line by line, with the bundled syntax
/// for the fence token `lang` (plain text when there is none) and the
/// bundled theme `theme`.
pub uninterp spec fn syntect_highlight(code: Seq<char>, lang: Seq<char>, theme: Seq<char>) -> Seq<
    Seq<HlRangeView>,
>;

/// Whether syntect bundles a theme called `name`.
///
/// Trusted: loads `ThemeSet::load_defaults()` and looks `name` up in its
/// `themes` map; the answer depends on `name` alone, since the bundled set
/// is compiled into syntect. syntect documents `base16-ocean.dark` among
/// the themes `load_defaults` provides.
#[verifier::external_body]
pub fn bundled_theme_exists(name: &str) -> (r: bool)
    ensures
        r == is_bundled_theme(name@),
        name@ == "base16-ocean.dark"@ ==> r,
{
    ThemeSet::load_defaults().themes.contains_key(name)
}

/// The name of one of syntect's bundled themes.
#[derive(Debug)]
pub struct SyntaxTheme {
    name: String,
}

impl Clone for SyntaxTheme {
    fn clone(&self) -> (r: Self)
        ensures
            r.theme_name() == self.theme_name(),
    {
        proof {
            use_type_invariant(self);
        }
        SyntaxTheme { name: self.name.clone() }
    }
}

impl SyntaxTheme {
    #[verifier::type_invariant]
    spec fn is_bundled(self) -> bool {
        is_bundled_theme(self.name@)
    }

    /// The theme's name.
    pub closed spec fn theme_name(self) -> Seq<char> {
        self.name@
    }

    /// The bundled theme called `name`, if syntect has one.
    pub fn bundled(name: &str) -> (r: Option<SyntaxTheme>)
        ensures
            r is Some <==> is_bundled_theme(name@),
            r matches Some(t) ==> t.theme_name() == name@,
            name@ == "base16-ocean.dark"@ ==> r is Some,
    {
        if bundled_theme_exists(name) {
            Some(SyntaxTheme { name: name.to_owned() })
        } else {
            None
        }
    }

    /// The theme's name.
    pub fn name(&self) -> (r: &str)
        ensures
            r@ == self.theme_name(),
            is_bundled_theme(r@),
    {
        proof {
            use_type_invariant(self);
        }
        self.name.as_str()
    }
}

/// syntect's bundled syntaxes and themes, loaded once and reused for every
/// code block of a document.
pub struct CodeHighlighter {
    syntaxes: SyntaxSet,
    themes: ThemeSet,
}

impl CodeHighlighter {
    /// Loads syntect's bundled syntaxes (newline-terminated flavour) and
    /// themes.
    ///
    /// Trusted: calls `SyntaxSet::load_defaults_newlines` and
    /// `ThemeSet::load_defaults`; these are the only values the fields ever
    /// hold, which is what [`CodeHighlighter::highlight`] relies on.
    #[verifier::external_body]
    pub fn load_defaults() -> CodeHighlighter {
        CodeHighlighter {
            syntaxes: SyntaxSet::load_defaults_newlines(),
            themes: ThemeSet::load_defaults(),
        }
    }

    /// Highlights `code` line by line (each line keeping its line ending)
    /// with the syntax for the fence token `lang`, or plain text when no
    /// bundled syntax matches, in the bundled theme `theme`.
    ///
    /// Trusted: looks the syntax up with `SyntaxSet::find_syntax_by_token`
    /// (falling back to `find_syntax_plain_text`), runs
    /// `HighlightLines::highlight_line` over `LinesWithEndings`, taking an
    /// empty run list for a line syntect fails on, and copies each run's
    /// foreground colour, font-style bits and text. The result is named, not
    /// stated: it depends only on the three strings, since the syntax and
    /// theme sets are always syntect's bundled ones.
    #[verifier::external_body]
    pub fn highlight(&self, code: &str, lang: &str, theme: &str) -> (r: Vec<Vec<HlRange>>)
        requires
            is_bundled_theme(theme@),
        ensures
            hl_lines_view(r@) == syntect_highlight(code@, lang@, theme@),
    {
        let syntax = self.syntaxes.find_syntax_by_token(lang)
            .unwrap_or_else(|| self.syntaxes.find_syntax_plain_text());
        let mut h = HighlightLines::new(syntax, &self.themes.themes[theme]);
        LinesWithEndings::from(code).map(|line| {
            h.highlight_line(line, &self.syntaxes).unwrap_or_default().into_iter().map(|(s, t)| {
                let (c, f) = (s.foreground, s.font_style);
                HlRange { r: c.r, g: c.g, b: c.b, bold: f.contains(FontStyle::BOLD),
                    italic: f.contains(FontStyle::ITALIC),
                    underline: f.contains(FontStyle::UNDERLINE), text: t.to_string() }
            }).collect()
        }).collect()
    }
}

/// The display style of a highlighted run: its foreground colour and
/// bold / italic / underline bits, nothing else.
pub open spec fn run_style(r: HlRangeView) -> Style {
    Style {
        fg: Some(Color::Rgb(r.r, r.g, r.b)),
        bg: None,
        add_modifier: Modifier {
            bold: r.bold,
            italic: r.italic,
            underlined: r.underline,
            reversed: false,
            crossed_out: false,
        },
        sub_modifier: Modifier::none(),
    }
}

/// Spans for the highlighted runs `rs`: each run's text without its line
/// ending, in its own style layered with `bg`; runs left empty are dropped.
pub open spec fn run_spans(rs: Seq<HlRangeView>, bg: Style) -> Seq<SpanView>
    decreases rs.len(),
{
    if rs.len() == 0 {
        Seq::empty()
    } else {
        let prev = run_spans(rs.drop_last(), bg);
        let t = trim_newlines(rs.last().text);
        if t.len() == 0 {
            prev
        } else {
            prev.push(SpanView { content: t, style: run_style(rs.last()).layered(bg) })
        }
    }
}

/// The display line for one highlighted source line: a two-space indent in
/// `bg`, then its runs.
pub open spec fn code_line(rs: Seq<HlRangeView>, bg: Style) -> Seq<SpanView> {
    seq![SpanView { content: seq![' ', ' '], style: bg }] + run_spans(rs, bg)
}

/// The display lines for highlighted source lines `hl`.
pub open spec fn code_lines(hl: Seq<Seq<HlRangeView>>, bg: Style) -> Seq<Seq<SpanView>> {
    hl.map_values(|rs: Seq<HlRangeView>| code_line(rs, bg))
}

/// The display style of a highlighted run (as `syn_style_to_ratatui`).
pub fn syn_style_to_style(r: &HlRange) -> (s: Style)
    ensures
        s == run_style(r@),
{
    let mut modifier = Modifier::empty();
    if r.bold {
        modifier = modifier.with(Modifier::bold());
    }
    if r.italic {
        modifier = modifier.with(Modifier::italic());
    }
    if r.underline {
        modifier = modifier.with(Modifier::underlined());
    }
    Style::default().fg(Color::Rgb(r.r, r.g, r.b)).add_modifier(modifier)
}

/// The display line for one highlighted source line's runs `rs`: a
/// two-space indent in `bg`, then each run's text without its line ending,
/// in the run's style layered with `bg`, skipping runs left empty.
pub fn code_line_spans(rs: &Vec<HlRange>, bg: Style) -> (line: Line)
    ensures
        line@ == code_line(rs@.map_values(|r: HlRange| r@), bg),
{
    let ghost rv = rs@.map_values(|r: HlRange| r@);
    let mut spans: Vec<Span> = Vec::new();
    spans.push(Span::styled(from_chars(&['\u{20}', '\u{20}']), bg));
    let mut i: usize = 0;
    assert(crate::text::spans_view(spans@) =~= seq![SpanView { content: seq![' ', ' '], style: bg }]
        + run_spans(rv.subrange(0, 0), bg));
    while i < rs.len()
        invariant
            i <= rs@.len(),
            rv == rs@.map_values(|r: HlRange| r@),
            crate::text::spans_view(spans@) == seq![SpanView { content: seq![' ', ' '], style: bg }]
                + run_spans(rv.subrange(0, i as int), bg),
        decreases rs.len() - i,
    {
        let r = &rs[i];
        let cs = to_chars(r.text.as_str());
        let n = trim_newlines_len(cs.as_slice());
        let ghost before = spans@;
        assert(rv.subrange(0, i + 1).drop_last() == rv.subrange(0, i as int));
        if n > 0 {
            let t = from_chars(&cs.as_slice()[0..n]);
            let st = syn_style_to_style(r).patch(bg);
            spans.push(Span::styled(t, st));
            assert(crate::text::spans_view(spans@) =~= crate::text::spans_view(before).push(
                spans@[spans@.len() - 1]@,
            ));
        }
        i = i + 1;
    }
    assert(rv.subrange(0, rs@.len() as int) == rv);
    Line::from_spans(spans)
}

/// Appends the display lines for syntax-highlighted `code` (fence token
/// `lang`, theme `theme`) to `lines`: each source line indented by two
/// columns on the code-block background `bg`.
pub fn highlight_code_block(
    code: &str,
    lang: &str,
    hl: &CodeHighlighter,
    theme: &SyntaxTheme,
    bg: Style,
    lines: &mut Vec<Line>,
)
    ensures
        crate::text::lines_view(final(lines)@) == crate::text::lines_view(old(lines)@) + code_lines(
            syntect_highlight(code@, lang@, theme.theme_name()),
            bg,
        ),
{
    let name = theme.name();
    let ranges = hl.highlight(code, lang, name);
    let ghost hv = hl_lines_view(ranges@);
    let mut i: usize = 0;
    while i < ranges.len()
        invariant
            i <= ranges@.len(),
            hv == hl_lines_view(ranges@),
            crate::text::lines_view(lines@) == crate::text::lines_view(old(lines)@) + code_lines(
                hv.subrange(0, i as int),
                bg,
            ),
        decreases ranges.len() - i,
    {
        let line = code_line_spans(&ranges[i], bg);
        let ghost before = lines@;
        lines.push(line);
        proof {
            assert(crate::text::lines_view(lines@) =~= crate::text::lines_view(before).push(
                lines@[lines@.len() - 1]@,
            ));
            assert(code_lines(hv.subrange(0, i + 1), bg) =~= code_lines(
                hv.subrange(0, i as int),
                bg,
            ).push(code_line(hv[i as int], bg)));
        }
        i = i + 1;
    }
    assert(hv.subrange(0, ranges@.len() as int) == hv);
}

} // verus!
