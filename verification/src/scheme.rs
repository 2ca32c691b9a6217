//! Colour schemes: the scheme-file model (styles written as colour strings
//! and flags), its resolution into render-ready styles, the built-in
//! default scheme, and where a scheme comes from (command line, config
//! file, built-in default).
//!
//! A scheme file `<name>.toml` lives in a `schemes/` directory next to the
//! config file. Reading files and parsing TOML happen in the viewer around
//! this library, which hands the parsed values in.

use vstd::prelude::*;
use ratatui::style::Color as T;
use crate::chars::{concat, number_string, str_eq, to_chars, contains_char};
use crate::highlight::{is_bundled_theme, SyntaxTheme};
use crate::paths::{joined, path_join, path_parent, std_parent};
use crate::text::{plain_style, Color, Modifier, Style};

verus! {

/// The colour ratatui's `Color::from_str` parses from `s`, if any.
pub uninterp spec fn ratatui_color(s: Seq<char>) -> Option<Color>;

/// Parses a colour name (`"yellow"`, `"darkgray"`, ...), a palette index
/// or a `#rrggbb` hex value.
///
/// Trusted: calls ratatui's `FromStr for Color`, which normalises case,
/// spaces, dashes and underscores and a few aliases before matching names,
/// then tries a `u8` index and a `#rrggbb` hex value, and copies the result
/// variant for variant; the result depends on `s` alone and is named, not
/// stated.
#[verifier::external_body]
fn parse_term_color(s: &str) -> (r: Option<Color>)
    ensures
        r == ratatui_color(s@),
{
    let c = s.parse::<T>().ok()?;
    Some(match c {
        T::Reset => Color::Reset, T::Black => Color::Black, T::Red => Color::Red,
        T::Green => Color::Green, T::Yellow => Color::Yellow, T::Blue => Color::Blue,
        T::Magenta => Color::Magenta, T::Cyan => Color::Cyan, T::Gray => Color::Gray,
        T::DarkGray => Color::DarkGray, T::LightRed => Color::LightRed,
        T::LightGreen => Color::LightGreen, T::LightYellow => Color::LightYellow,
        T::LightBlue => Color::LightBlue, T::LightMagenta => Color::LightMagenta,
        T::LightCyan => Color::LightCyan, T::White => Color::White,
        T::Rgb(r, g, b) => Color::Rgb(r, g, b), T::Indexed(i) => Color::Indexed(i),
    })
}

/// One styled element as a scheme file writes it, e.g.
/// `{ fg = "yellow", bold = true }`: optional colour strings and four flags.
#[derive(Debug)]
pub struct StyleSpec {
    pub fg: Option<String>,
    pub bg: Option<String>,
    pub bold: bool,
    pub italic: bool,
    pub underline: bool,
    pub reversed: bool,
}

impl Default for StyleSpec {
    fn default() -> (r: StyleSpec)
        ensures
            r.fg is None,
            r.bg is None,
            !r.bold && !r.italic && !r.underline && !r.reversed,
    {
        StyleSpec { fg: None, bg: None, bold: false, italic: false, underline: false, reversed: false }
    }
}

/// The parse of an optional colour string: `Ok(None)` when absent, the
/// colour when it parses, and the string itself when it does not.
pub open spec fn color_field(c: Option<String>) -> Result<Option<Color>, Seq<char>> {
    match c {
        None => Ok(None),
        Some(t) => match ratatui_color(t@) {
            Some(k) => Ok(Some(k)),
            None => Err(t@),
        },
    }
}

/// The modifiers a spec's flags turn on.
pub open spec fn spec_modifier(s: StyleSpec) -> Modifier {
    Modifier {
        bold: s.bold,
        italic: s.italic,
        underlined: s.underline,
        reversed: s.reversed,
        crossed_out: false,
    }
}

/// The style a spec denotes, or the first colour string (foreground before
/// background) that does not parse.
pub open spec fn style_result(s: StyleSpec) -> Result<Style, Seq<char>> {
    match color_field(s.fg) {
        Err(v) => Err(v),
        Ok(fg) => match color_field(s.bg) {
            Err(v) => Err(v),
            Ok(bg) => Ok(Style { fg, bg, add_modifier: spec_modifier(s), sub_modifier: Modifier::none() }),
        },
    }
}

/// The style of a successful [`style_result`].
pub open spec fn ok_style(r: Result<Style, Seq<char>>) -> Style {
    match r {
        Ok(s) => s,
        Err(_) => plain_style(),
    }
}

impl StyleSpec {
    /// The style with colours `fg` and `bg` and this spec's flags as added
    /// modifiers.
    pub fn assemble(&self, fg: Option<Color>, bg: Option<Color>) -> (r: Style)
        ensures
            r == (Style { fg, bg, add_modifier: spec_modifier(*self), sub_modifier: Modifier::none() }),
    {
        let mut modifier = Modifier::empty();
        if self.bold {
            modifier = modifier.with(Modifier::bold());
        }
        if self.italic {
            modifier = modifier.with(Modifier::italic());
        }
        if self.underline {
            modifier = modifier.with(Modifier::underlined());
        }
        if self.reversed {
            modifier = modifier.with(Modifier::reversed());
        }
        let mut style = Style::default();
        if let Some(c) = fg {
            style = style.fg(c);
        }
        if let Some(c) = bg {
            style = style.bg(c);
        }
        style.add_modifier(modifier)
    }

    /// The style this spec denotes; `Err` carries the first colour string
    /// that is not a colour.
    pub fn resolve(&self) -> (r: Result<Style, String>)
        ensures
            match r {
                Ok(s) => style_result(*self) == Ok::<Style, Seq<char>>(s),
                Err(v) => style_result(*self) == Err::<Style, Seq<char>>(v@),
            },
    {
        let fg = match &self.fg {
            None => None,
            Some(t) => match parse_term_color(t.as_str()) {
                Some(c) => Some(c),
                None => return Err(t.clone()),
            },
        };
        let bg = match &self.bg {
            None => None,
            Some(t) => match parse_term_color(t.as_str()) {
                Some(c) => Some(c),
                None => return Err(t.clone()),
            },
        };
        Ok(self.assemble(fg, bg))
    }
}

/// Parses a colour string on its own (as `code_block_bg` is written).
pub fn parse_color(s: &str) -> (r: Option<Color>)
    ensures
        r == ratatui_color(s@),
{
    parse_term_color(s)
}

/// A UI-chrome field: the literal `"none"` (inherit the terminal's default
/// rendering) or a style table.
#[derive(Debug)]
pub enum UiField {
    Sentinel(String),
    Styled(StyleSpec),
}

/// What went wrong in a scheme, as plain values.
pub enum SchemeFault {
    InvalidColor { field: Seq<char>, value: Seq<char> },
    BadUiValue { field: Seq<char>, value: Seq<char> },
    UnknownTheme { name: Seq<char> },
    EmptyRuleGlyph,
    RuleWidth { width: usize },
    InvalidName { name: Seq<char> },
    NoHome { name: Seq<char> },
    MissingSchemeFile { path: Seq<char> },
}

/// Why a scheme could not be resolved.
#[derive(Debug)]
pub enum SchemeError {
    /// The colour string `value` of scheme field `field` is not a colour.
    InvalidColor { field: String, value: String },
    /// UI field `field` is a string other than `"none"`.
    BadUiValue { field: String, value: String },
    /// `markdown.syntect_theme` names no theme syntect bundles.
    UnknownTheme { name: String },
    /// `markdown.horizontal_rule_glyph` is empty.
    EmptyRuleGlyph,
    /// `markdown.horizontal_rule_width` is outside `1..=1000`.
    RuleWidth { width: usize },
    /// The scheme name could escape the `schemes/` directory.
    InvalidName { name: String },
    /// A named scheme was asked for with no home directory to look in.
    NoHome { name: String },
    /// The scheme file for a named scheme is not there.
    MissingSchemeFile { path: String },
}

impl View for SchemeError {
    type V = SchemeFault;

    open spec fn view(&self) -> SchemeFault {
        match self {
            SchemeError::InvalidColor { field, value } => SchemeFault::InvalidColor {
                field: field@,
                value: value@,
            },
            SchemeError::BadUiValue { field, value } => SchemeFault::BadUiValue {
                field: field@,
                value: value@,
            },
            SchemeError::UnknownTheme { name } => SchemeFault::UnknownTheme { name: name@ },
            SchemeError::EmptyRuleGlyph => SchemeFault::EmptyRuleGlyph,
            SchemeError::RuleWidth { width } => SchemeFault::RuleWidth { width: *width },
            SchemeError::InvalidName { name } => SchemeFault::InvalidName { name: name@ },
            SchemeError::NoHome { name } => SchemeFault::NoHome { name: name@ },
            SchemeError::MissingSchemeFile { path } => SchemeFault::MissingSchemeFile {
                path: path@,
            },
        }
    }
}

/// `s` in double quotes.
pub open spec fn quoted(s: Seq<char>) -> Seq<char> {
    seq!['"'] + s + seq!['"']
}

/// `s` as Rust's `Debug` formatting of a string writes it: in double
/// quotes, with quotes, backslashes and non-printable characters escaped.
pub uninterp spec fn debug_quoted(s: Seq<char>) -> Seq<char>;

/// The message a scheme fault is reported with.
pub open spec fn fault_message(f: SchemeFault) -> Seq<char> {
    match f {
        SchemeFault::InvalidColor { field, value } => field + ": invalid color "@ + debug_quoted(value)
            + " (expected a named color like \"yellow\" or a hex value like \"#ffcc00\")"@,
        SchemeFault::BadUiValue { field, value } => "scheme field `"@ + field
            + "`: expected \"none\" or a style table, got "@ + debug_quoted(value),
        SchemeFault::UnknownTheme { name } => "unknown syntect_theme "@ + debug_quoted(name)
            + " (markdown.syntect_theme)"@,
        SchemeFault::EmptyRuleGlyph => "markdown.horizontal_rule_glyph: must not be empty"@,
        SchemeFault::RuleWidth { width } => "markdown.horizontal_rule_width: must be between 1 and 1000 (got "@
            + crate::chars::decimal(width as nat) + ")"@,
        SchemeFault::InvalidName { name } => "invalid scheme name "@ + debug_quoted(name)
            + ": must be a plain name with no path separators or \"..\""@,
        SchemeFault::NoHome { name } => "cannot resolve scheme "@ + quoted(name)
            + ": no home directory found (is $HOME set?)"@,
        SchemeFault::MissingSchemeFile { path } => "failed to read scheme file "@ + path,
    }
}

/// `s` as `Debug` formats a string.
///
/// Trusted: formats with `{:?}` (`Debug for str`), which writes the string
/// in double quotes, escaping quotes, backslashes, control characters and
/// the characters Unicode does not count as printable; the result depends
/// on `s` alone and is named, not stated.
#[verifier::external_body]
fn debug_quote(s: &str) -> (r: String)
    ensures
        r@ == debug_quoted(s@),
{
    format!("{s:?}")
}

fn quote(s: &str) -> (r: String)
    ensures
        r@ == quoted(s@),
{
    let mut r = concat("\"", s);
    r.append("\"");
    proof {
        reveal_strlit("\"");
    }
    r
}

impl SchemeError {
    /// The human-readable message for this error.
    pub fn message(&self) -> (r: String)
        ensures
            r@ == fault_message(self@),
    {
        match self {
            SchemeError::InvalidColor { field, value } => {
                let mut m = concat(field.as_str(), ": invalid color ");
                m.append(debug_quote(value.as_str()).as_str());
                m.append(" (expected a named color like \"yellow\" or a hex value like \"#ffcc00\")");
                m
            },
            SchemeError::BadUiValue { field, value } => {
                let mut m = concat("scheme field `", field.as_str());
                m.append("`: expected \"none\" or a style table, got ");
                m.append(debug_quote(value.as_str()).as_str());
                m
            },
            SchemeError::UnknownTheme { name } => {
                let mut m = concat("unknown syntect_theme ", debug_quote(name.as_str()).as_str());
                m.append(" (markdown.syntect_theme)");
                m
            },
            SchemeError::EmptyRuleGlyph => "markdown.horizontal_rule_glyph: must not be empty".to_owned(),
            SchemeError::RuleWidth { width } => {
                let mut m = concat(
                    "markdown.horizontal_rule_width: must be between 1 and 1000 (got ",
                    number_string(*width as u64).as_str(),
                );
                m.append(")");
                m
            },
            SchemeError::InvalidName { name } => {
                let mut m = concat("invalid scheme name ", debug_quote(name.as_str()).as_str());
                m.append(": must be a plain name with no path separators or \"..\"");
                m
            },
            SchemeError::NoHome { name } => {
                let mut m = concat("cannot resolve scheme ", quote(name.as_str()).as_str());
                m.append(": no home directory found (is $HOME set?)");
                m
            },
            SchemeError::MissingSchemeFile { path } => concat("failed to read scheme file ", path.as_str()),
        }
    }
}

/// What a UI field resolves to: no style for `"none"`, the style of a
/// table, or the fault naming `ui.<field>` (a bad colour inside a table is
/// reported for ``scheme field `ui.<field>` ``).
pub open spec fn ui_result(f: UiField, field: Seq<char>) -> Result<Option<Style>, SchemeFault> {
    match f {
        UiField::Sentinel(s) => if s@ == "none"@ {
            Ok(None)
        } else {
            Err(SchemeFault::BadUiValue { field: "ui."@ + field, value: s@ })
        },
        UiField::Styled(sp) => match style_result(sp) {
            Ok(st) => Ok(Some(st)),
            Err(v) => Err(SchemeFault::InvalidColor { field: "scheme field `ui."@ + field + "`"@, value: v }),
        },
    }
}

impl UiField {
    /// Resolves this field of the `[ui]` table, named `field`.
    pub fn resolve(&self, field: &str) -> (r: Result<Option<Style>, SchemeError>)
        ensures
            match r {
                Ok(s) => ui_result(*self, field@) == Ok::<Option<Style>, SchemeFault>(s),
                Err(e) => ui_result(*self, field@) == Err::<Option<Style>, SchemeFault>(e@),
            },
    {
        match self {
            UiField::Sentinel(s) => {
                if str_eq(s.as_str(), "none") {
                    Ok(None)
                } else {
                    Err(SchemeError::BadUiValue { field: concat("ui.", field), value: s.clone() })
                }
            },
            UiField::Styled(spec) => match spec.resolve() {
                Ok(st) => Ok(Some(st)),
                Err(v) => {
                    let mut label = concat("scheme field `ui.", field);
                    label.append("`");
                    Err(SchemeError::InvalidColor { field: label, value: v })
                },
            },
        }
    }
}


/// The `[markdown]` table of a scheme file.
#[derive(Debug)]
pub struct MarkdownColors {
    pub heading_h1: StyleSpec,
    pub heading_h2: StyleSpec,
    pub heading_h3: StyleSpec,
    pub blockquote: StyleSpec,
    pub blockquote_marker: String,
    pub code_fence_marker: StyleSpec,
    pub code_block_bg: String,
    pub code_inline: StyleSpec,
    pub syntect_theme: String,
    pub list_marker: StyleSpec,
    pub link: StyleSpec,
    pub image_alt: StyleSpec,
    pub table_header_bold: bool,
    pub horizontal_rule: StyleSpec,
    pub horizontal_rule_glyph: String,
    pub horizontal_rule_width: usize,
}

/// The `[ui]` table of a scheme file.
#[derive(Debug)]
pub struct UiColors {
    pub background: UiField,
    pub border: UiField,
    pub title: UiField,
    pub status_bar: StyleSpec,
    pub selection: StyleSpec,
}

/// A scheme file: an informational name and its two tables.
#[derive(Debug)]
pub struct SchemeFile {
    pub name: Option<String>,
    pub markdown: MarkdownColors,
    pub ui: UiColors,
}

/// Resolved, render-ready markdown-element styles.
#[derive(Debug)]
pub struct MarkdownStyles {
    pub heading_h1: Style,
    pub heading_h2: Style,
    pub heading_h3: Style,
    pub blockquote: Style,
    pub blockquote_marker: String,
    pub code_fence_marker: Style,
    pub code_block_bg: Style,
    pub code_inline: Style,
    pub list_marker: Style,
    pub link: Style,
    pub image_alt: Style,
    pub table_header_bold: bool,
    pub horizontal_rule: Style,
    pub horizontal_rule_glyph: String,
    pub horizontal_rule_width: usize,
}

/// Resolved, render-ready UI-chrome styles. `None` means "inherit the
/// terminal's default rendering".
#[derive(Debug)]
pub struct UiStyles {
    pub background: Option<Style>,
    pub border: Option<Style>,
    pub title: Option<Style>,
    pub status_bar: Style,
    pub selection: Style,
}

/// A fully resolved colour scheme.
#[derive(Debug)]
pub struct Scheme {
    pub markdown: MarkdownStyles,
    pub ui: UiStyles,
    pub syntax_theme: SyntaxTheme,
}

/// The widest horizontal rule a scheme may ask for.
pub const MAX_RULE_WIDTH: usize = 1000;

/// The fault of a markdown style field `field`, if its colours do not
/// parse.
pub open spec fn md_fault(s: StyleSpec, field: Seq<char>) -> Option<SchemeFault> {
    match style_result(s) {
        Ok(_) => None,
        Err(v) => Some(SchemeFault::InvalidColor { field: "markdown."@ + field, value: v }),
    }
}

/// The fault of a UI field, if any.
pub open spec fn ui_fault(f: UiField, field: Seq<char>) -> Option<SchemeFault> {
    match ui_result(f, field) {
        Ok(_) => None,
        Err(e) => Some(e),
    }
}

/// The fault of a UI style field `field`, if its colours do not parse.
pub open spec fn ui_style_fault(s: StyleSpec, field: Seq<char>) -> Option<SchemeFault> {
    match style_result(s) {
        Ok(_) => None,
        Err(v) => Some(SchemeFault::InvalidColor { field: "ui."@ + field, value: v }),
    }
}

/// `a` if it is a fault, else `b`.
pub open spec fn first_of(a: Option<SchemeFault>, b: Option<SchemeFault>) -> Option<SchemeFault> {
    if a is Some { a } else { b }
}

/// The code-block background a colour string denotes.
pub open spec fn bg_style(c: Color) -> Style {
    Style { bg: Some(c), ..plain_style() }
}

/// The first fault of a scheme file, checked in this order: the syntax
/// theme, the rule glyph, the rule width, then each markdown field and
/// each UI field in the order the tables list them.
pub open spec fn resolve_fault(f: SchemeFile) -> Option<SchemeFault> {
    let m = f.markdown;
    let u = f.ui;
    if !is_bundled_theme(m.syntect_theme@) {
        Some(SchemeFault::UnknownTheme { name: m.syntect_theme@ })
    } else if m.horizontal_rule_glyph@.len() == 0 {
        Some(SchemeFault::EmptyRuleGlyph)
    } else if m.horizontal_rule_width == 0 || m.horizontal_rule_width > MAX_RULE_WIDTH {
        Some(SchemeFault::RuleWidth { width: m.horizontal_rule_width })
    } else {
        let bg_fault = if ratatui_color(m.code_block_bg@) is None {
            Some(SchemeFault::InvalidColor { field: "markdown.code_block_bg"@, value: m.code_block_bg@ })
        } else {
            None
        };
        first_of(md_fault(m.heading_h1, "heading_h1"@),
        first_of(md_fault(m.heading_h2, "heading_h2"@),
        first_of(md_fault(m.heading_h3, "heading_h3"@),
        first_of(md_fault(m.blockquote, "blockquote"@),
        first_of(md_fault(m.code_fence_marker, "code_fence_marker"@),
        first_of(bg_fault,
        first_of(md_fault(m.code_inline, "code_inline"@),
        first_of(md_fault(m.list_marker, "list_marker"@),
        first_of(md_fault(m.link, "link"@),
        first_of(md_fault(m.image_alt, "image_alt"@),
        first_of(md_fault(m.horizontal_rule, "horizontal_rule"@),
        first_of(ui_fault(u.background, "background"@),
        first_of(ui_fault(u.border, "border"@),
        first_of(ui_fault(u.title, "title"@),
        first_of(ui_style_fault(u.status_bar, "status_bar"@),
        ui_style_fault(u.selection, "selection"@))))))))))))))))
    }
}

/// The style a UI field resolves to, when it does.
pub open spec fn ok_ui(r: Result<Option<Style>, SchemeFault>) -> Option<Style> {
    match r {
        Ok(s) => s,
        Err(_) => None,
    }
}

/// Whether `s` is what scheme file `f` resolves to: every style resolved
/// from its spec, the background from its colour string, the strings,
/// flag and width copied, and the named syntax theme.
pub open spec fn resolves_to(f: SchemeFile, s: Scheme) -> bool {
    let m = f.markdown;
    let u = f.ui;
    &&& s.markdown.heading_h1 == ok_style(style_result(m.heading_h1))
    &&& s.markdown.heading_h2 == ok_style(style_result(m.heading_h2))
    &&& s.markdown.heading_h3 == ok_style(style_result(m.heading_h3))
    &&& s.markdown.blockquote == ok_style(style_result(m.blockquote))
    &&& s.markdown.blockquote_marker@ == m.blockquote_marker@
    &&& s.markdown.code_fence_marker == ok_style(style_result(m.code_fence_marker))
    &&& ratatui_color(m.code_block_bg@) matches Some(c) && s.markdown.code_block_bg == bg_style(c)
    &&& s.markdown.code_inline == ok_style(style_result(m.code_inline))
    &&& s.markdown.list_marker == ok_style(style_result(m.list_marker))
    &&& s.markdown.link == ok_style(style_result(m.link))
    &&& s.markdown.image_alt == ok_style(style_result(m.image_alt))
    &&& s.markdown.table_header_bold == m.table_header_bold
    &&& s.markdown.horizontal_rule == ok_style(style_result(m.horizontal_rule))
    &&& s.markdown.horizontal_rule_glyph@ == m.horizontal_rule_glyph@
    &&& s.markdown.horizontal_rule_width == m.horizontal_rule_width
    &&& s.ui.background == ok_ui(ui_result(u.background, "background"@))
    &&& s.ui.border == ok_ui(ui_result(u.border, "border"@))
    &&& s.ui.title == ok_ui(ui_result(u.title, "title"@))
    &&& s.ui.status_bar == ok_style(style_result(u.status_bar))
    &&& s.ui.selection == ok_style(style_result(u.selection))
    &&& s.syntax_theme.theme_name() == m.syntect_theme@
}

/// Whether `r` is what resolving `f` gives: its scheme when `f` has no
/// fault, else its first fault.
pub open spec fn resolve_outcome(f: SchemeFile, r: Result<Scheme, SchemeError>) -> bool {
    match r {
        Ok(s) => resolve_fault(f) is None && resolves_to(f, s),
        Err(e) => resolve_fault(f) == Some(e@),
    }
}

fn md_style(s: &StyleSpec, field: &str) -> (r: Result<Style, SchemeError>)
    ensures
        match r {
            Ok(st) => style_result(*s) == Ok::<Style, Seq<char>>(st),
            Err(e) => style_result(*s) is Err && md_fault(*s, field@) == Some(e@),
        },
{
    match s.resolve() {
        Ok(st) => Ok(st),
        Err(v) => Err(SchemeError::InvalidColor { field: concat("markdown.", field), value: v }),
    }
}

fn ui_style(s: &StyleSpec, field: &str) -> (r: Result<Style, SchemeError>)
    ensures
        match r {
            Ok(st) => style_result(*s) == Ok::<Style, Seq<char>>(st),
            Err(e) => style_result(*s) is Err && ui_style_fault(*s, field@) == Some(e@),
        },
{
    match s.resolve() {
        Ok(st) => Ok(st),
        Err(v) => Err(SchemeError::InvalidColor { field: concat("ui.", field), value: v }),
    }
}

/// Resolves a parsed scheme file into render-ready styles, or reports its
/// first fault (see [`resolve_fault`]).
#[verifier::rlimit(40)]
pub fn resolve(file: SchemeFile) -> (r: Result<Scheme, SchemeError>)
    ensures
        resolve_outcome(file, r),
        r matches Ok(s) ==> 1 <= s.markdown.horizontal_rule_width <= MAX_RULE_WIDTH
            && s.markdown.horizontal_rule_glyph@.len() > 0,
{
    let SchemeFile { name: _, markdown: m, ui: u } = file;
    let ghost f = file;
    let syntax_theme = match SyntaxTheme::bundled(m.syntect_theme.as_str()) {
        Some(t) => t,
        None => return Err(SchemeError::UnknownTheme { name: m.syntect_theme }),
    };
    if m.horizontal_rule_glyph.as_str().is_empty() {
        return Err(SchemeError::EmptyRuleGlyph);
    }
    if m.horizontal_rule_width == 0 || m.horizontal_rule_width > MAX_RULE_WIDTH {
        return Err(SchemeError::RuleWidth { width: m.horizontal_rule_width });
    }
    let heading_h1 = md_style(&m.heading_h1, "heading_h1")?;
    let heading_h2 = md_style(&m.heading_h2, "heading_h2")?;
    let heading_h3 = md_style(&m.heading_h3, "heading_h3")?;
    let blockquote = md_style(&m.blockquote, "blockquote")?;
    let code_fence_marker = md_style(&m.code_fence_marker, "code_fence_marker")?;
    let code_block_bg = match parse_color(m.code_block_bg.as_str()) {
        Some(c) => Style::default().bg(c),
        None => return Err(SchemeError::InvalidColor {
            field: "markdown.code_block_bg".to_owned(),
            value: m.code_block_bg,
        }),
    };
    let code_inline = md_style(&m.code_inline, "code_inline")?;
    let list_marker = md_style(&m.list_marker, "list_marker")?;
    let link = md_style(&m.link, "link")?;
    let image_alt = md_style(&m.image_alt, "image_alt")?;
    let horizontal_rule = md_style(&m.horizontal_rule, "horizontal_rule")?;
    let background = u.background.resolve("background")?;
    let border = u.border.resolve("border")?;
    let title = u.title.resolve("title")?;
    let status_bar = ui_style(&u.status_bar, "status_bar")?;
    let selection = ui_style(&u.selection, "selection")?;
    let markdown = MarkdownStyles {
        heading_h1,
        heading_h2,
        heading_h3,
        blockquote,
        blockquote_marker: m.blockquote_marker,
        code_fence_marker,
        code_block_bg,
        code_inline,
        list_marker,
        link,
        image_alt,
        table_header_bold: m.table_header_bold,
        horizontal_rule,
        horizontal_rule_glyph: m.horizontal_rule_glyph,
        horizontal_rule_width: m.horizontal_rule_width,
    };
    let ui = UiStyles { background, border, title, status_bar, selection };
    Ok(Scheme { markdown, ui, syntax_theme })
}


/// The name of the scheme used when nothing else is asked for.
pub open spec fn default_name() -> Seq<char> {
    "default"@
}

/// Whether `s` is the built-in scheme: yellow, cyan and magenta bold
/// headings, dark-gray italic block quotes behind a heavy vertical bar,
/// green inline code on a dark background, blue underlined links, a
/// 60-column light horizontal rule, reversed selection, the terminal's own
/// background, border and title, and the `base16-ocean.dark` syntax theme.
pub open spec fn builtin_scheme(s: Scheme) -> bool {
    &&& s.markdown.heading_h1 == plain_style().adding(Modifier { bold: true, ..Modifier::none() }).with_fg(Color::Yellow)
    &&& s.markdown.heading_h2 == plain_style().adding(Modifier { bold: true, ..Modifier::none() }).with_fg(Color::Cyan)
    &&& s.markdown.heading_h3 == plain_style().adding(Modifier { bold: true, ..Modifier::none() }).with_fg(Color::Magenta)
    &&& s.markdown.blockquote == plain_style().adding(Modifier { italic: true, ..Modifier::none() }).with_fg(Color::DarkGray)
    &&& s.markdown.blockquote_marker@ == "\u{2503} "@
    &&& s.markdown.code_fence_marker == plain_style().with_fg(Color::DarkGray)
    &&& s.markdown.code_block_bg == bg_style(Color::Rgb(30, 30, 30))
    &&& s.markdown.code_inline == bg_style(Color::Rgb(40, 40, 40)).with_fg(Color::Green)
    &&& s.markdown.list_marker == plain_style().with_fg(Color::White)
    &&& s.markdown.link == plain_style().adding(Modifier { underlined: true, ..Modifier::none() }).with_fg(Color::Blue)
    &&& s.markdown.image_alt == plain_style().with_fg(Color::Magenta)
    &&& s.markdown.table_header_bold
    &&& s.markdown.horizontal_rule == plain_style().with_fg(Color::DarkGray)
    &&& s.markdown.horizontal_rule_glyph@ == "\u{2500}"@
    &&& s.markdown.horizontal_rule_width == 60
    &&& s.ui.background is None
    &&& s.ui.border is None
    &&& s.ui.title is None
    &&& s.ui.status_bar == plain_style().with_fg(Color::DarkGray)
    &&& s.ui.selection == plain_style().adding(Modifier { reversed: true, ..Modifier::none() })
    &&& s.syntax_theme.theme_name() == "base16-ocean.dark"@
}

impl Scheme {
    /// The scheme used when no scheme file applies (see [`builtin_scheme`]).
    pub fn default_builtin() -> (r: Scheme)
        ensures
            builtin_scheme(r),
    {
        let syntax_theme = match SyntaxTheme::bundled("base16-ocean.dark") {
            Some(t) => t,
            None => vstd::pervasive::unreached(),
        };
        let markdown = MarkdownStyles {
            heading_h1: Style::default().fg(Color::Yellow).add_modifier(Modifier::bold()),
            heading_h2: Style::default().fg(Color::Cyan).add_modifier(Modifier::bold()),
            heading_h3: Style::default().fg(Color::Magenta).add_modifier(Modifier::bold()),
            blockquote: Style::default().fg(Color::DarkGray).add_modifier(Modifier::italic()),
            blockquote_marker: "\u{2503} ".to_owned(),
            code_fence_marker: Style::default().fg(Color::DarkGray),
            code_block_bg: Style::default().bg(Color::Rgb(30, 30, 30)),
            code_inline: Style::default().fg(Color::Green).bg(Color::Rgb(40, 40, 40)),
            list_marker: Style::default().fg(Color::White),
            link: Style::default().fg(Color::Blue).add_modifier(Modifier::underlined()),
            image_alt: Style::default().fg(Color::Magenta),
            table_header_bold: true,
            horizontal_rule: Style::default().fg(Color::DarkGray),
            horizontal_rule_glyph: "\u{2500}".to_owned(),
            horizontal_rule_width: 60,
        };
        let ui = UiStyles {
            background: None,
            border: None,
            title: None,
            status_bar: Style::default().fg(Color::DarkGray),
            selection: Style::default().add_modifier(Modifier::reversed()),
        };
        Scheme { markdown, ui, syntax_theme }
    }
}


/// Whether `name` is a plain file name that stays inside the `schemes/`
/// directory once `.toml` is appended: not empty, not `.` or `..`, and
/// without `/` or `\`.
pub open spec fn valid_scheme_name(name: Seq<char>) -> bool {
    &&& name.len() > 0
    &&& name != seq!['.']
    &&& name != seq!['.', '.']
    &&& !name.contains('/')
    &&& !name.contains('\\')
}

/// Rejects a scheme name that would escape the `schemes/` directory once
/// joined with `.toml` (`../../etc/passwd`, an absolute path, `.`, `..`, a
/// name with a backslash, the empty name).
pub fn validate_scheme_name(name: &str) -> (r: Result<(), SchemeError>)
    ensures
        r is Ok <==> valid_scheme_name(name@),
        r matches Err(e) ==> e@ == (SchemeFault::InvalidName { name: name@ }),
{
    let c = to_chars(name);
    let n = c.len();
    let dot = n == 1 && c[0] == '.';
    let dotdot = n == 2 && c[0] == '.' && c[1] == '.';
    proof {
        assert(dot <==> c@ == seq!['.']) by {
            if c@ == seq!['.'] {
                assert(c@[0] == '.');
            }
            if dot {
                assert(c@ =~= seq!['.']);
            }
        }
        assert(dotdot <==> c@ == seq!['.', '.']) by {
            if c@ == seq!['.', '.'] {
                assert(c@[0] == '.' && c@[1] == '.');
            }
            if dotdot {
                assert(c@ =~= seq!['.', '.']);
            }
        }
    }
    if n == 0 || dot || dotdot || contains_char(c.as_slice(), '/') || contains_char(c.as_slice(), '\\') {
        return Err(SchemeError::InvalidName { name: name.to_owned() });
    }
    Ok(())
}

/// The directory that holds scheme files for config file `config`: the
/// `schemes/` sibling of `config` (of `.` when `config` has no parent).
pub open spec fn scheme_dir(config: Seq<char>) -> Seq<char> {
    let parent = match std_parent(config) {
        Some(q) => q,
        None => seq!['.'],
    };
    joined(parent, "schemes"@)
}

/// The scheme file for `name` next to config file `config`.
pub open spec fn scheme_file_path(config: Seq<char>, name: Seq<char>) -> Seq<char> {
    joined(scheme_dir(config), name + ".toml"@)
}

/// The scheme file for `name`, in the fixed `schemes/` directory next to
/// `config_path`: a sibling lookup, not an ancestor walk.
pub fn scheme_path_for(config_path: &str, name: &str) -> (r: String)
    ensures
        r@ == scheme_file_path(config_path@, name@),
{
    let parent = match path_parent(config_path) {
        Some(q) => q,
        None => ".".to_owned(),
    };
    proof {
        reveal_strlit(".");
    }
    let dir = path_join(parent.as_str(), "schemes");
    let file = concat(name, ".toml");
    path_join(dir.as_str(), file.as_str())
}

/// The config file inside home directory `home`.
pub open spec fn config_path_in(home: Seq<char>) -> Seq<char> {
    joined(joined(home, ".term-markdown"@), "config.toml"@)
}

/// `~/.term-markdown/config.toml` for home directory `home`, or `None`
/// when there is no home directory.
pub fn default_config_path(home: Option<&str>) -> (r: Option<String>)
    ensures
        match home {
            Some(h) => r matches Some(p) && p@ == config_path_in(h@),
            None => r is None,
        },
{
    match home {
        Some(h) => {
            let d = path_join(h, ".term-markdown");
            Some(path_join(d.as_str(), "config.toml"))
        },
        None => None,
    }
}

/// Where the active scheme comes from.
#[derive(Debug)]
pub enum SchemeLocation {
    /// The built-in scheme.
    Builtin,
    /// The `default` scheme: this file if it exists, else the built-in one.
    DefaultFile(String),
    /// A named scheme, which must be read from this file.
    NamedFile(String),
}

/// A [`SchemeLocation`] as plain values.
pub enum LocationView {
    Builtin,
    DefaultFile(Seq<char>),
    NamedFile(Seq<char>),
}

impl View for SchemeLocation {
    type V = LocationView;

    open spec fn view(&self) -> LocationView {
        match self {
            SchemeLocation::Builtin => LocationView::Builtin,
            SchemeLocation::DefaultFile(p) => LocationView::DefaultFile(p@),
            SchemeLocation::NamedFile(p) => LocationView::NamedFile(p@),
        }
    }
}

/// The characters of an optional string.
pub open spec fn opt_chars(o: Option<&str>) -> Option<Seq<char>> {
    match o {
        Some(s) => Some(s@),
        None => None,
    }
}

/// The scheme name in effect: the command-line choice, else the config
/// file's `scheme`, else `default`.
pub open spec fn effective_name(config_scheme: Option<Seq<char>>, cli: Option<Seq<char>>) -> Seq<char> {
    match cli {
        Some(c) => c,
        None => match config_scheme {
            Some(s) => s,
            None => default_name(),
        },
    }
}

/// Where scheme `name` is found given the config file path (`None` when
/// there is no home directory).
pub open spec fn located(config_path: Option<Seq<char>>, name: Seq<char>) -> Result<LocationView, SchemeFault> {
    if !valid_scheme_name(name) {
        Err(SchemeFault::InvalidName { name })
    } else {
        match config_path {
            None => if name == default_name() {
                Ok(LocationView::Builtin)
            } else {
                Err(SchemeFault::NoHome { name })
            },
            Some(p) => if name == default_name() {
                Ok(LocationView::DefaultFile(scheme_file_path(p, name)))
            } else {
                Ok(LocationView::NamedFile(scheme_file_path(p, name)))
            },
        }
    }
}

/// A location result as plain values.
pub open spec fn location_result(r: Result<SchemeLocation, SchemeError>) -> Result<LocationView, SchemeFault> {
    match r {
        Ok(l) => Ok(l@),
        Err(e) => Err(e@),
    }
}

impl Scheme {
    /// Where the active scheme comes from: `cli_override` (from `--scheme`)
    /// wins over the config file's `scheme` key (`config_scheme`), which
    /// wins over `default`. The name is validated first; without a config
    /// path (no home directory) only `default` can be had, from the
    /// built-in scheme; with one, the scheme file lies in the `schemes/`
    /// directory next to it.
    pub fn locate(config_path: Option<&str>, config_scheme: Option<&str>, cli_override: Option<&str>) -> (r:
        Result<SchemeLocation, SchemeError>)
        ensures
            location_result(r) == located(
                opt_chars(config_path),
                effective_name(opt_chars(config_scheme), opt_chars(cli_override)),
            ),
    {
        let name: &str = match cli_override {
            Some(c) => c,
            None => match config_scheme {
                Some(s) => s,
                None => "default",
            },
        };
        validate_scheme_name(name)?;
        let is_default = str_eq(name, "default");
        match config_path {
            None => if is_default {
                Ok(SchemeLocation::Builtin)
            } else {
                Err(SchemeError::NoHome { name: name.to_owned() })
            },
            Some(p) => {
                let path = scheme_path_for(p, name);
                if is_default {
                    Ok(SchemeLocation::DefaultFile(path))
                } else {
                    Ok(SchemeLocation::NamedFile(path))
                }
            },
        }
    }

    /// The scheme at `location`, given the parsed scheme file found there
    /// (`None` when no file is there). A missing `default` file falls back
    /// to the built-in scheme; a missing named file is an error naming its
    /// path; a file found is resolved.
    pub fn load(location: SchemeLocation, file: Option<SchemeFile>) -> (r: Result<Scheme, SchemeError>)
        ensures
            match location@ {
                LocationView::Builtin => r matches Ok(s) && builtin_scheme(s),
                LocationView::DefaultFile(_) => match file {
                    None => r matches Ok(s) && builtin_scheme(s),
                    Some(f) => resolve_outcome(f, r),
                },
                LocationView::NamedFile(p) => match file {
                    None => r matches Err(e) && e@ == (SchemeFault::MissingSchemeFile { path: p }),
                    Some(f) => resolve_outcome(f, r),
                },
            },
    {
        match location {
            SchemeLocation::Builtin => Ok(Scheme::default_builtin()),
            SchemeLocation::DefaultFile(_) => match file {
                None => Ok(Scheme::default_builtin()),
                Some(f) => resolve(f),
            },
            SchemeLocation::NamedFile(path) => match file {
                None => Err(SchemeError::MissingSchemeFile { path }),
                Some(f) => resolve(f),
            },
        }
    }
}


/// With no config file and no command-line choice the scheme is `default`:
/// without a home directory it is the built-in scheme, with one it is
/// `schemes/default.toml` next to the config file when that exists (and
/// the built-in scheme otherwise, see [`Scheme::load`]).
pub proof fn lemma_zero_config_is_default(config_path: Option<Seq<char>>)
    ensures
        effective_name(None, None) == default_name(),
        located(config_path, effective_name(None, None)) == match config_path {
            None => Ok::<LocationView, SchemeFault>(LocationView::Builtin),
            Some(p) => Ok(LocationView::DefaultFile(scheme_file_path(p, default_name()))),
        },
{
    reveal_strlit("default");
    assert(!default_name().contains('/'));
    assert(!default_name().contains('\\'));
}

/// A command-line scheme choice wins over whatever the config file names.
pub proof fn lemma_cli_choice_wins(
    config_path: Option<Seq<char>>,
    config_scheme: Option<Seq<char>>,
    cli: Seq<char>,
)
    ensures
        located(config_path, effective_name(config_scheme, Some(cli))) == located(config_path, cli),
{
}

/// The config file's choice is used when the command line makes none.
pub proof fn lemma_config_choice_used(config_path: Option<Seq<char>>, config_scheme: Seq<char>)
    ensures
        located(config_path, effective_name(Some(config_scheme), None)) == located(
            config_path,
            config_scheme,
        ),
{
}

/// A name that passes validation puts the scheme file directly inside the
/// `schemes/` directory: the path is that directory, a separator, and a
/// final component `<name>.toml` without any separator.
pub proof fn lemma_valid_name_stays_in_scheme_dir(config: Seq<char>, name: Seq<char>)
    requires
        valid_scheme_name(name),
    ensures
        scheme_file_path(config, name) == scheme_dir(config) + seq!['/'] + name + ".toml"@,
        !(name + ".toml"@).contains('/'),
{
    reveal_strlit("schemes");
    reveal_strlit(".toml");
    let leaf = name + ".toml"@;
    let dir = scheme_dir(config);
    assert(dir.len() > 0 && dir.last() == 's');
    assert forall|i: int| 0 <= i < leaf.len() implies leaf[i] != '/' by {
        if i < name.len() {
            assert(leaf[i] == name[i]);
            assert(name.contains(name[i]));
        } else {
            assert(leaf[i] == ".toml"@[i - name.len()]);
        }
    }
}

} // verus!
