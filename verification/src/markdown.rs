//! Markdown → styled display text, with the links found in it.
//!
//! pulldown-cmark parses the source (with tables enabled) into a stream of
//! start / end / text events; [`render_events`] turns that stream into
//! display lines with a style stack, list counters, link tracking and
//! buffered, syntax-highlighted code blocks.

use vstd::prelude::*;
use pulldown_cmark::{CodeBlockKind, Event, Options, Parser, Tag, TagEnd};
use crate::chars::{
    decimal, ends_with_exec, find_exec, find_from, from_chars, has_prefix, has_suffix,
    occurs_at, occurs_at_exec, push_all, push_decimal, repeat, repeat_chars, to_chars,
};
use crate::highlight::{code_lines, highlight_code_block, syntect_highlight, CodeHighlighter, SyntaxTheme};
use crate::scheme::{MarkdownStyles, Scheme};
use crate::text::{
    display_width, lines_view, plain_style, spans_view, str_width, Line, Modifier, Span,
    SpanView, Style, Text,
};

verus! {

#[verifier::external_type_specification]
#[verifier::external_body]
pub struct ExEvent<'a>(Event<'a>);

#[verifier::external_type_specification]
#[verifier::external_body]
pub struct ExTag<'a>(Tag<'a>);

#[verifier::external_type_specification]
#[verifier::external_body]
pub struct ExTagEnd(TagEnd);

// ---------------------------------------------------------------------
// Parser events
// ---------------------------------------------------------------------

/// The start of a markdown element, with what rendering needs of it.
pub enum MdTag {
    Paragraph,
    /// A heading of level 1 to 6.
    Heading(u8),
    BlockQuote,
    /// A code block; `Some(info)` for a fenced block with its info string
    /// (possibly empty), `None` for an indented block.
    CodeBlock(Option<String>),
    /// A list; `Some(n)` for an ordered list starting at `n`.
    List(Option<u64>),
    Item,
    Table,
    TableHead,
    TableRow,
    TableCell,
    Emphasis,
    Strong,
    Strikethrough,
    /// A link to the given destination.
    Link(String),
    Image,
    /// Any other element (HTML blocks, footnotes, ...).
    Other,
}

/// The end of a markdown element.
#[derive(PartialEq, Eq, Structural)]
pub enum MdTagEnd {
    Paragraph,
    Heading,
    BlockQuote,
    CodeBlock,
    List,
    Item,
    Table,
    TableHead,
    TableRow,
    TableCell,
    Emphasis,
    Strong,
    Strikethrough,
    Link,
    Image,
    Other,
}

/// One markdown parser event.
pub enum MdEvent {
    Start(MdTag),
    End(MdTagEnd),
    Text(String),
    /// Inline code.
    Code(String),
    SoftBreak,
    HardBreak,
    /// A thematic break.
    Rule,
    /// A task-list checkbox, checked or not.
    TaskListMarker(bool),
    /// Any other event (raw HTML, math, footnote references, ...).
    Other,
}

/// The value an [`MdTag`] denotes.
pub enum MdTagView {
    Paragraph,
    Heading(u8),
    BlockQuote,
    CodeBlock(Option<Seq<char>>),
    List(Option<u64>),
    Item,
    Table,
    TableHead,
    TableRow,
    TableCell,
    Emphasis,
    Strong,
    Strikethrough,
    Link(Seq<char>),
    Image,
    Other,
}

/// The value an [`MdEvent`] denotes.
pub enum MdEventView {
    Start(MdTagView),
    End(MdTagEnd),
    Text(Seq<char>),
    Code(Seq<char>),
    SoftBreak,
    HardBreak,
    Rule,
    TaskListMarker(bool),
    Other,
}

impl View for MdTag {
    type V = MdTagView;

    open spec fn view(&self) -> MdTagView {
        match self {
            MdTag::Paragraph => MdTagView::Paragraph,
            MdTag::Heading(l) => MdTagView::Heading(*l),
            MdTag::BlockQuote => MdTagView::BlockQuote,
            MdTag::CodeBlock(k) => MdTagView::CodeBlock(
                match k {
                    Some(s) => Some(s@),
                    None => None,
                },
            ),
            MdTag::List(n) => MdTagView::List(*n),
            MdTag::Item => MdTagView::Item,
            MdTag::Table => MdTagView::Table,
            MdTag::TableHead => MdTagView::TableHead,
            MdTag::TableRow => MdTagView::TableRow,
            MdTag::TableCell => MdTagView::TableCell,
            MdTag::Emphasis => MdTagView::Emphasis,
            MdTag::Strong => MdTagView::Strong,
            MdTag::Strikethrough => MdTagView::Strikethrough,
            MdTag::Link(d) => MdTagView::Link(d@),
            MdTag::Image => MdTagView::Image,
            MdTag::Other => MdTagView::Other,
        }
    }
}

impl View for MdEvent {
    type V = MdEventView;

    open spec fn view(&self) -> MdEventView {
        match self {
            MdEvent::Start(t) => MdEventView::Start(t@),
            MdEvent::End(t) => MdEventView::End(*t),
            MdEvent::Text(s) => MdEventView::Text(s@),
            MdEvent::Code(s) => MdEventView::Code(s@),
            MdEvent::SoftBreak => MdEventView::SoftBreak,
            MdEvent::HardBreak => MdEventView::HardBreak,
            MdEvent::Rule => MdEventView::Rule,
            MdEvent::TaskListMarker(b) => MdEventView::TaskListMarker(*b),
            MdEvent::Other => MdEventView::Other,
        }
    }
}

/// The values of a sequence of events.
pub open spec fn events_view(evs: Seq<MdEvent>) -> Seq<MdEventView> {
    evs.map_values(|e: MdEvent| e@)
}

/// pulldown-cmark's events for `source`, parsed with tables enabled (and
/// no other extension).
pub uninterp spec fn commonmark_events(source: Seq<char>) -> Seq<MdEventView>;

/// The end that closes an element started with `t`.
pub open spec fn end_of(t: MdTagView) -> MdTagEnd {
    match t {
        MdTagView::Paragraph => MdTagEnd::Paragraph,
        MdTagView::Heading(_) => MdTagEnd::Heading,
        MdTagView::BlockQuote => MdTagEnd::BlockQuote,
        MdTagView::CodeBlock(_) => MdTagEnd::CodeBlock,
        MdTagView::List(_) => MdTagEnd::List,
        MdTagView::Item => MdTagEnd::Item,
        MdTagView::Table => MdTagEnd::Table,
        MdTagView::TableHead => MdTagEnd::TableHead,
        MdTagView::TableRow => MdTagEnd::TableRow,
        MdTagView::TableCell => MdTagEnd::TableCell,
        MdTagView::Emphasis => MdTagEnd::Emphasis,
        MdTagView::Strong => MdTagEnd::Strong,
        MdTagView::Strikethrough => MdTagEnd::Strikethrough,
        MdTagView::Link(_) => MdTagEnd::Link,
        MdTagView::Image => MdTagEnd::Image,
        MdTagView::Other => MdTagEnd::Other,
    }
}

/// The elements still open after `evs`, innermost last, or `None` when an
/// end event in `evs` does not close the innermost open element.
pub open spec fn open_after(evs: Seq<MdEventView>) -> Option<Seq<MdTagEnd>>
    decreases evs.len(),
{
    if evs.len() == 0 {
        Some(Seq::empty())
    } else {
        match open_after(evs.drop_last()) {
            None => None,
            Some(st) => match evs.last() {
                MdEventView::Start(t) => Some(st.push(end_of(t))),
                MdEventView::End(k) => if st.len() > 0 && st.last() == k {
                    Some(st.drop_last())
                } else {
                    None
                },
                _ => Some(st),
            },
        }
    }
}

/// Start and end events in `evs` are balanced: each end closes the
/// innermost open element, and every element is closed.
pub open spec fn md_balanced(evs: Seq<MdEventView>) -> bool {
    open_after(evs) == Some(Seq::<MdTagEnd>::empty())
}

/// Copies a pulldown-cmark block-level start tag into [`MdTag`], variant
/// for variant (inline ones are handed to [`md_inline_tag_of`]); part of
/// the conversion in [`md_events`].
#[verifier::external_body]
fn md_tag_of(t: Tag<'_>) -> MdTag {
    match t {
        Tag::Paragraph => MdTag::Paragraph,
        Tag::Heading { level, .. } => MdTag::Heading(level as u8),
        Tag::BlockQuote(_) => MdTag::BlockQuote,
        Tag::CodeBlock(CodeBlockKind::Fenced(info)) => MdTag::CodeBlock(Some(info.into_string())),
        Tag::CodeBlock(CodeBlockKind::Indented) => MdTag::CodeBlock(None),
        Tag::List(start) => MdTag::List(start),
        Tag::Item => MdTag::Item,
        other => md_inline_tag_of(other),
    }
}

/// Copies the remaining pulldown-cmark start tags into [`MdTag`]; tags
/// the renderer does not treat specially become `Other`.
#[verifier::external_body]
fn md_inline_tag_of(t: Tag<'_>) -> MdTag {
    match t {
        Tag::Table(_) => MdTag::Table,
        Tag::TableHead => MdTag::TableHead,
        Tag::TableRow => MdTag::TableRow,
        Tag::TableCell => MdTag::TableCell,
        Tag::Emphasis => MdTag::Emphasis,
        Tag::Strong => MdTag::Strong,
        Tag::Strikethrough => MdTag::Strikethrough,
        Tag::Link { dest_url, .. } => MdTag::Link(dest_url.into_string()),
        Tag::Image { .. } => MdTag::Image,
        _ => MdTag::Other,
    }
}

/// Copies a pulldown-cmark block-level end tag into [`MdTagEnd`], the
/// counterpart of [`md_tag_of`], so that every start keeps its end.
#[verifier::external_body]
fn md_tag_end_of(t: TagEnd) -> MdTagEnd {
    match t {
        TagEnd::Paragraph => MdTagEnd::Paragraph,
        TagEnd::Heading(_) => MdTagEnd::Heading,
        TagEnd::BlockQuote(_) => MdTagEnd::BlockQuote,
        TagEnd::CodeBlock => MdTagEnd::CodeBlock,
        TagEnd::List(_) => MdTagEnd::List,
        TagEnd::Item => MdTagEnd::Item,
        other => md_inline_tag_end_of(other),
    }
}

/// Copies the remaining pulldown-cmark end tags into [`MdTagEnd`], the
/// counterpart of [`md_inline_tag_of`].
#[verifier::external_body]
fn md_inline_tag_end_of(t: TagEnd) -> MdTagEnd {
    match t {
        TagEnd::Table => MdTagEnd::Table,
        TagEnd::TableHead => MdTagEnd::TableHead,
        TagEnd::TableRow => MdTagEnd::TableRow,
        TagEnd::TableCell => MdTagEnd::TableCell,
        TagEnd::Emphasis => MdTagEnd::Emphasis,
        TagEnd::Strong => MdTagEnd::Strong,
        TagEnd::Strikethrough => MdTagEnd::Strikethrough,
        TagEnd::Link => MdTagEnd::Link,
        TagEnd::Image => MdTagEnd::Image,
        _ => MdTagEnd::Other,
    }
}

/// Copies a pulldown-cmark event into [`MdEvent`], variant for variant;
/// events the renderer ignores become `Other`.
#[verifier::external_body]
fn md_event_of(e: Event<'_>) -> MdEvent {
    match e {
        Event::Start(t) => MdEvent::Start(md_tag_of(t)),
        Event::End(t) => MdEvent::End(md_tag_end_of(t)),
        Event::Text(s) => MdEvent::Text(s.into_string()),
        Event::Code(s) => MdEvent::Code(s.into_string()),
        Event::SoftBreak => MdEvent::SoftBreak,
        Event::HardBreak => MdEvent::HardBreak,
        Event::Rule => MdEvent::Rule,
        Event::TaskListMarker(checked) => MdEvent::TaskListMarker(checked),
        _ => MdEvent::Other,
    }
}

/// The markdown events of `source`.
///
/// Trusted: runs `pulldown_cmark::Parser::new_ext` with
/// `Options::ENABLE_TABLES` and copies each event into [`MdEvent`]. The
/// events are named, not stated (they are CommonMark parsing), and
/// balanced, as pulldown-cmark's documentation of `Event::Start` promises
/// ("Start and end events are guaranteed to be balanced"); the copy keeps
/// every start and its end in corresponding variants.
#[verifier::external_body]
fn md_events(source: &str) -> (r: Vec<MdEvent>)
    ensures
        events_view(r@) == commonmark_events(source@),
        md_balanced(events_view(r@)),
{
    Parser::new_ext(source, Options::ENABLE_TABLES).map(md_event_of).collect()
}

// ---------------------------------------------------------------------
// Frontmatter
// ---------------------------------------------------------------------

/// `"---\n"`.
pub open spec fn fence_open() -> Seq<char> {
    seq!['-', '-', '-', '\n']
}

/// `"\n---\n"`.
pub open spec fn fence_close() -> Seq<char> {
    seq!['\n', '-', '-', '-', '\n']
}

/// `"\n---"`.
pub open spec fn fence_close_at_end() -> Seq<char> {
    seq!['\n', '-', '-', '-']
}

/// `source` without a leading YAML frontmatter block: when it starts with
/// `---\n` and a closing `\n---\n` follows, what comes after the first
/// closing fence; when the closing fence is the file's end (`\n---\n` or
/// `\n---`), nothing; otherwise `source` untouched.
pub open spec fn without_frontmatter(source: Seq<char>) -> Seq<char> {
    if !has_prefix(source, fence_open()) {
        source
    } else {
        let rest = source.skip(4);
        match find_from(rest, fence_close(), 0) {
            Some(end) => rest.skip(end + 5),
            None => if has_suffix(rest, fence_close()) || has_suffix(rest, fence_close_at_end()) {
                Seq::empty()
            } else {
                source
            },
        }
    }
}

/// `source` without a leading YAML frontmatter block (`---` ... `---`), if
/// it has one. pulldown-cmark has no frontmatter concept: left in, a `---`
/// closing fence right after non-blank lines reads as a Setext heading
/// underline, turning the whole block into one giant heading line. Only a
/// file starting with `---\n` and with a closing `\n---\n` (or `\n---` at
/// its very end) is changed; a bare leading `---` is a thematic break.
pub fn strip_frontmatter(source: &str) -> (r: &str)
    ensures
        r@ == without_frontmatter(source@),
{
    let cs = to_chars(source);
    let s = cs.as_slice();
    let open = ['-', '-', '-', '\n'];
    let close = ['\n', '-', '-', '-', '\n'];
    let close_end = ['\n', '-', '-', '-'];
    assert(open@ == fence_open());
    assert(close@ == fence_close());
    assert(close_end@ == fence_close_at_end());
    if !occurs_at_exec(s, &open, 0) {
        assert(has_prefix(s@, fence_open()) == occurs_at(s@, fence_open(), 0));
        return source;
    }
    let rest = &s[4..s.len()];
    assert(rest@ == s@.skip(4));
    let n = source.unicode_len();
    match find_exec(rest, &close) {
        Some(end) => source.substring_char(4 + end + 5, n),
        None => {
            if ends_with_exec(rest, &close) || ends_with_exec(rest, &close_end) {
                source.substring_char(n, n)
            } else {
                source
            }
        },
    }
}

// ---------------------------------------------------------------------
// Rendering
// ---------------------------------------------------------------------

/// A link found while rendering, located by the line and the span range
/// `[span_start, span_end)` of that line its text occupies.
#[derive(Debug, Clone)]
pub struct Link {
    pub line: usize,
    pub span_start: usize,
    pub span_end: usize,
    pub target: String,
}

/// The value a [`Link`] denotes.
pub struct LinkView {
    pub line: nat,
    pub span_start: nat,
    pub span_end: nat,
    pub target: Seq<char>,
}

impl View for Link {
    type V = LinkView;

    open spec fn view(&self) -> LinkView {
        LinkView {
            line: self.line as nat,
            span_start: self.span_start as nat,
            span_end: self.span_end as nat,
            target: self.target@,
        }
    }
}

/// The values of a sequence of links.
pub open spec fn links_view(ls: Seq<Link>) -> Seq<LinkView> {
    ls.map_values(|l: Link| l@)
}

/// Rendered markdown: the display text and the links in it.
#[derive(Debug)]
pub struct Rendered {
    pub text: Text,
    pub links: Vec<Link>,
}

/// The value a [`Rendered`] denotes.
pub struct RenderedView {
    pub text: Seq<Seq<SpanView>>,
    pub links: Seq<LinkView>,
}

impl View for Rendered {
    type V = RenderedView;

    open spec fn view(&self) -> RenderedView {
        RenderedView { text: self.text@, links: links_view(self.links@) }
    }
}

/// A link whose text has ended but whose line has not been flushed yet.
pub struct PendingView {
    pub start: nat,
    pub end: nat,
    pub target: Seq<char>,
}

/// A link whose text is still being read.
pub struct OpenLinkView {
    pub start: nat,
    pub target: Seq<char>,
}

/// The renderer's state between events.
pub struct RenderView {
    /// Finished display lines.
    pub lines: Seq<Seq<SpanView>>,
    /// Spans of the line being built.
    pub current: Seq<SpanView>,
    /// Nested inline / block styles; the innermost last.
    pub styles: Seq<Style>,
    /// One entry per open list: the next number of an ordered list, `None`
    /// for a bulleted one.
    pub lists: Seq<Option<u64>>,
    pub in_code_block: bool,
    pub in_table_head: bool,
    /// Fence info string of the current code block.
    pub code_lang: Seq<char>,
    /// Source of the current code block so far.
    pub code: Seq<char>,
    pub links: Seq<LinkView>,
    pub pending: Seq<PendingView>,
    pub open_links: Seq<OpenLinkView>,
}

/// The state before the first event.
pub open spec fn initial_view() -> RenderView {
    RenderView {
        lines: Seq::empty(),
        current: Seq::empty(),
        styles: seq![plain_style()],
        lists: Seq::empty(),
        in_code_block: false,
        in_table_head: false,
        code_lang: Seq::empty(),
        code: Seq::empty(),
        links: Seq::empty(),
        pending: Seq::empty(),
        open_links: Seq::empty(),
    }
}

/// `cur` with a span of `text` in `style` appended, unless `text` is empty.
pub open spec fn with_span(cur: Seq<SpanView>, text: Seq<char>, style: Style) -> Seq<SpanView> {
    if text.len() == 0 {
        cur
    } else {
        cur.push(SpanView { content: text, style })
    }
}

/// The pending links `p`, placed on line `line`.
pub open spec fn placed_links(p: Seq<PendingView>, line: nat) -> Seq<LinkView> {
    p.map_values(|x: PendingView| LinkView { line, span_start: x.start, span_end: x.end, target: x.target })
}

/// The line being built moved into the finished lines, taking the links
/// that ended on it along.
pub open spec fn flushed(s: RenderView) -> RenderView {
    RenderView {
        lines: s.lines.push(s.current),
        current: Seq::empty(),
        links: s.links + placed_links(s.pending, s.lines.len()),
        pending: Seq::empty(),
        ..s
    }
}

/// `s` with the innermost style removed (if any).
pub open spec fn style_popped(s: RenderView) -> RenderView {
    RenderView {
        styles: if s.styles.len() > 0 { s.styles.drop_last() } else { s.styles },
        ..s
    }
}

/// `s` with `st` as the new innermost style.
pub open spec fn style_pushed(s: RenderView, st: Style) -> RenderView {
    RenderView { styles: s.styles.push(st), ..s }
}

/// `s` with `l` appended to the finished lines.
pub open spec fn line_added(s: RenderView, l: Seq<SpanView>) -> RenderView {
    RenderView { lines: s.lines.push(l), ..s }
}

/// `"  ```"`.
pub open spec fn fence_mark() -> Seq<char> {
    seq![' ', ' ', '`', '`', '`']
}

/// A code-fence line: `"  ```"` and the fence info, in the fence style.
pub open spec fn fence_line(info: Seq<char>, m: MarkdownStyles) -> Seq<SpanView> {
    seq![SpanView { content: fence_mark() + info, style: m.code_fence_marker }]
}

/// The style of a level-`level` heading.
pub open spec fn heading_style(level: u8, m: MarkdownStyles) -> Style {
    if level == 1 {
        m.heading_h1
    } else if level == 2 {
        m.heading_h2
    } else {
        m.heading_h3
    }
}

/// `level` `#`s and a space.
pub open spec fn heading_prefix(level: u8) -> Seq<char> {
    repeat(seq!['#'], level as nat).push(' ')
}

/// The number after `n` (wrapping at `u64::MAX`).
pub open spec fn next_number(n: u64) -> u64 {
    if n == u64::MAX { 0 } else { (n + 1) as u64 }
}

/// The marker of a new list item: the ordered list's number and `". "`,
/// or a bullet.
pub open spec fn item_marker(lists: Seq<Option<u64>>) -> Seq<char> {
    if lists.len() > 0 && lists.last() is Some {
        decimal(lists.last()->0 as nat) + seq!['.', ' ']
    } else {
        seq!['\u{2022}', ' ']
    }
}

/// The list counters after a new item (the innermost ordered list counts on).
pub open spec fn item_lists(lists: Seq<Option<u64>>) -> Seq<Option<u64>> {
    if lists.len() > 0 && lists.last() is Some {
        lists.update(lists.len() - 1, Some(next_number(lists.last()->0)))
    } else {
        lists
    }
}

/// Two spaces of indent per level of list nesting beyond the first.
pub open spec fn item_indent(lists: Seq<Option<u64>>) -> Seq<char> {
    repeat(seq![' ', ' '], if lists.len() > 0 { (lists.len() - 1) as nat } else { 0 })
}

/// Whether starting `t` pushes a style.
pub open spec fn pushes_style(t: MdTagView) -> bool {
    match t {
        MdTagView::Heading(_) | MdTagView::Emphasis | MdTagView::Strong | MdTagView::Strikethrough
        | MdTagView::BlockQuote | MdTagView::Link(_) | MdTagView::Image | MdTagView::TableHead
        | MdTagView::TableRow | MdTagView::TableCell => true,
        _ => false,
    }
}

/// Whether ending `t` pops a style.
pub open spec fn pops_style(t: MdTagEnd) -> bool {
    match t {
        MdTagEnd::Heading | MdTagEnd::Emphasis | MdTagEnd::Strong | MdTagEnd::Strikethrough
        | MdTagEnd::BlockQuote | MdTagEnd::Link | MdTagEnd::Image | MdTagEnd::TableHead
        | MdTagEnd::TableRow | MdTagEnd::TableCell => true,
        _ => false,
    }
}

/// The state after the start of `t`, with `style` the innermost style.
pub open spec fn started(s: RenderView, t: MdTagView, style: Style, m: MarkdownStyles) -> RenderView {
    match t {
        MdTagView::Heading(level) => {
            let st = style.layered(heading_style(level, m));
            RenderView {
                styles: s.styles.push(st),
                current: with_span(s.current, heading_prefix(level), st),
                ..s
            }
        },
        MdTagView::Emphasis => style_pushed(s, style.adding(Modifier { italic: true, ..Modifier::none() })),
        MdTagView::Strong => style_pushed(s, style.adding(Modifier { bold: true, ..Modifier::none() })),
        MdTagView::Strikethrough => style_pushed(
            s,
            style.adding(Modifier { crossed_out: true, ..Modifier::none() }),
        ),
        MdTagView::BlockQuote => {
            let st = style.layered(m.blockquote);
            RenderView {
                styles: s.styles.push(st),
                current: with_span(s.current, m.blockquote_marker@, st),
                ..s
            }
        },
        MdTagView::CodeBlock(info) => {
            let lang = match info {
                Some(l) => l,
                None => Seq::empty(),
            };
            let s1 = RenderView { in_code_block: true, code: Seq::empty(), code_lang: lang, ..s };
            let s2 = if s1.current.len() > 0 { flushed(s1) } else { s1 };
            line_added(line_added(s2, Seq::empty()), fence_line(lang, m))
        },
        MdTagView::List(start) => RenderView { lists: s.lists.push(start), ..s },
        MdTagView::Item => RenderView {
            lists: item_lists(s.lists),
            current: with_span(
                s.current,
                item_indent(s.lists) + item_marker(s.lists),
                style.layered(m.list_marker),
            ),
            ..s
        },
        MdTagView::Link(dest) => RenderView {
            styles: s.styles.push(style.layered(m.link)),
            open_links: s.open_links.push(OpenLinkView { start: s.current.len(), target: dest }),
            ..s
        },
        MdTagView::Image => style_pushed(s, style.layered(m.image_alt)),
        MdTagView::TableHead => RenderView { in_table_head: true, styles: s.styles.push(style), ..s },
        MdTagView::TableRow => style_pushed(s, style),
        MdTagView::TableCell => style_pushed(
            s,
            if s.in_table_head && m.table_header_bold {
                style.adding(Modifier { bold: true, ..Modifier::none() })
            } else {
                style
            },
        ),
        _ => s,
    }
}

/// The state after a link's end: the link is pending on the current line
/// if its text produced at least one span.
pub open spec fn link_closed(s: RenderView) -> RenderView {
    if s.open_links.len() > 0 {
        let o = s.open_links.last();
        let s1 = RenderView { open_links: s.open_links.drop_last(), ..s };
        if s.current.len() > o.start {
            RenderView {
                pending: s1.pending.push(PendingView { start: o.start, end: s.current.len(), target: o.target }),
                ..s1
            }
        } else {
            s1
        }
    } else {
        s
    }
}

/// The state after the end of an element `t`, with `style` the innermost
/// style before the end.
pub open spec fn ended(s: RenderView, t: MdTagEnd, style: Style, m: MarkdownStyles, theme: Seq<char>) -> RenderView {
    match t {
        MdTagEnd::Heading => line_added(flushed(style_popped(s)), Seq::empty()),
        MdTagEnd::Paragraph => line_added(flushed(s), Seq::empty()),
        MdTagEnd::Emphasis | MdTagEnd::Strong | MdTagEnd::Strikethrough | MdTagEnd::Image =>
            style_popped(s),
        MdTagEnd::BlockQuote => flushed(style_popped(s)),
        MdTagEnd::CodeBlock => {
            let hl = code_lines(syntect_highlight(s.code, s.code_lang, theme), m.code_block_bg);
            RenderView {
                in_code_block: false,
                code: Seq::empty(),
                lines: s.lines + hl + seq![fence_line(Seq::empty(), m), Seq::empty()],
                ..s
            }
        },
        MdTagEnd::List => RenderView {
            lists: if s.lists.len() > 0 { s.lists.drop_last() } else { s.lists },
            lines: s.lines.push(Seq::empty()),
            ..s
        },
        MdTagEnd::Item => flushed(s),
        MdTagEnd::Link => link_closed(style_popped(s)),
        MdTagEnd::TableHead => flushed(RenderView { in_table_head: false, ..style_popped(s) }),
        MdTagEnd::TableRow => flushed(style_popped(s)),
        MdTagEnd::TableCell => {
            let s1 = style_popped(s);
            RenderView { current: with_span(s1.current, seq![' ', ' '], style), ..s1 }
        },
        MdTagEnd::Table => line_added(s, Seq::empty()),
        MdTagEnd::Other => s,
    }
}

/// The state after event `ev`.
pub open spec fn step(s: RenderView, ev: MdEventView, m: MarkdownStyles, theme: Seq<char>) -> RenderView {
    let style = s.styles.last();
    match ev {
        MdEventView::Start(t) => started(s, t, style, m),
        MdEventView::End(t) => ended(s, t, style, m, theme),
        MdEventView::Text(t) => if s.in_code_block {
            RenderView { code: s.code + t, ..s }
        } else {
            RenderView { current: with_span(s.current, t, style), ..s }
        },
        MdEventView::Code(t) => RenderView {
            current: with_span(s.current, seq![' '] + t + seq![' '], m.code_inline),
            ..s
        },
        MdEventView::SoftBreak => if s.in_code_block {
            RenderView { code: s.code.push('\n'), ..s }
        } else {
            RenderView { current: with_span(s.current, seq![' '], style), ..s }
        },
        MdEventView::HardBreak => if s.in_code_block {
            RenderView { code: s.code.push('\n'), ..s }
        } else {
            flushed(s)
        },
        MdEventView::Rule => {
            let s1 = if s.current.len() > 0 { flushed(s) } else { s };
            line_added(
                s1,
                seq![SpanView { content: repeat(m.horizontal_rule_glyph@, m.horizontal_rule_width as nat), style: m.horizontal_rule }],
            )
        },
        MdEventView::TaskListMarker(checked) => RenderView {
            current: with_span(
                s.current,
                if checked { seq!['[', 'x', ']', ' '] } else { seq!['[', ' ', ']', ' '] },
                style,
            ),
            ..s
        },
        MdEventView::Other => s,
    }
}

/// The state after all of `evs`.
pub open spec fn run_events(evs: Seq<MdEventView>, m: MarkdownStyles, theme: Seq<char>) -> RenderView
    decreases evs.len(),
{
    if evs.len() == 0 {
        initial_view()
    } else {
        step(run_events(evs.drop_last(), m, theme), evs.last(), m, theme)
    }
}

/// The state once the last line in progress is flushed.
pub open spec fn finished(s: RenderView) -> RenderView {
    if s.current.len() > 0 { flushed(s) } else { s }
}

/// What rendering the events `evs` with styles `m` and syntax theme
/// `theme` produces.
pub open spec fn rendered_events(evs: Seq<MdEventView>, m: MarkdownStyles, theme: Seq<char>) -> RenderedView {
    let f = finished(run_events(evs, m, theme));
    RenderedView { text: f.lines, links: f.links }
}

/// The depth of the style stack after `evs`: one base style, plus one per
/// open styled element (an end with nothing left to pop leaves it empty).
pub open spec fn style_depth(evs: Seq<MdEventView>) -> nat
    decreases evs.len(),
{
    if evs.len() == 0 {
        1
    } else {
        let d = style_depth(evs.drop_last());
        match evs.last() {
            MdEventView::Start(t) => if pushes_style(t) { d + 1 } else { d },
            MdEventView::End(t) => if pops_style(t) && d > 0 { (d - 1) as nat } else { d },
            _ => d,
        }
    }
}

/// The style stack never runs empty before an event is read.
pub open spec fn styles_never_empty(evs: Seq<MdEventView>) -> bool {
    forall|i: int| 0 <= i < evs.len() ==> style_depth(#[trigger] evs.take(i)) >= 1
}

/// Every link points at a non-empty span range of an existing line.
pub open spec fn links_in_bounds(lines: Seq<Seq<SpanView>>, links: Seq<LinkView>) -> bool {
    forall|k: int|
        0 <= k < links.len() ==> {
            let l = #[trigger] links[k];
            &&& l.line < lines.len()
            &&& l.span_start < l.span_end
            &&& l.span_end <= lines[l.line as int].len()
        }
}

// ---------------------------------------------------------------------
// Laws of the renderer
// ---------------------------------------------------------------------

/// The renderer's bookkeeping is sound: finished links point into finished
/// lines, and pending links into the line being built.
pub open spec fn render_ok(s: RenderView) -> bool {
    &&& links_in_bounds(s.lines, s.links)
    &&& forall|k: int|
        0 <= k < s.pending.len() ==> {
            let p = #[trigger] s.pending[k];
            p.start < p.end && p.end <= s.current.len()
        }
}

proof fn lemma_with_span_grows(cur: Seq<SpanView>, text: Seq<char>, style: Style)
    ensures
        with_span(cur, text, style).len() >= cur.len(),
        forall|i: int| 0 <= i < cur.len() ==> with_span(cur, text, style)[i] == cur[i],
{
}

proof fn lemma_lines_grow_ok(s: RenderView, extra: Seq<Seq<SpanView>>)
    requires
        render_ok(s),
    ensures
        render_ok(RenderView { lines: s.lines + extra, ..s }),
{
    let t = RenderView { lines: s.lines + extra, ..s };
    assert forall|k: int| 0 <= k < t.links.len() implies {
        let l = #[trigger] t.links[k];
        &&& l.line < t.lines.len()
        &&& l.span_start < l.span_end
        &&& l.span_end <= t.lines[l.line as int].len()
    } by {
        let l = t.links[k];
        assert(t.lines[l.line as int] == s.lines[l.line as int]);
    }
}

proof fn lemma_line_added_ok(s: RenderView, l: Seq<SpanView>)
    requires
        render_ok(s),
    ensures
        render_ok(line_added(s, l)),
{
    lemma_lines_grow_ok(s, seq![l]);
    assert(s.lines + seq![l] == s.lines.push(l));
}

proof fn lemma_flushed_ok(s: RenderView)
    requires
        render_ok(s),
    ensures
        render_ok(flushed(s)),
{
    let t = flushed(s);
    assert forall|k: int| 0 <= k < t.links.len() implies {
        let l = #[trigger] t.links[k];
        &&& l.line < t.lines.len()
        &&& l.span_start < l.span_end
        &&& l.span_end <= t.lines[l.line as int].len()
    } by {
        if k < s.links.len() {
            assert(t.links[k] == s.links[k]);
            assert(t.lines[s.links[k].line as int] == s.lines[s.links[k].line as int]);
        } else {
            let p = s.pending[k - s.links.len()];
            assert(t.links[k] == placed_links(s.pending, s.lines.len())[k - s.links.len()]);
            assert(t.lines[s.lines.len() as int] == s.current);
        }
    }
}

proof fn lemma_started_ok(s: RenderView, t: MdTagView, style: Style, m: MarkdownStyles)
    requires
        render_ok(s),
    ensures
        render_ok(started(s, t, style, m)),
{
    match t {
        MdTagView::Heading(level) => {
            let st = style.layered(heading_style(level, m));
            lemma_with_span_grows(s.current, heading_prefix(level), st);
        },
        MdTagView::BlockQuote => {
            lemma_with_span_grows(s.current, m.blockquote_marker@, style.layered(m.blockquote));
        },
        MdTagView::CodeBlock(info) => {
            let lang = match info {
                Some(l) => l,
                None => Seq::empty(),
            };
            let s1 = RenderView { in_code_block: true, code: Seq::empty(), code_lang: lang, ..s };
            assert(render_ok(s1));
            let s2 = if s1.current.len() > 0 { flushed(s1) } else { s1 };
            if s1.current.len() > 0 {
                lemma_flushed_ok(s1);
            }
            lemma_line_added_ok(s2, Seq::empty());
            lemma_line_added_ok(line_added(s2, Seq::empty()), fence_line(lang, m));
        },
        MdTagView::Item => {
            lemma_with_span_grows(
                s.current,
                item_indent(s.lists) + item_marker(s.lists),
                style.layered(m.list_marker),
            );
        },
        _ => {},
    }
}

proof fn lemma_ended_ok(s: RenderView, t: MdTagEnd, style: Style, m: MarkdownStyles, theme: Seq<char>)
    requires
        render_ok(s),
    ensures
        render_ok(ended(s, t, style, m, theme)),
{
    match t {
        MdTagEnd::Heading => {
            lemma_flushed_ok(style_popped(s));
            lemma_line_added_ok(flushed(style_popped(s)), Seq::empty());
        },
        MdTagEnd::Paragraph => {
            lemma_flushed_ok(s);
            lemma_line_added_ok(flushed(s), Seq::empty());
        },
        MdTagEnd::BlockQuote => {
            lemma_flushed_ok(style_popped(s));
        },
        MdTagEnd::CodeBlock => {
            let hl = code_lines(syntect_highlight(s.code, s.code_lang, theme), m.code_block_bg);
            let s1 = RenderView { in_code_block: false, code: Seq::empty(), ..s };
            lemma_lines_grow_ok(s1, hl + seq![fence_line(Seq::empty(), m), Seq::empty()]);
            assert(s.lines + hl + seq![fence_line(Seq::empty(), m), Seq::empty()] == s.lines + (hl
                + seq![fence_line(Seq::empty(), m), Seq::empty()]));
        },
        MdTagEnd::List => {
            lemma_line_added_ok(s, Seq::empty());
        },
        MdTagEnd::Item => {
            lemma_flushed_ok(s);
        },
        MdTagEnd::TableHead => {
            lemma_flushed_ok(RenderView { in_table_head: false, ..style_popped(s) });
        },
        MdTagEnd::TableRow => {
            lemma_flushed_ok(style_popped(s));
        },
        MdTagEnd::TableCell => {
            lemma_with_span_grows(s.current, seq![' ', ' '], style);
        },
        MdTagEnd::Table => {
            lemma_line_added_ok(s, Seq::empty());
        },
        _ => {},
    }
}

proof fn lemma_step_ok(s: RenderView, ev: MdEventView, m: MarkdownStyles, theme: Seq<char>)
    requires
        render_ok(s),
    ensures
        render_ok(step(s, ev, m, theme)),
{
    let style = s.styles.last();
    match ev {
        MdEventView::Start(t) => lemma_started_ok(s, t, style, m),
        MdEventView::End(t) => lemma_ended_ok(s, t, style, m, theme),
        MdEventView::Text(t) => lemma_with_span_grows(s.current, t, style),
        MdEventView::Code(t) => lemma_with_span_grows(s.current, seq![' '] + t + seq![' '], m.code_inline),
        MdEventView::SoftBreak => lemma_with_span_grows(s.current, seq![' '], style),
        MdEventView::HardBreak => {
            if !s.in_code_block {
                lemma_flushed_ok(s);
            }
        },
        MdEventView::Rule => {
            let s1 = if s.current.len() > 0 { flushed(s) } else { s };
            if s.current.len() > 0 {
                lemma_flushed_ok(s);
            }
            lemma_line_added_ok(
                s1,
                seq![SpanView { content: repeat(m.horizontal_rule_glyph@, m.horizontal_rule_width as nat), style: m.horizontal_rule }],
            );
        },
        MdEventView::TaskListMarker(checked) => lemma_with_span_grows(
            s.current,
            if checked { seq!['[', 'x', ']', ' '] } else { seq!['[', ' ', ']', ' '] },
            style,
        ),
        MdEventView::Other => {},
    }
}

proof fn lemma_run_ok(evs: Seq<MdEventView>, m: MarkdownStyles, theme: Seq<char>)
    ensures
        render_ok(run_events(evs, m, theme)),
    decreases evs.len(),
{
    if evs.len() > 0 {
        lemma_run_ok(evs.drop_last(), m, theme);
        lemma_step_ok(run_events(evs.drop_last(), m, theme), evs.last(), m, theme);
    }
}

/// Every link that rendering finds points at a non-empty range of spans of
/// an existing line of the rendered text, whatever the events.
pub proof fn lemma_rendered_links_in_bounds(evs: Seq<MdEventView>, m: MarkdownStyles, theme: Seq<char>)
    ensures
        links_in_bounds(rendered_events(evs, m, theme).text, rendered_events(evs, m, theme).links),
{
    lemma_run_ok(evs, m, theme);
    let s = run_events(evs, m, theme);
    if s.current.len() > 0 {
        lemma_flushed_ok(s);
    }
}

/// Whether links are listed in document order: by line, top to bottom.
pub open spec fn links_in_order(links: Seq<LinkView>) -> bool {
    forall|i: int, j: int| 0 <= i <= j < links.len() ==> links[i].line <= links[j].line
}

/// A step either leaves the links alone or appends the pending ones,
/// placed on the next line.
proof fn lemma_step_links(s: RenderView, ev: MdEventView, m: MarkdownStyles, theme: Seq<char>)
    ensures
        step(s, ev, m, theme).links == s.links || step(s, ev, m, theme).links == s.links + placed_links(
            s.pending,
            s.lines.len(),
        ),
{
}

proof fn lemma_append_placed_in_order(links: Seq<LinkView>, p: Seq<PendingView>, n: nat)
    requires
        links_in_order(links),
        forall|k: int| 0 <= k < links.len() ==> (#[trigger] links[k]).line < n,
    ensures
        links_in_order(links + placed_links(p, n)),
{
    let all = links + placed_links(p, n);
    assert forall|i: int, j: int| 0 <= i <= j < all.len() implies all[i].line <= all[j].line by {
        if j >= links.len() {
            assert(all[j] == placed_links(p, n)[j - links.len()]);
            if i < links.len() {
                assert(all[i] == links[i]);
            } else {
                assert(all[i] == placed_links(p, n)[i - links.len()]);
            }
        } else {
            assert(all[i] == links[i]);
            assert(all[j] == links[j]);
        }
    }
}

proof fn lemma_run_in_order(evs: Seq<MdEventView>, m: MarkdownStyles, theme: Seq<char>)
    ensures
        links_in_order(run_events(evs, m, theme).links),
    decreases evs.len(),
{
    if evs.len() > 0 {
        let s = run_events(evs.drop_last(), m, theme);
        lemma_run_in_order(evs.drop_last(), m, theme);
        lemma_run_ok(evs.drop_last(), m, theme);
        lemma_step_links(s, evs.last(), m, theme);
        assert forall|k: int| 0 <= k < s.links.len() implies (#[trigger] s.links[k]).line < s.lines.len() by {
            assert(s.links[k] == s.links[k]);
        }
        lemma_append_placed_in_order(s.links, s.pending, s.lines.len());
    }
}

/// Rendering lists links in document order: a link never comes before one
/// on an earlier line.
pub proof fn lemma_rendered_links_in_order(evs: Seq<MdEventView>, m: MarkdownStyles, theme: Seq<char>)
    ensures
        links_in_order(rendered_events(evs, m, theme).links),
{
    let s = run_events(evs, m, theme);
    lemma_run_in_order(evs, m, theme);
    lemma_run_ok(evs, m, theme);
    if s.current.len() > 0 {
        assert forall|k: int| 0 <= k < s.links.len() implies (#[trigger] s.links[k]).line < s.lines.len() by {
            assert(s.links[k] == s.links[k]);
        }
        lemma_append_placed_in_order(s.links, s.pending, s.lines.len());
    }
}

/// A step only appends finished lines: the ones already there stay.
proof fn lemma_step_lines_kept(s: RenderView, ev: MdEventView, m: MarkdownStyles, theme: Seq<char>)
    ensures
        step(s, ev, m, theme).lines.len() >= s.lines.len(),
        forall|i: int| 0 <= i < s.lines.len() ==> #[trigger] step(s, ev, m, theme).lines[i] == s.lines[i],
{
    let t = step(s, ev, m, theme);
    match ev {
        MdEventView::End(MdTagEnd::CodeBlock) => {
            let hl = code_lines(syntect_highlight(s.code, s.code_lang, theme), m.code_block_bg);
            assert(t.lines == s.lines + hl + seq![fence_line(Seq::empty(), m), Seq::empty()]);
            assert forall|i: int| 0 <= i < s.lines.len() implies #[trigger] t.lines[i] == s.lines[i] by {
                assert((s.lines + hl)[i] == s.lines[i]);
            }
        },
        _ => {},
    }
}

proof fn lemma_run_lines_kept(pre: Seq<MdEventView>, rest: Seq<MdEventView>, m: MarkdownStyles, theme: Seq<char>)
    ensures
        run_events(pre + rest, m, theme).lines.len() >= run_events(pre, m, theme).lines.len(),
        forall|i: int|
            0 <= i < run_events(pre, m, theme).lines.len() ==> #[trigger] run_events(pre + rest, m, theme).lines[i]
                == run_events(pre, m, theme).lines[i],
    decreases rest.len(),
{
    if rest.len() == 0 {
        assert(pre + rest == pre);
    } else {
        assert((pre + rest).drop_last() == pre + rest.drop_last());
        assert((pre + rest).last() == rest.last());
        lemma_run_lines_kept(pre, rest.drop_last(), m, theme);
        lemma_step_lines_kept(run_events(pre + rest.drop_last(), m, theme), rest.last(), m, theme);
    }
}

/// A document that opens with a level-`level` heading renders, as its
/// first line's first span, the heading's `#` marks and a space, in the
/// scheme's style for that level (level one, two, or three and deeper).
pub proof fn lemma_heading_first_span(
    level: u8,
    title: Seq<char>,
    rest: Seq<MdEventView>,
    m: MarkdownStyles,
    theme: Seq<char>,
)
    ensures
        ({
            let r = rendered_events(
                seq![
                    MdEventView::Start(MdTagView::Heading(level)),
                    MdEventView::Text(title),
                    MdEventView::End(MdTagEnd::Heading),
                ] + rest,
                m,
                theme,
            );
            &&& r.text.len() >= 1
            &&& r.text[0].len() >= 1
            &&& r.text[0][0] == SpanView {
                content: heading_prefix(level),
                style: plain_style().layered(heading_style(level, m)),
            }
            &&& r.text[0][0].content == repeat(seq!['#'], level as nat).push(' ')
            &&& r.text[0][0].style.fg == heading_style(level, m).fg
        }),
{
    let e0 = MdEventView::Start(MdTagView::Heading(level));
    let e1 = MdEventView::Text(title);
    let e2 = MdEventView::End(MdTagEnd::Heading);
    let pre = seq![e0, e1, e2];
    assert(pre.drop_last() == seq![e0, e1]);
    assert(seq![e0, e1].drop_last() == seq![e0]);
    assert(seq![e0].drop_last() == Seq::<MdEventView>::empty());
    let st = plain_style().layered(heading_style(level, m));
    let head = SpanView { content: heading_prefix(level), style: st };
    assert(heading_prefix(level).len() > 0);
    let s0 = run_events(Seq::<MdEventView>::empty(), m, theme);
    assert(s0 == initial_view());
    assert(s0.styles.last() == plain_style());
    let s1 = run_events(seq![e0], m, theme);
    assert(s1 == step(s0, e0, m, theme));
    assert(s1.current =~= seq![head]);
    assert(s1.styles =~= seq![plain_style(), st]);
    assert(!s1.in_code_block);
    let s2 = run_events(seq![e0, e1], m, theme);
    assert(s2.current.len() >= 1 && s2.current[0] == head);
    let s3 = run_events(pre, m, theme);
    assert(s3.lines.len() == 2);
    assert(s3.lines[0] == s2.current);
    lemma_run_lines_kept(pre, rest, m, theme);
    let sr = run_events(pre + rest, m, theme);
    assert(sr.lines[0] == s2.current);
    let f = finished(sr);
    assert(f.lines[0] == sr.lines[0]);
}

/// The events of list items with texts `items`, each a plain text item.
pub open spec fn item_events(items: Seq<Seq<char>>) -> Seq<MdEventView>
    decreases items.len(),
{
    if items.len() == 0 {
        Seq::empty()
    } else {
        item_events(items.drop_last()) + seq![
            MdEventView::Start(MdTagView::Item),
            MdEventView::Text(items.last()),
            MdEventView::End(MdTagEnd::Item),
        ]
    }
}

/// The events of an ordered list numbered from `start` with item texts
/// `items`.
pub open spec fn ordered_list_events(start: u64, items: Seq<Seq<char>>) -> Seq<MdEventView> {
    seq![MdEventView::Start(MdTagView::List(Some(start)))] + item_events(items) + seq![
        MdEventView::End(MdTagEnd::List),
    ]
}

/// A rendered numbered item: the number `n`, a dot and a space in the list
/// marker style, then the item's text.
pub open spec fn numbered_line(n: nat, t: Seq<char>, m: MarkdownStyles) -> Seq<SpanView> {
    seq![
        SpanView { content: decimal(n) + seq!['.', ' '], style: plain_style().layered(m.list_marker) },
        SpanView { content: t, style: plain_style() },
    ]
}

proof fn lemma_items_state(start: u64, items: Seq<Seq<char>>, m: MarkdownStyles, theme: Seq<char>)
    requires
        start + items.len() <= u64::MAX,
        forall|i: int| 0 <= i < items.len() ==> (#[trigger] items[i]).len() > 0,
    ensures
        ({
            let s = run_events(
                seq![MdEventView::Start(MdTagView::List(Some(start)))] + item_events(items),
                m,
                theme,
            );
            &&& s.lines == Seq::new(items.len(), |i: int| numbered_line((start + i) as nat, items[i], m))
            &&& s.current.len() == 0
            &&& s.styles == seq![plain_style()]
            &&& s.lists == seq![Some((start + items.len()) as u64)]
            &&& !s.in_code_block
            &&& s.pending.len() == 0
        }),
    decreases items.len(),
{
    let l = MdEventView::Start(MdTagView::List(Some(start)));
    if items.len() == 0 {
        assert(seq![l] + item_events(items) =~= seq![l]);
        assert(seq![l].drop_last() =~= Seq::<MdEventView>::empty());
        assert(run_events(Seq::<MdEventView>::empty(), m, theme) == initial_view());
        let s = run_events(seq![l], m, theme);
        assert(s == step(initial_view(), l, m, theme));
        assert(s.lines =~= Seq::new(0, |i: int| numbered_line((start + i) as nat, items[i], m)));
    } else {
        let prev = items.drop_last();
        assert forall|i: int| 0 <= i < prev.len() implies (#[trigger] prev[i]).len() > 0 by {
            assert(prev[i] == items[i]);
        }
        lemma_items_state(start, prev, m, theme);
        let a = MdEventView::Start(MdTagView::Item);
        let b = MdEventView::Text(items.last());
        let c = MdEventView::End(MdTagEnd::Item);
        let pre = seq![l] + item_events(prev);
        let x = pre + seq![a, b, c];
        assert(seq![l] + item_events(items) =~= x);
        assert(x.drop_last() =~= pre + seq![a, b]);
        assert((pre + seq![a, b]).drop_last() =~= pre + seq![a]);
        assert((pre + seq![a]).drop_last() =~= pre);
        let s0 = run_events(pre, m, theme);
        let n = (start + prev.len()) as u64;
        let s1 = run_events(pre + seq![a], m, theme);
        assert(s1 == step(s0, a, m, theme));
        assert(s0.styles.last() == plain_style());
        assert(item_indent(s0.lists) =~= Seq::<char>::empty());
        assert(item_indent(s0.lists) + item_marker(s0.lists) =~= decimal(n as nat) + seq!['.', ' ']);
        assert(decimal(n as nat).len() > 0) by {
            lemma_decimal_nonempty(n as nat);
        }
        assert(s1.current =~= seq![numbered_line(n as nat, items.last(), m)[0]]);
        assert(s1.lists =~= seq![Some((n + 1) as u64)]);
        let s2 = run_events(pre + seq![a, b], m, theme);
        assert(s2 == step(s1, b, m, theme));
        assert(items.last().len() > 0);
        assert(s2.current =~= numbered_line(n as nat, items.last(), m));
        let s3 = run_events(x, m, theme);
        assert(s3 == step(s2, c, m, theme));
        assert(s3.lines =~= Seq::new(items.len(), |i: int| numbered_line((start + i) as nat, items[i], m)));
    }
}

proof fn lemma_decimal_nonempty(n: nat)
    ensures
        decimal(n).len() > 0,
    decreases n,
{
    if n >= 10 {
        lemma_decimal_nonempty(n / 10);
    }
}

/// Ordered lists count on: rendering an ordered list numbered from `start`
/// gives one line per item, the `i`-th numbered `start + i` (a number, a
/// dot and a space in the list-marker style, then the item text), and a
/// blank line after the list.
pub proof fn lemma_ordered_list_numbers(start: u64, items: Seq<Seq<char>>, m: MarkdownStyles, theme: Seq<char>)
    requires
        start + items.len() <= u64::MAX,
        forall|i: int| 0 <= i < items.len() ==> (#[trigger] items[i]).len() > 0,
    ensures
        ({
            let text = rendered_events(ordered_list_events(start, items), m, theme).text;
            &&& text.len() == items.len() + 1
            &&& forall|i: int|
                0 <= i < items.len() ==> #[trigger] text[i] == numbered_line((start + i) as nat, items[i], m)
            &&& text[items.len() as int].len() == 0
        }),
{
    let l = MdEventView::Start(MdTagView::List(Some(start)));
    let e = MdEventView::End(MdTagEnd::List);
    lemma_items_state(start, items, m, theme);
    let pre = seq![l] + item_events(items);
    assert(ordered_list_events(start, items) =~= pre + seq![e]);
    assert((pre + seq![e]).drop_last() =~= pre);
    let s = run_events(pre, m, theme);
    let f = run_events(pre + seq![e], m, theme);
    assert(f == step(s, e, m, theme));
    assert(f.lines == s.lines.push(Seq::empty()));
}

/// The style stack's depth after `evs` is [`style_depth`].
proof fn lemma_run_depth(evs: Seq<MdEventView>, m: MarkdownStyles, theme: Seq<char>)
    ensures
        run_events(evs, m, theme).styles.len() == style_depth(evs),
    decreases evs.len(),
{
    if evs.len() > 0 {
        lemma_run_depth(evs.drop_last(), m, theme);
    }
}

/// How many of the open elements `st` pushed a style.
pub open spec fn styled_open(st: Seq<MdTagEnd>) -> nat
    decreases st.len(),
{
    if st.len() == 0 {
        0
    } else {
        styled_open(st.drop_last()) + if pops_style(st.last()) { 1nat } else { 0nat }
    }
}

proof fn lemma_open_after_depth(evs: Seq<MdEventView>)
    requires
        open_after(evs) is Some,
    ensures
        style_depth(evs) == 1 + styled_open(open_after(evs)->0),
    decreases evs.len(),
{
    if evs.len() > 0 {
        lemma_open_after_depth(evs.drop_last());
        let st = open_after(evs.drop_last())->0;
        match evs.last() {
            MdEventView::Start(t) => {
                assert(st.push(end_of(t)).drop_last() == st);
            },
            MdEventView::End(k) => {
                assert(st == st.drop_last().push(st.last()));
            },
            _ => {},
        }
    }
}

proof fn lemma_open_after_prefix(evs: Seq<MdEventView>, n: int)
    requires
        0 <= n <= evs.len(),
        open_after(evs) is Some,
    ensures
        open_after(evs.take(n)) is Some,
    decreases evs.len() - n,
{
    if n < evs.len() {
        assert(evs.take(n + 1).drop_last() == evs.take(n));
        lemma_open_after_prefix(evs, n + 1);
    } else {
        assert(evs.take(n) == evs);
    }
}

/// Balanced events never empty the style stack.
pub proof fn lemma_balanced_styles_never_empty(evs: Seq<MdEventView>)
    requires
        md_balanced(evs),
    ensures
        styles_never_empty(evs),
{
    assert forall|i: int| 0 <= i < evs.len() implies style_depth(#[trigger] evs.take(i)) >= 1 by {
        lemma_open_after_prefix(evs, i);
        lemma_open_after_depth(evs.take(i));
    }
}

// ---------------------------------------------------------------------
// The renderer
// ---------------------------------------------------------------------

struct PendingLink {
    start: usize,
    end: usize,
    target: String,
}

struct OpenLink {
    start: usize,
    target: String,
}

/// The values of pending links.
spec fn pending_view(p: Seq<PendingLink>) -> Seq<PendingView> {
    p.map_values(|x: PendingLink| PendingView { start: x.start as nat, end: x.end as nat, target: x.target@ })
}

/// The values of open links.
spec fn open_links_view(p: Seq<OpenLink>) -> Seq<OpenLinkView> {
    p.map_values(|x: OpenLink| OpenLinkView { start: x.start as nat, target: x.target@ })
}

struct RenderState {
    lines: Vec<Line>,
    current: Vec<Span>,
    styles: Vec<Style>,
    lists: Vec<Option<u64>>,
    in_code_block: bool,
    in_table_head: bool,
    code_lang: String,
    code: String,
    links: Vec<Link>,
    pending: Vec<PendingLink>,
    open_links: Vec<OpenLink>,
}

impl View for RenderState {
    type V = RenderView;

    closed spec fn view(&self) -> RenderView {
        RenderView {
            lines: lines_view(self.lines@),
            current: spans_view(self.current@),
            styles: self.styles@,
            lists: self.lists@,
            in_code_block: self.in_code_block,
            in_table_head: self.in_table_head,
            code_lang: self.code_lang@,
            code: self.code@,
            links: links_view(self.links@),
            pending: pending_view(self.pending@),
            open_links: open_links_view(self.open_links@),
        }
    }
}

fn append_pending(links: &mut Vec<Link>, pending: &Vec<PendingLink>, line: usize)
    ensures
        links_view(final(links)@) == links_view(old(links)@) + placed_links(
            pending_view(pending@),
            line as nat,
        ),
{
    let mut i: usize = 0;
    while i < pending.len()
        invariant
            i <= pending@.len(),
            links_view(links@) == links_view(old(links)@) + placed_links(
                pending_view(pending@).take(i as int),
                line as nat,
            ),
        decreases pending.len() - i,
    {
        let p = &pending[i];
        let ghost before = links@;
        links.push(Link { line, span_start: p.start, span_end: p.end, target: p.target.clone() });
        proof {
            assert(links_view(links@) =~= links_view(before).push(links@[links@.len() - 1]@));
            assert(pending_view(pending@).take(i + 1) =~= pending_view(pending@).take(i as int).push(
                pending_view(pending@)[i as int],
            ));
            assert(placed_links(pending_view(pending@).take(i + 1), line as nat) =~= placed_links(
                pending_view(pending@).take(i as int),
                line as nat,
            ).push(placed_links(pending_view(pending@), line as nat)[i as int]));
        }
        i = i + 1;
    }
    assert(pending_view(pending@).take(pending@.len() as int) =~= pending_view(pending@));
}

fn heading_style_of(level: u8, m: &MarkdownStyles) -> (r: Style)
    ensures
        r == heading_style(level, *m),
{
    if level == 1 {
        m.heading_h1
    } else if level == 2 {
        m.heading_h2
    } else {
        m.heading_h3
    }
}

impl RenderState {
    fn new() -> (r: RenderState)
        ensures
            r@ == initial_view(),
    {
        let mut styles: Vec<Style> = Vec::new();
        styles.push(Style::default());
        let r = RenderState {
            lines: Vec::new(),
            current: Vec::new(),
            styles,
            lists: Vec::new(),
            in_code_block: false,
            in_table_head: false,
            code_lang: String::new(),
            code: String::new(),
            links: Vec::new(),
            pending: Vec::new(),
            open_links: Vec::new(),
        };
        assert(r@.lines =~= Seq::<Seq<SpanView>>::empty());
        assert(r@.current =~= Seq::<SpanView>::empty());
        assert(r@.styles =~= seq![plain_style()]);
        assert(r@.links =~= Seq::<LinkView>::empty());
        assert(r@.pending =~= Seq::<PendingView>::empty());
        assert(r@.open_links =~= Seq::<OpenLinkView>::empty());
        r
    }

    fn push_span(&mut self, text: String, style: Style)
        ensures
            final(self)@ == (RenderView { current: with_span(old(self)@.current, text@, style), ..old(self)@ }),
    {
        if !text.as_str().is_empty() {
            let ghost before = self.current@;
            self.current.push(Span::styled(text, style));
            assert(spans_view(self.current@) =~= spans_view(before).push(
                self.current@[self.current@.len() - 1]@,
            ));
        }
    }

    fn push_line(&mut self, line: Line)
        ensures
            final(self)@ == line_added(old(self)@, line@),
    {
        let ghost before = self.lines@;
        self.lines.push(line);
        assert(lines_view(self.lines@) =~= lines_view(before).push(self.lines@[self.lines@.len() - 1]@));
    }

    fn push_style(&mut self, st: Style)
        ensures
            final(self)@ == style_pushed(old(self)@, st),
    {
        self.styles.push(st);
    }

    fn pop_style(&mut self)
        ensures
            final(self)@ == style_popped(old(self)@),
    {
        if self.styles.len() > 0 {
            self.styles.pop();
        }
    }

    fn flush(&mut self)
        ensures
            final(self)@ == flushed(old(self)@),
    {
        let line = self.lines.len();
        let mut links: Vec<Link> = Vec::new();
        std::mem::swap(&mut links, &mut self.links);
        let mut pending: Vec<PendingLink> = Vec::new();
        std::mem::swap(&mut pending, &mut self.pending);
        append_pending(&mut links, &pending, line);
        self.links = links;
        let mut cur: Vec<Span> = Vec::new();
        std::mem::swap(&mut cur, &mut self.current);
        self.push_line(Line::from_spans(cur));
        assert(self@.current =~= Seq::<SpanView>::empty());
        assert(self@.pending =~= Seq::<PendingView>::empty());
    }

    fn start(&mut self, t: &MdTag, style: Style, m: &MarkdownStyles)
        ensures
            final(self)@ == started(old(self)@, t@, style, *m),
    {
        match t {
            MdTag::Heading(level) => {
                let st = style.patch(heading_style_of(*level, m));
                self.push_style(st);
                let hash = ['#'];
                assert(hash@ == seq!['#']);
                let mut prefix = repeat_chars(&hash, *level as usize);
                prefix.push(' ');
                assert(prefix@ == heading_prefix(*level));
                self.push_span(from_chars(prefix.as_slice()), st);
            },
            MdTag::Emphasis => self.push_style(style.add_modifier(Modifier::italic())),
            MdTag::Strong => self.push_style(style.add_modifier(Modifier::bold())),
            MdTag::Strikethrough => self.push_style(style.add_modifier(Modifier::crossed_out())),
            MdTag::BlockQuote => {
                let st = style.patch(m.blockquote);
                self.push_style(st);
                self.push_span(m.blockquote_marker.clone(), st);
            },
            MdTag::CodeBlock(info) => {
                let lang = match info {
                    Some(l) => l.clone(),
                    None => String::new(),
                };
                self.in_code_block = true;
                self.code = String::new();
                self.code_lang = lang.clone();
                if self.current.len() > 0 {
                    self.flush();
                }
                self.push_line(Line::blank());
                let mut fence: Vec<char> = Vec::new();
                push_all(&mut fence, &[' ', ' ', '`', '`', '`']);
                let lang_chars = to_chars(lang.as_str());
                push_all(&mut fence, lang_chars.as_slice());
                self.push_line(Line::single(Span::styled(from_chars(fence.as_slice()), m.code_fence_marker)));
            },
            MdTag::List(start) => {
                self.lists.push(*start);
            },
            MdTag::Item => {
                let n = self.lists.len();
                let depth = if n > 0 { n - 1 } else { 0 };
                let two = [' ', ' '];
                assert(two@ == seq![' ', ' ']);
                let mut text = repeat_chars(&two, depth);
                let ghost lists0 = self.lists@;
                assert(text@ == item_indent(lists0));
                if n > 0 && self.lists[n - 1].is_some() {
                    let k = self.lists[n - 1].unwrap();
                    push_decimal(&mut text, k);
                    let dot = ['.', ' '];
                    assert(dot@ == seq!['.', ' ']);
                    push_all(&mut text, &dot);
                    let next = if k == u64::MAX { 0 } else { k + 1 };
                    self.lists.set(n - 1, Some(next));
                    assert(text@ =~= item_indent(lists0) + item_marker(lists0));
                    assert(self.lists@ == item_lists(lists0));
                } else {
                    let bullet = ['\u{2022}', ' '];
                    assert(bullet@ == seq!['\u{2022}', ' ']);
                    push_all(&mut text, &bullet);
                    assert(text@ =~= item_indent(lists0) + item_marker(lists0));
                }
                self.push_span(from_chars(text.as_slice()), style.patch(m.list_marker));
            },
            MdTag::Link(dest) => {
                self.push_style(style.patch(m.link));
                let start = self.current.len();
                let ghost before = self.open_links@;
                self.open_links.push(OpenLink { start, target: dest.clone() });
                assert(open_links_view(self.open_links@) =~= open_links_view(before).push(
                    OpenLinkView { start: start as nat, target: dest@ },
                ));
            },
            MdTag::Image => self.push_style(style.patch(m.image_alt)),
            MdTag::TableHead => {
                self.in_table_head = true;
                self.push_style(style);
            },
            MdTag::TableRow => self.push_style(style),
            MdTag::TableCell => {
                let st = if self.in_table_head && m.table_header_bold {
                    style.add_modifier(Modifier::bold())
                } else {
                    style
                };
                self.push_style(st);
            },
            _ => {},
        }
    }

    fn close_link(&mut self)
        ensures
            final(self)@ == link_closed(old(self)@),
    {
        if self.open_links.len() > 0 {
            let ghost before = self.open_links@;
            let o = self.open_links.pop().unwrap();
            assert(open_links_view(self.open_links@) =~= open_links_view(before).drop_last());
            let end = self.current.len();
            if end > o.start {
                let ghost pb = self.pending@;
                self.pending.push(PendingLink { start: o.start, end, target: o.target });
                assert(pending_view(self.pending@) =~= pending_view(pb).push(
                    PendingView { start: o.start as nat, end: end as nat, target: o.target@ },
                ));
            }
        }
    }

    fn end(
        &mut self,
        t: &MdTagEnd,
        style: Style,
        m: &MarkdownStyles,
        theme: &SyntaxTheme,
        hl: &CodeHighlighter,
    )
        ensures
            final(self)@ == ended(old(self)@, *t, style, *m, theme.theme_name()),
    {
        match t {
            MdTagEnd::Heading => {
                self.pop_style();
                self.flush();
                self.push_line(Line::blank());
            },
            MdTagEnd::Paragraph => {
                self.flush();
                self.push_line(Line::blank());
            },
            MdTagEnd::Emphasis | MdTagEnd::Strong | MdTagEnd::Strikethrough | MdTagEnd::Image => {
                self.pop_style();
            },
            MdTagEnd::BlockQuote => {
                self.pop_style();
                self.flush();
            },
            MdTagEnd::CodeBlock => {
                self.in_code_block = false;
                let ghost before = self@;
                let mut lines: Vec<Line> = Vec::new();
                std::mem::swap(&mut lines, &mut self.lines);
                highlight_code_block(
                    self.code.as_str(),
                    self.code_lang.as_str(),
                    hl,
                    theme,
                    m.code_block_bg,
                    &mut lines,
                );
                self.lines = lines;
                self.code = String::new();
                let mut fence: Vec<char> = Vec::new();
                push_all(&mut fence, &[' ', ' ', '`', '`', '`']);
                self.push_line(Line::single(Span::styled(from_chars(fence.as_slice()), m.code_fence_marker)));
                self.push_line(Line::blank());
                proof {
                    let hlv = code_lines(syntect_highlight(before.code, before.code_lang, theme.theme_name()), m.code_block_bg);
                    assert(fence@ =~= fence_mark() + Seq::<char>::empty());
                    assert(self@.lines =~= before.lines + hlv + seq![fence_line(Seq::empty(), *m), Seq::empty()]);
                }
            },
            MdTagEnd::List => {
                self.lists.pop();
                self.push_line(Line::blank());
            },
            MdTagEnd::Item => self.flush(),
            MdTagEnd::Link => {
                self.pop_style();
                self.close_link();
            },
            MdTagEnd::TableHead => {
                self.in_table_head = false;
                self.pop_style();
                self.flush();
            },
            MdTagEnd::TableRow => {
                self.pop_style();
                self.flush();
            },
            MdTagEnd::TableCell => {
                self.pop_style();
                let two = [' ', ' '];
                assert(two@ == seq![' ', ' ']);
                self.push_span(from_chars(&two), style);
            },
            MdTagEnd::Table => self.push_line(Line::blank()),
            MdTagEnd::Other => {},
        }
    }

    fn step(&mut self, ev: &MdEvent, m: &MarkdownStyles, theme: &SyntaxTheme, hl: &CodeHighlighter)
        requires
            old(self).styles@.len() > 0,
        ensures
            final(self)@ == step(old(self)@, ev@, *m, theme.theme_name()),
    {
        let style = self.styles[self.styles.len() - 1];
        match ev {
            MdEvent::Start(t) => self.start(t, style, m),
            MdEvent::End(t) => self.end(t, style, m, theme, hl),
            MdEvent::Text(t) => {
                if self.in_code_block {
                    self.code.append(t.as_str());
                } else {
                    self.push_span(t.clone(), style);
                }
            },
            MdEvent::Code(t) => {
                let mut text: Vec<char> = Vec::new();
                text.push(' ');
                let tc = to_chars(t.as_str());
                push_all(&mut text, tc.as_slice());
                text.push(' ');
                assert(text@ =~= seq![' '] + t@ + seq![' ']);
                self.push_span(from_chars(text.as_slice()), m.code_inline);
            },
            MdEvent::SoftBreak => {
                if self.in_code_block {
                    let nl = from_chars(&['\n']);
                    self.code.append(nl.as_str());
                    assert(self.code@ =~= old(self).code@.push('\n'));
                } else {
                    let sp = [' '];
                    assert(sp@ == seq![' ']);
                    self.push_span(from_chars(&sp), style);
                }
            },
            MdEvent::HardBreak => {
                if self.in_code_block {
                    let nl = from_chars(&['\n']);
                    self.code.append(nl.as_str());
                    assert(self.code@ =~= old(self).code@.push('\n'));
                } else {
                    self.flush();
                }
            },
            MdEvent::Rule => {
                if self.current.len() > 0 {
                    self.flush();
                }
                let glyph = to_chars(m.horizontal_rule_glyph.as_str());
                let rule = repeat_chars(glyph.as_slice(), m.horizontal_rule_width);
                self.push_line(Line::single(Span::styled(from_chars(rule.as_slice()), m.horizontal_rule)));
            },
            MdEvent::TaskListMarker(checked) => {
                let on = ['[', 'x', ']', ' '];
                let off = ['[', ' ', ']', ' '];
                assert(on@ == seq!['[', 'x', ']', ' ']);
                assert(off@ == seq!['[', ' ', ']', ' ']);
                let mark = if *checked { from_chars(&on) } else { from_chars(&off) };
                self.push_span(mark, style);
            },
            MdEvent::Other => {},
        }
    }
}

/// Renders the markdown events `events` into styled display lines, with
/// the links found in them, using the markdown styles `m` and the syntax
/// theme `theme` for code blocks.
pub fn render_events(events: &Vec<MdEvent>, m: &MarkdownStyles, theme: &SyntaxTheme) -> (r: Rendered)
    requires
        styles_never_empty(events_view(events@)),
    ensures
        r@ == rendered_events(events_view(events@), *m, theme.theme_name()),
        links_in_bounds(r@.text, r@.links),
{
    let ghost evs = events_view(events@);
    let hl = CodeHighlighter::load_defaults();
    let mut st = RenderState::new();
    let mut i: usize = 0;
    while i < events.len()
        invariant
            i <= events@.len(),
            evs == events_view(events@),
            styles_never_empty(evs),
            st@ == run_events(evs.take(i as int), *m, theme.theme_name()),
        decreases events.len() - i,
    {
        proof {
            lemma_run_depth(evs.take(i as int), *m, theme.theme_name());
            assert(style_depth(evs.take(i as int)) >= 1);
            assert(evs.take(i + 1).drop_last() =~= evs.take(i as int));
        }
        st.step(&events[i], m, theme, &hl);
        i = i + 1;
    }
    assert(evs.take(events@.len() as int) =~= evs);
    if st.current.len() > 0 {
        st.flush();
    }
    proof {
        lemma_rendered_links_in_bounds(evs, *m, theme.theme_name());
    }
    Rendered { text: Text { lines: st.lines }, links: st.links }
}

/// Converts markdown `source` into styled display text, with the links
/// found in it: a leading frontmatter block is dropped first, then
/// pulldown-cmark's events (tables enabled) are rendered with the scheme's
/// markdown styles and syntax theme.
pub fn render(source: &str, scheme: &Scheme) -> (r: Rendered)
    ensures
        r@ == rendered_events(
            commonmark_events(without_frontmatter(source@)),
            scheme.markdown,
            scheme.syntax_theme.theme_name(),
        ),
        links_in_bounds(r@.text, r@.links),
{
    let body = strip_frontmatter(source);
    let events = md_events(body);
    proof {
        lemma_balanced_styles_never_empty(events_view(events@));
    }
    render_events(&events, &scheme.markdown, &scheme.syntax_theme)
}

// ---------------------------------------------------------------------
// Link columns
// ---------------------------------------------------------------------

/// Total column width of the spans `spans`.
pub open spec fn spans_width(spans: Seq<SpanView>) -> nat
    decreases spans.len(),
{
    if spans.len() == 0 {
        0
    } else {
        spans_width(spans.drop_last()) + display_width(spans.last().content) as nat
    }
}

/// `n` truncated to 16 bits (as `n as u16`).
pub open spec fn low16(n: nat) -> u16 {
    (n % 65536) as u16
}

/// The terminal-column range `[start, end)` a link with span range
/// `[span_start, span_end)` occupies on a line with spans `spans`, each
/// bound truncated to 16 bits.
pub open spec fn col_range(spans: Seq<SpanView>, span_start: nat, span_end: nat) -> (u16, u16) {
    (low16(spans_width(spans.take(span_start as int))), low16(spans_width(spans.take(span_end as int))))
}

fn width_upto(spans: &Vec<Span>, n: usize) -> (r: u128)
    requires
        n <= spans@.len(),
    ensures
        r == spans_width(spans_view(spans@).take(n as int)),
{
    let mut total: u128 = 0;
    let mut i: usize = 0;
    while i < n
        invariant
            i <= n <= spans@.len(),
            total == spans_width(spans_view(spans@).take(i as int)),
            total <= i * 0x1_0000_0000_0000_0000,
        decreases n - i,
    {
        let w = str_width(spans[i].content.as_str());
        assert(spans_view(spans@).take(i + 1).drop_last() =~= spans_view(spans@).take(i as int));
        assert((w as u128) < 0x1_0000_0000_0000_0000);
        assert(i < 0x1_0000_0000_0000_0000);
        assert(total + w <= (i + 1) * 0x1_0000_0000_0000_0000) by (nonlinear_arith)
            requires
                total <= i * 0x1_0000_0000_0000_0000,
                (w as int) < 0x1_0000_0000_0000_0000,
        ;
        total = total + w as u128;
        i = i + 1;
    }
    total
}

/// The `[start, end)` terminal-column range `link` occupies on `line`,
/// computed on demand since it is only needed for mouse hit-testing. Each
/// bound is the column width of the spans before it, truncated to 16 bits.
pub fn link_col_range(line: &Line, link: &Link) -> (r: (u16, u16))
    requires
        link.span_start <= link.span_end <= line.spans@.len(),
    ensures
        r == col_range(line@, link.span_start as nat, link.span_end as nat),
{
    let start = width_upto(&line.spans, link.span_start);
    let end = width_upto(&line.spans, link.span_end);
    ((start % 65536) as u16, (end % 65536) as u16)
}

} // verus!
