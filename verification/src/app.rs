//! The viewer's state: the open document, its display-row accounting,
//! scrolling, link selection, link following and the back stack.
//!
//! Reading files and the terminal happens outside: where a step needs a
//! file's contents (opening a link, going back), the caller reads it and
//! hands the text (or `None` when reading failed) to the step.

use vstd::prelude::*;
use crate::chars::{concat, from_chars, has_prefix, number_string, push_all, to_chars};
use crate::links::{Target, TargetView};
use crate::markdown::{
    col_range, commonmark_events, link_col_range, links_in_bounds, links_view, render,
    rendered_events, without_frontmatter, Link, LinkView, RenderedView,
};
use crate::scheme::Scheme;
use crate::text::{lines_view, Line, Span, SpanView, Style, Text};
use crate::wrap::{wrapped_row_count, wrapped_rows};

verus! {

/// The characters of a display line, span after span.
pub open spec fn line_text(l: Seq<SpanView>) -> Seq<char>
    decreases l.len(),
{
    if l.len() == 0 {
        Seq::empty()
    } else {
        line_text(l.drop_last()) + l.last().content
    }
}

/// `n` capped at `u32::MAX`.
pub open spec fn cap32(n: nat) -> nat {
    if n > u32::MAX { u32::MAX as nat } else { n }
}

/// The display row each line starts on when wrapped at `width` columns,
/// followed by the total row count; sums saturate at `u32::MAX`.
pub open spec fn row_starts_of(lines: Seq<Seq<SpanView>>, width: nat) -> Seq<nat>
    decreases lines.len(),
{
    if lines.len() == 0 {
        seq![0]
    } else {
        let p = row_starts_of(lines.drop_last(), width);
        p.push(cap32(p.last() + wrapped_rows(line_text(lines.last()), width)))
    }
}

/// Total display rows of `lines` at `width` columns.
pub open spec fn total_rows(lines: Seq<Seq<SpanView>>, width: nat) -> nat {
    row_starts_of(lines, width).last()
}

/// How many leading entries of `s` are at most `row`.
pub open spec fn count_upto(s: Seq<nat>, row: nat) -> nat
    decreases s.len(),
{
    if s.len() == 0 || s[0] > row {
        0
    } else {
        1 + count_upto(s.drop_first(), row)
    }
}

/// The logical line and row within it that display row `row` falls on, or
/// `None` past the end of the document.
pub open spec fn line_at(lines: Seq<Seq<SpanView>>, width: nat, row: nat) -> Option<(nat, nat)> {
    let starts = row_starts_of(lines, width);
    if row >= starts.last() {
        None
    } else {
        let idx = count_upto(starts.take(lines.len() as int), row);
        let line = if idx > 0 { (idx - 1) as nat } else { 0 };
        Some((line, (row - starts[line as int]) as nat))
    }
}

/// The furthest the document can scroll: total rows minus the viewport.
pub open spec fn scroll_limit(lines: Seq<Seq<SpanView>>, height: nat, width: nat) -> nat {
    let t = total_rows(lines, width);
    if t > height { (t - height) as nat } else { 0 }
}

/// [`scroll_limit`] capped at what a `u16` scroll offset holds.
pub open spec fn scroll_limit16(lines: Seq<Seq<SpanView>>, height: nat, width: nat) -> nat {
    let m = scroll_limit(lines, height, width);
    if m > u16::MAX { u16::MAX as nat } else { m }
}

/// `v` clamped into `[lo, hi]`.
pub open spec fn clamp(v: int, lo: int, hi: int) -> int {
    if v < lo { lo } else if v > hi { hi } else { v }
}

/// The scroll offset after scrolling so that display row `row` is visible
/// in a viewport `height` rows tall, from `scroll`, and clamping to
/// `limit16`: a row above the viewport becomes its top row, a row below it
/// its bottom row.
pub open spec fn visible_scroll(scroll: nat, row: nat, height: nat, limit16: nat) -> nat {
    let s1: nat = if row < scroll {
        row
    } else if height > 0 && row >= scroll + height {
        let t = (row + 1 - height) as nat;
        if t > u16::MAX { u16::MAX as nat } else { t }
    } else {
        scroll
    };
    if s1 < limit16 { s1 } else { limit16 }
}

/// The link selected after stepping from `sel` among `n` links.
pub open spec fn next_selection(sel: Option<usize>, n: nat, forward: bool) -> nat {
    match sel {
        None => 0,
        Some(i) => if forward { ((i + 1) % (n as int)) as nat } else { ((i + n - 1) % (n as int)) as nat },
    }
}

/// The first link on line `line` whose column range contains `col`.
pub open spec fn link_hit_from(
    text: Seq<Seq<SpanView>>,
    links: Seq<LinkView>,
    line: nat,
    col: u16,
    k: int,
) -> Option<nat>
    decreases links.len() - k,
{
    if k < 0 || k >= links.len() {
        None
    } else {
        let l = links[k];
        let (start, end) = col_range(text[l.line as int], l.span_start, l.span_end);
        if l.line == line && start <= col && col < end {
            Some(k as nat)
        } else {
            link_hit_from(text, links, line, col, k + 1)
        }
    }
}

/// What a key press asks of the caller beyond the state change it made.
#[derive(Debug, PartialEq, Eq, Structural)]
pub enum KeyAction {
    /// Nothing more to do.
    Continue,
    /// Leave the viewer.
    Quit,
    /// Resolve the selected link's target and read the file it names, then
    /// call [`App::follow_selected`].
    FollowSelected,
    /// Read the file at the top of the back stack, then call
    /// [`App::go_back`].
    GoBack,
}

/// The keys the viewer handles.
#[derive(Debug, Clone, Copy, PartialEq, Eq, Structural)]
pub enum Key {
    Char(char),
    Esc,
    Down,
    Up,
    PageDown,
    PageUp,
    Home,
    End,
    Tab,
    BackTab,
    Enter,
    Backspace,
    Other,
}

/// A rectangle of the terminal, in cells.
#[derive(Debug, Clone, Copy, PartialEq, Eq, Structural)]
pub struct Area {
    pub x: u16,
    pub y: u16,
    pub width: u16,
    pub height: u16,
}

/// The viewer state for one open document.
pub struct App {
    /// The open file; the window title and the base of relative links.
    pub path: String,
    /// Base for absolute links; fixed at startup, never changed by `load`.
    pub bundle_root: String,
    /// Active colour scheme; fixed at startup, never changed by `load`.
    pub scheme: Scheme,
    pub body: Text,
    pub links: Vec<Link>,
    /// Offset of the first visible display row.
    pub scroll: u16,
    pub selected_link: Option<usize>,
    /// `(file, scroll)` to return to, most recent last.
    pub history: Vec<(String, u16)>,
    /// Message shown in place of the position line.
    pub status: Option<String>,
}

/// The value of a back stack.
pub open spec fn history_view(h: Seq<(String, u16)>) -> Seq<(Seq<char>, u16)> {
    h.map_values(|e: (String, u16)| (e.0@, e.1))
}

impl App {
    /// The document's links all point into its text, and the selection (if
    /// any) is one of them.
    pub open spec fn wf(&self) -> bool {
        &&& links_in_bounds(self.body@, links_view(self.links@))
        &&& self.selected_link matches Some(i) ==> i < self.links@.len()
    }

    /// The open document's rendered text and links.
    pub open spec fn document(&self) -> RenderedView {
        RenderedView { text: self.body@, links: links_view(self.links@) }
    }

    /// The viewer showing `source` (the contents of `path`), at the top,
    /// with nothing selected, no back stack and no message.
    pub fn new(path: String, bundle_root: String, scheme: Scheme, source: &str) -> (r: App)
        ensures
            r.wf(),
            r.path@ == path@,
            r.bundle_root@ == bundle_root@,
            r.document() == rendered_events(
                commonmark_events(without_frontmatter(source@)),
                scheme.markdown,
                scheme.syntax_theme.theme_name(),
            ),
            r.scroll == 0,
            r.selected_link is None,
            r.history@.len() == 0,
            r.status is None,
    {
        let rendered = render(source, &scheme);
        App {
            path,
            bundle_root,
            scheme,
            body: rendered.text,
            links: rendered.links,
            scroll: 0,
            selected_link: None,
            history: Vec::new(),
            status: None,
        }
    }

    /// Shows `source` as the contents of `path`: renders it with the scheme,
    /// scrolls to the top and clears the selection. The back stack, the
    /// scheme, the bundle root and the message are left alone.
    pub fn load(&mut self, path: String, source: &str)
        ensures
            final(self).wf(),
            final(self).path@ == path@,
            final(self).document() == rendered_events(
                commonmark_events(without_frontmatter(source@)),
                old(self).scheme.markdown,
                old(self).scheme.syntax_theme.theme_name(),
            ),
            final(self).scroll == 0,
            final(self).selected_link is None,
            final(self).history == old(self).history,
            final(self).status == old(self).status,
            final(self).scheme == old(self).scheme,
            final(self).bundle_root == old(self).bundle_root,
    {
        let rendered = render(source, &self.scheme);
        self.path = path;
        self.body = rendered.text;
        self.links = rendered.links;
        self.scroll = 0;
        self.selected_link = None;
    }

    /// The display row each logical line starts on at `width` columns, plus
    /// a trailing entry equal to the total row count. Kept in `u32`, wider
    /// than a scroll offset, so a document ending exactly at the `u16`
    /// boundary loses no row to rounding.
    pub fn row_starts(&self, width: u16) -> (r: Vec<u32>)
        ensures
            r@.map_values(|x: u32| x as nat) == row_starts_of(self.body@, width as nat),
    {
        let mut starts: Vec<u32> = Vec::new();
        let mut acc: u32 = 0;
        let mut i: usize = 0;
        while i < self.body.lines.len()
            invariant
                i <= self.body.lines@.len(),
                starts@.len() == i,
                starts@.map_values(|x: u32| x as nat).push(acc as nat) == row_starts_of(
                    self.body@.take(i as int),
                    width as nat,
                ),
            decreases self.body.lines.len() - i,
        {
            let ghost before = starts@;
            starts.push(acc);
            let text = line_string(&self.body.lines[i]);
            let rows = wrapped_row_count(text.as_str(), width);
            acc = if rows > u32::MAX - acc { u32::MAX } else { acc + rows };
            proof {
                assert(self.body@.take(i + 1).drop_last() =~= self.body@.take(i as int));
                assert(self.body@.take(i + 1).last() == self.body@[i as int]);
                assert(starts@.map_values(|x: u32| x as nat) =~= before.map_values(|x: u32| x as nat).push(
                    starts@[i as int] as nat,
                ));
            }
            i = i + 1;
        }
        assert(self.body@.take(self.body.lines@.len() as int) =~= self.body@);
        let ghost before = starts@;
        starts.push(acc);
        assert(starts@.map_values(|x: u32| x as nat) =~= before.map_values(|x: u32| x as nat).push(
            acc as nat,
        ));
        starts
    }

    /// The logical line and the row within it that display row `row`
    /// (counted from the top of the scrolled content) falls on, or `None` if
    /// `row` is past the end of the document.
    pub fn line_at_row(&self, row: u32, width: u16) -> (r: Option<(usize, u32)>)
        ensures
            r matches Some((l, s)) ==> line_at(self.body@, width as nat, row as nat) == Some(
                (l as nat, s as nat),
            ),
            r is None ==> line_at(self.body@, width as nat, row as nat) is None,
    {
        let starts = self.row_starts(width);
        let ghost sv = starts@.map_values(|x: u32| x as nat);
        proof {
            lemma_row_starts_len(self.body@, width as nat);
            lemma_row_starts_monotone(self.body@, width as nat);
        }
        let n = starts.len() - 1;
        let total = starts[n];
        if row >= total {
            return None;
        }
        let mut idx: usize = 0;
        assert(sv.take(n as int).skip(0) =~= sv.take(n as int));
        while idx < n && starts[idx] <= row
            invariant
                idx <= n,
                forall|k: int| 0 <= k < idx ==> sv[k] <= row,
                n + 1 == starts@.len(),
                sv == starts@.map_values(|x: u32| x as nat),
                count_upto(sv.take(n as int), row as nat) == idx + count_upto(
                    sv.take(n as int).skip(idx as int),
                    row as nat,
                ),
            decreases n - idx,
        {
            assert(sv.take(n as int).skip(idx as int).drop_first() =~= sv.take(n as int).skip(idx + 1));
            idx = idx + 1;
        }
        proof {
            if idx < n {
                assert(sv.take(n as int).skip(idx as int)[0] == sv[idx as int]);
            } else {
                assert(sv.take(n as int).skip(idx as int).len() == 0);
            }
        }
        let line = if idx > 0 { idx - 1 } else { 0 };
        proof {
            lemma_row_starts_monotone(self.body@, width as nat);
            if idx > 0 {
                assert(sv[line as int] <= row);
            } else {
                assert(sv[0] == 0);
            }
        }
        Some((line, row - starts[line]))
    }

    /// The furthest the document can scroll at this viewport size.
    pub fn max_scroll(&self, viewport_height: u16, width: u16) -> (r: u32)
        ensures
            r as nat == scroll_limit(self.body@, viewport_height as nat, width as nat),
    {
        let starts = self.row_starts(width);
        proof {
            lemma_row_starts_len(self.body@, width as nat);
        }
        let total = starts[starts.len() - 1];
        if total > viewport_height as u32 {
            total - viewport_height as u32
        } else {
            0
        }
    }

    /// [`App::max_scroll`] capped at what the `u16` scroll offset can hold.
    pub fn max_scroll_u16(&self, viewport_height: u16, width: u16) -> (r: u16)
        ensures
            r as nat == scroll_limit16(self.body@, viewport_height as nat, width as nat),
    {
        let m = self.max_scroll(viewport_height, width);
        if m > u16::MAX as u32 {
            u16::MAX
        } else {
            m as u16
        }
    }

    /// Scrolls by `delta` rows, staying within `[0, max_scroll]`.
    pub fn scroll_by(&mut self, delta: i32, viewport_height: u16, width: u16)
        requires
            i32::MIN <= old(self).scroll + delta <= i32::MAX,
        ensures
            final(self).scroll as int == clamp(
                old(self).scroll + delta,
                0,
                scroll_limit16(old(self).body@, viewport_height as nat, width as nat) as int,
            ),
            final(self).body == old(self).body,
            final(self).links == old(self).links,
            final(self).selected_link == old(self).selected_link,
            final(self).history == old(self).history,
            final(self).status == old(self).status,
            final(self).path == old(self).path,
            final(self).scheme == old(self).scheme,
            final(self).bundle_root == old(self).bundle_root,
    {
        let max = self.max_scroll_u16(viewport_height, width);
        let new = self.scroll as i32 + delta;
        let clamped = if new < 0 {
            0
        } else if new > max as i32 {
            max as i32
        } else {
            new
        };
        self.scroll = clamped as u16;
    }

    /// Scrolls the least needed for logical line `line`'s first row to be
    /// in a viewport `viewport_height` rows tall, then clamps to the
    /// document's end.
    pub fn ensure_line_visible(&mut self, line: usize, viewport_height: u16, width: u16)
        requires
            line <= old(self).body.lines@.len(),
        ensures
            final(self).scroll as nat == visible_scroll(
                old(self).scroll as nat,
                row_starts_of(old(self).body@, width as nat)[line as int],
                viewport_height as nat,
                scroll_limit16(old(self).body@, viewport_height as nat, width as nat),
            ),
            final(self).body == old(self).body,
            final(self).links == old(self).links,
            final(self).selected_link == old(self).selected_link,
            final(self).history == old(self).history,
            final(self).status == old(self).status,
            final(self).path == old(self).path,
            final(self).scheme == old(self).scheme,
            final(self).bundle_root == old(self).bundle_root,
    {
        let starts = self.row_starts(width);
        proof {
            lemma_row_starts_len(self.body@, width as nat);
        }
        let row = starts[line];
        if row < self.scroll as u32 {
            self.scroll = row as u16;
        } else if viewport_height > 0 && row >= self.scroll as u32 + viewport_height as u32 {
            let target = row as u64 + 1 - viewport_height as u64;
            self.scroll = if target > u16::MAX as u64 { u16::MAX } else { target as u16 };
        }
        let max = self.max_scroll_u16(viewport_height, width);
        if self.scroll > max {
            self.scroll = max;
        }
    }

    /// Selects the next (or previous) link, cycling, and scrolls it into
    /// view; with no links, says so instead.
    pub fn select_next_link(&mut self, forward: bool, viewport_height: u16, width: u16)
        requires
            old(self).wf(),
        ensures
            final(self).wf(),
            old(self).links@.len() == 0 ==> (final(self).status matches Some(m) && m@
                == "no links in this document"@) && final(self).selected_link == old(self).selected_link && final(self).scroll
                == old(self).scroll,
            old(self).links@.len() > 0 ==> {
                let next = next_selection(
                    old(self).selected_link,
                    old(self).links@.len(),
                    forward,
                );
                &&& final(self).selected_link == Some(next as usize)
                &&& final(self).scroll as nat == visible_scroll(
                    old(self).scroll as nat,
                    row_starts_of(old(self).body@, width as nat)[old(self).links@[next as int].line as int],
                    viewport_height as nat,
                    scroll_limit16(old(self).body@, viewport_height as nat, width as nat),
                )
                &&& final(self).status == old(self).status
            },
            final(self).body == old(self).body,
            final(self).links == old(self).links,
            final(self).history == old(self).history,
            final(self).path == old(self).path,
            final(self).scheme == old(self).scheme,
            final(self).bundle_root == old(self).bundle_root,
    {
        let n = self.links.len();
        if n == 0 {
            self.status = Some("no links in this document".to_owned());
            return;
        }
        let next = match self.selected_link {
            None => 0,
            Some(i) => if forward {
                if i + 1 == n { 0 } else { i + 1 }
            } else {
                if i == 0 { n - 1 } else { i - 1 }
            },
        };
        proof {
            match self.selected_link {
                None => {},
                Some(i) => {
                    if forward {
                        assert(((i + 1) % (n as int)) == (if i + 1 == n { 0 } else { i + 1 }))
                            by (nonlinear_arith)
                            requires
                                i < n,
                        ;
                    } else {
                        assert(((i + n - 1) % (n as int)) == (if i == 0 { n - 1 } else { i - 1 }))
                            by (nonlinear_arith)
                            requires
                                i < n,
                        ;
                    }
                },
            }
        }
        self.selected_link = Some(next);
        let line = self.links[next].line;
        proof {
            assert(links_view(self.links@)[next as int] == self.links@[next as int]@);
        }
        self.ensure_line_visible(line, viewport_height, width);
    }

    /// The index of the link (if any) on logical line `line` whose rendered
    /// column range contains `col`.
    pub fn link_at(&self, line: usize, col: u16) -> (r: Option<usize>)
        requires
            self.wf(),
        ensures
            r matches Some(k) ==> link_hit_from(self.body@, links_view(self.links@), line as nat, col, 0)
                == Some(k as nat),
            r matches Some(k) ==> k < self.links@.len() && self.links@[k as int].line == line && {
                let l = self.links@[k as int];
                let (start, end) = col_range(self.body@[line as int], l.span_start as nat, l.span_end as nat);
                start <= col && col < end
            },
            r is None ==> link_hit_from(self.body@, links_view(self.links@), line as nat, col, 0)
                is None,
    {
        let ghost lv = links_view(self.links@);
        let mut k: usize = 0;
        while k < self.links.len()
            invariant
                k <= self.links@.len(),
                lv == links_view(self.links@),
                self.wf(),
                link_hit_from(self.body@, lv, line as nat, col, 0) == link_hit_from(
                    self.body@,
                    lv,
                    line as nat,
                    col,
                    k as int,
                ),
            decreases self.links.len() - k,
        {
            let link = &self.links[k];
            assert(lv[k as int] == link@);
            if link.line == line {
                let (start, end) = link_col_range(&self.body.lines[link.line], link);
                if col >= start && col < end {
                    proof {
                        lemma_link_hit_found(self.body@, lv, line as nat, col, 0);
                    }
                    return Some(k);
                }
            }
            k = k + 1;
        }
        None
    }
}

/// The characters of a display line as one string.
fn line_string(line: &Line) -> (r: String)
    ensures
        r@ == line_text(line@),
{
    let mut out: Vec<char> = Vec::new();
    let mut i: usize = 0;
    while i < line.spans.len()
        invariant
            i <= line.spans@.len(),
            out@ == line_text(line@.take(i as int)),
        decreases line.spans.len() - i,
    {
        let cs = to_chars(line.spans[i].content.as_str());
        push_all(&mut out, cs.as_slice());
        assert(line@.take(i + 1).drop_last() =~= line@.take(i as int));
        i = i + 1;
    }
    assert(line@.take(line.spans@.len() as int) =~= line@);
    from_chars(out.as_slice())
}

/// The row starts have one entry per line plus the total.
pub proof fn lemma_row_starts_len(lines: Seq<Seq<SpanView>>, width: nat)
    ensures
        row_starts_of(lines, width).len() == lines.len() + 1,
        row_starts_of(lines, width)[0] == 0,
        forall|i: int| 0 <= i < row_starts_of(lines, width).len() ==> #[trigger] row_starts_of(lines, width)[i] <= u32::MAX,
    decreases lines.len(),
{
    if lines.len() > 0 {
        lemma_row_starts_len(lines.drop_last(), width);
    }
}

/// Each line starts no earlier than the one before it.
pub proof fn lemma_row_starts_monotone(lines: Seq<Seq<SpanView>>, width: nat)
    ensures
        forall|i: int, j: int|
            0 <= i <= j < row_starts_of(lines, width).len() ==> row_starts_of(lines, width)[i]
                <= row_starts_of(lines, width)[j],
    decreases lines.len(),
{
    lemma_row_starts_len(lines, width);
    if lines.len() > 0 {
        lemma_row_starts_monotone(lines.drop_last(), width);
        lemma_row_starts_len(lines.drop_last(), width);
    }
}


/// Where the viewer is: the open file, its scroll offset and the back stack.
pub struct NavView {
    pub path: Seq<char>,
    pub scroll: u16,
    pub history: Seq<(Seq<char>, u16)>,
}

/// Navigation after opening the file `p` from `n`: `p` at the top, with
/// where `n` was pushed onto the back stack.
pub open spec fn nav_opened(n: NavView, p: Seq<char>) -> NavView {
    NavView { path: p, scroll: 0, history: n.history.push((n.path, n.scroll)) }
}

/// Navigation after going back from `n`: the back stack's top is popped
/// and, if its file could be read again, shown at its saved offset.
pub open spec fn nav_back(n: NavView, reopened: bool) -> NavView {
    if n.history.len() == 0 {
        n
    } else {
        let top = n.history.last();
        if reopened {
            NavView { path: top.0, scroll: top.1, history: n.history.drop_last() }
        } else {
            NavView { history: n.history.drop_last(), ..n }
        }
    }
}

/// Going back after opening a link returns to exactly where the viewer
/// was: the same file, scroll offset and back stack.
pub proof fn lemma_back_undoes_open(n: NavView, p: Seq<char>)
    ensures
        nav_back(nav_opened(n, p), true) == n,
{
    assert(nav_opened(n, p).history.drop_last() =~= n.history);
}

/// The message following a link sets, given its raw `target`, what it
/// resolved to, whether the file (for a file target) could be read, and
/// the bundle root; `None` when it opened a file.
pub open spec fn follow_message(
    target: Seq<char>,
    resolved: TargetView,
    opened: bool,
    bundle_root: Seq<char>,
) -> Option<Seq<char>> {
    match resolved {
        TargetView::File(p) => if opened {
            None
        } else {
            Some("failed to open link: failed to read "@ + p)
        },
        TargetView::External(u) => Some("external link (not opened): "@ + u),
        TargetView::Anchor(f) => Some("in-page anchors not supported yet: #"@ + f),
        TargetView::NotFound(p) => Some(
            "link target not found: "@ + p + if has_prefix(target, seq!['/']) {
                " (bundle root: "@ + bundle_root + ")"@
            } else {
                Seq::empty()
            },
        ),
    }
}

/// The keys that leave the message in place (link selection).
pub open spec fn keeps_status(key: Key) -> bool {
    key == Key::Tab || key == Key::BackTab
}

/// The scroll step a key asks for, if it is a scrolling key, in a
/// viewport `height` rows tall.
pub open spec fn key_scroll(key: Key, height: nat) -> Option<int> {
    match key {
        Key::Char('j') | Key::Down => Some(1),
        Key::Char('k') | Key::Up => Some(-1),
        Key::Char('d') | Key::PageDown => Some((height / 2) as int),
        Key::Char('u') | Key::PageUp => Some(-((height / 2) as int)),
        Key::Char('g') | Key::Home => Some(-1073741824),
        Key::Char('G') | Key::End => Some(1073741823),
        _ => None,
    }
}

/// What a key asks of the caller.
pub open spec fn key_action(key: Key) -> KeyAction {
    match key {
        Key::Char('q') | Key::Esc => KeyAction::Quit,
        Key::Enter => KeyAction::FollowSelected,
        Key::Backspace => KeyAction::GoBack,
        _ => KeyAction::Continue,
    }
}

/// Whether a click at `(row, col)` lands inside the bordered `area`.
pub open spec fn click_inside(row: u16, col: u16, area: Area) -> bool {
    row > area.y && row + 1 < area.y + area.height && col > area.x && col + 1 < area.x + area.width
}

/// `text` with the spans `[start, end)` of line `line` restyled by
/// layering `sel` over them.
pub open spec fn with_selection(
    text: Seq<Seq<SpanView>>,
    line: nat,
    start: nat,
    end: nat,
    sel: Style,
) -> Seq<Seq<SpanView>> {
    text.update(
        line as int,
        Seq::new(
            text[line as int].len(),
            |k: int|
                if start <= k < end {
                    SpanView { content: text[line as int][k].content, style: text[line as int][k].style.layered(sel) }
                } else {
                    text[line as int][k]
                },
        ),
    )
}

/// The hint shown on the status line when there is no message.
pub open spec fn key_hint() -> Seq<char> {
    "q: quit  j/k: scroll  g/G: top/bottom  Tab: next link  Enter: open  Backspace: back"@
}


impl App {
    /// Where the viewer is.
    pub open spec fn nav(&self) -> NavView {
        NavView { path: self.path@, scroll: self.scroll, history: history_view(self.history@) }
    }

    /// Follows a link whose raw destination is `target` and which resolved
    /// to `resolved`. Only a file target changes the document: with its
    /// contents `source` (`None` when it could not be read) it is shown and
    /// the current file and offset are pushed onto the back stack. Every
    /// other outcome only sets an explanatory message; a missing absolute
    /// link's message names the bundle root, so a misdetected root is
    /// obvious.
    pub fn follow(&mut self, target: &str, resolved: Target, source: Option<String>)
        requires
            old(self).wf(),
        ensures
            final(self).wf(),
            (resolved@ is File && source is Some) ==> {
                &&& final(self).nav() == nav_opened(old(self).nav(), resolved@->File_0)
                &&& final(self).document() == rendered_events(
                    commonmark_events(without_frontmatter(source->0@)),
                    old(self).scheme.markdown,
                    old(self).scheme.syntax_theme.theme_name(),
                )
                &&& final(self).selected_link is None
                &&& final(self).status == old(self).status
            },
            !(resolved@ is File && source is Some) ==> {
                &&& final(self).nav() == old(self).nav()
                &&& final(self).document() == old(self).document()
                &&& final(self).selected_link == old(self).selected_link
                &&& final(self).status matches Some(m) && Some(m@) == follow_message(
                    target@,
                    resolved@,
                    false,
                    old(self).bundle_root@,
                )
            },
            final(self).bundle_root == old(self).bundle_root,
            final(self).scheme == old(self).scheme,
    {
        match resolved {
            Target::File(path) => {
                match source {
                    Some(src) => {
                        let from = (self.path.clone(), self.scroll);
                        self.load(path, src.as_str());
                        let ghost before = self.history@;
                        self.history.push(from);
                        assert(history_view(self.history@) =~= history_view(before).push(
                            (from.0@, from.1),
                        ));
                    },
                    None => {
                        let m = concat("failed to open link: failed to read ", path.as_str());
                        self.status = Some(m);
                    },
                }
            },
            Target::External(url) => {
                self.status = Some(concat("external link (not opened): ", url.as_str()));
            },
            Target::Anchor(fragment) => {
                self.status = Some(concat("in-page anchors not supported yet: #", fragment.as_str()));
            },
            Target::NotFound(path) => {
                let mut m = concat("link target not found: ", path.as_str());
                let tc = to_chars(target);
                if tc.len() > 0 && tc[0] == '/' {
                    m.append(" (bundle root: ");
                    m.append(self.bundle_root.as_str());
                    m.append(")");
                }
                assert(has_prefix(target@, seq!['/']) == (tc@.len() > 0 && tc@[0] == '/')) by {
                    if tc@.len() > 0 {
                        assert(tc@.subrange(0, 1) =~= seq![tc@[0]]);
                    }
                    if has_prefix(target@, seq!['/']) {
                        assert(target@.subrange(0, 1)[0] == '/');
                    }
                }
                self.status = Some(m);
            },
        }
    }

    /// The raw destination of the selected link, if any.
    pub fn selected_target(&self) -> (r: Option<String>)
        requires
            self.wf(),
        ensures
            r matches Some(t) ==> self.selected_link matches Some(i) && t@ == self.links@[i as int].target@,
            r is None ==> self.selected_link is None,
    {
        match self.selected_link {
            Some(i) => Some(self.links[i].target.clone()),
            None => None,
        }
    }

    /// Follows the selected link (nothing happens with none selected), given
    /// what its target resolved to and, for a file, its contents.
    pub fn follow_selected(&mut self, resolved: Target, source: Option<String>)
        requires
            old(self).wf(),
        ensures
            final(self).wf(),
            old(self).selected_link is None ==> final(self).nav() == old(self).nav()
                && final(self).document() == old(self).document() && final(self).status == old(self).status
                && final(self).selected_link is None,
            old(self).selected_link matches Some(i) ==> {
                let target = old(self).links@[i as int].target@;
                &&& (resolved@ is File && source is Some) ==> final(self).nav() == nav_opened(
                    old(self).nav(),
                    resolved@->File_0,
                ) && final(self).selected_link is None && final(self).status == old(self).status
                    && final(self).document() == rendered_events(
                    commonmark_events(without_frontmatter(source->0@)),
                    old(self).scheme.markdown,
                    old(self).scheme.syntax_theme.theme_name(),
                )
                &&& !(resolved@ is File && source is Some) ==> final(self).nav() == old(self).nav()
                    && final(self).document() == old(self).document()
                    && final(self).selected_link == old(self).selected_link
                    && (final(self).status matches Some(m) && Some(m@) == follow_message(
                    target,
                    resolved@,
                    false,
                    old(self).bundle_root@,
                ))
            },
            final(self).scheme == old(self).scheme,
            final(self).bundle_root == old(self).bundle_root,
    {
        if let Some(idx) = self.selected_link {
            let target = self.links[idx].target.clone();
            self.follow(target.as_str(), resolved, source);
        }
    }

    /// The file at the top of the back stack, if any.
    pub fn back_target(&self) -> (r: Option<String>)
        ensures
            r matches Some(p) ==> self.history@.len() > 0 && p@ == self.history@.last().0@,
            r is None ==> self.history@.len() == 0,
    {
        if self.history.len() > 0 {
            Some(self.history[self.history.len() - 1].0.clone())
        } else {
            None
        }
    }

    /// Goes back to the previous file: pops the back stack and, given the
    /// file's contents `source` (`None` when it could not be read again),
    /// shows it at its saved offset. With an empty back stack, says so.
    pub fn go_back(&mut self, source: Option<String>)
        requires
            old(self).wf(),
        ensures
            final(self).wf(),
            final(self).nav() == nav_back(old(self).nav(), source is Some),
            old(self).history@.len() == 0 ==> (final(self).status matches Some(m) && m@
                == "no previous page"@) && final(self).document() == old(self).document(),
            old(self).history@.len() > 0 ==> final(self).status == old(self).status,
            (old(self).history@.len() > 0 && source is Some) ==> final(self).document()
                == rendered_events(
                commonmark_events(without_frontmatter(source->0@)),
                old(self).scheme.markdown,
                old(self).scheme.syntax_theme.theme_name(),
            ),
            (old(self).history@.len() > 0 && source is None) ==> final(self).document() == old(
                self,
            ).document(),
            final(self).scheme == old(self).scheme,
            final(self).bundle_root == old(self).bundle_root,
            old(self).history@.len() == 0 ==> final(self).selected_link == old(self).selected_link,
    {
        if self.history.len() > 0 {
            let ghost before = self.history@;
            let (path, scroll) = self.history.pop().unwrap();
            assert(history_view(self.history@) =~= history_view(before).drop_last());
            if let Some(src) = source {
                self.load(path, src.as_str());
                self.scroll = scroll;
            }
        } else {
            self.status = Some("no previous page".to_owned());
        }
    }

    /// Clamps the scroll offset to the document's end at this viewport
    /// size (the content may have rewrapped since the last frame).
    pub fn clamp_scroll(&mut self, viewport_height: u16, width: u16)
        ensures
            final(self).scroll as nat == if (old(self).scroll as nat) < scroll_limit16(
                old(self).body@,
                viewport_height as nat,
                width as nat,
            ) {
                old(self).scroll as nat
            } else {
                scroll_limit16(old(self).body@, viewport_height as nat, width as nat)
            },
            final(self).body == old(self).body,
            final(self).links == old(self).links,
            final(self).selected_link == old(self).selected_link,
            final(self).history == old(self).history,
            final(self).status == old(self).status,
            final(self).path == old(self).path,
            final(self).scheme == old(self).scheme,
            final(self).bundle_root == old(self).bundle_root,
    {
        let max = self.max_scroll_u16(viewport_height, width);
        if self.scroll > max {
            self.scroll = max;
        }
    }

    /// Handles a key press in a viewport `viewport_height` rows tall and
    /// `width` columns wide. Any key but Tab / Shift-Tab clears the
    /// message; scrolling keys scroll (half a viewport for `d` / `u`, to
    /// either end for `g` / `G`); Tab / Shift-Tab select the next / previous
    /// link. Quitting, following the selection and going back are asked of
    /// the caller through the result.
    pub fn handle_key(&mut self, key: Key, viewport_height: u16, width: u16) -> (r: KeyAction)
        requires
            old(self).wf(),
        ensures
            final(self).wf(),
            r == key_action(key),
            !keeps_status(key) ==> final(self).status is None,
            key_scroll(key, viewport_height as nat) matches Some(d) ==> final(self).scroll as int
                == clamp(
                old(self).scroll + d,
                0,
                scroll_limit16(old(self).body@, viewport_height as nat, width as nat) as int,
            ),
            (key_scroll(key, viewport_height as nat) is None && !keeps_status(key))
                ==> final(self).scroll == old(self).scroll,
            !keeps_status(key) ==> final(self).selected_link == old(self).selected_link,
            keeps_status(key) && old(self).links@.len() > 0 ==> {
                let next = next_selection(
                    old(self).selected_link,
                    old(self).links@.len(),
                    key == Key::Tab,
                );
                &&& final(self).selected_link == Some(next as usize)
                &&& final(self).scroll as nat == visible_scroll(
                    old(self).scroll as nat,
                    row_starts_of(old(self).body@, width as nat)[old(self).links@[next as int].line as int],
                    viewport_height as nat,
                    scroll_limit16(old(self).body@, viewport_height as nat, width as nat),
                )
                &&& final(self).status == old(self).status
            },
            keeps_status(key) && old(self).links@.len() == 0 ==> (final(self).status matches Some(m)
                && m@ == "no links in this document"@) && final(self).scroll == old(self).scroll
                && final(self).selected_link == old(self).selected_link,
            final(self).body == old(self).body,
            final(self).links == old(self).links,
            final(self).history == old(self).history,
            final(self).path == old(self).path,
            final(self).scheme == old(self).scheme,
            final(self).bundle_root == old(self).bundle_root,
    {
        if !(key == Key::Tab || key == Key::BackTab) {
            self.status = None;
        }
        let h = viewport_height;
        match key {
            Key::Char('q') | Key::Esc => KeyAction::Quit,
            Key::Char('j') | Key::Down => {
                self.scroll_by(1, h, width);
                KeyAction::Continue
            },
            Key::Char('k') | Key::Up => {
                self.scroll_by(-1, h, width);
                KeyAction::Continue
            },
            Key::Char('d') | Key::PageDown => {
                self.scroll_by(h as i32 / 2, h, width);
                KeyAction::Continue
            },
            Key::Char('u') | Key::PageUp => {
                self.scroll_by(-(h as i32) / 2, h, width);
                KeyAction::Continue
            },
            Key::Char('g') | Key::Home => {
                self.scroll_by(i32::MIN / 2, h, width);
                KeyAction::Continue
            },
            Key::Char('G') | Key::End => {
                self.scroll_by(i32::MAX / 2, h, width);
                KeyAction::Continue
            },
            Key::Tab => {
                self.select_next_link(true, h, width);
                KeyAction::Continue
            },
            Key::BackTab => {
                self.select_next_link(false, h, width);
                KeyAction::Continue
            },
            Key::Enter => KeyAction::FollowSelected,
            Key::Backspace => KeyAction::GoBack,
            _ => KeyAction::Continue,
        }
    }

    /// Handles a left click at screen `(row, col)` on the bordered body
    /// `area`, whose content is `width` columns wide. A click on the first
    /// display row of a logical line selects the link under it and asks the
    /// caller to follow it; a click on a line's wrapped continuation, or
    /// beside every link, only explains itself in the message.
    pub fn handle_click(&mut self, row: u16, col: u16, area: Area, width: u16) -> (r: KeyAction)
        requires
            old(self).wf(),
            area.y + area.height <= u16::MAX,
            area.x + area.width <= u16::MAX,
            row > area.y ==> row < u16::MAX,
            row > area.y && row + 1 < area.y + area.height && col > area.x ==> col < u16::MAX,
            click_inside(row, col, area) ==> old(self).scroll + (row - area.y - 1) <= u16::MAX,
        ensures
            final(self).wf(),
            !click_inside(row, col, area) ==> r == KeyAction::Continue && final(self).status
                == old(self).status && final(self).selected_link == old(self).selected_link,
            click_inside(row, col, area) ==> {
                let drow = (old(self).scroll + (row - area.y - 1)) as nat;
                let dcol = (col - area.x - 1) as u16;
                match line_at(old(self).body@, width as nat, drow) {
                    None => r == KeyAction::Continue && final(self).status == old(self).status
                        && final(self).selected_link == old(self).selected_link,
                    Some((line, sub)) => if sub == 0 {
                        match link_hit_from(old(self).body@, links_view(old(self).links@), line, dcol, 0) {
                            Some(k) => r == KeyAction::FollowSelected && final(self).status is None
                                && final(self).selected_link == Some(k as usize),
                            None => r == KeyAction::Continue && final(self).selected_link == old(
                                self,
                            ).selected_link && (final(self).status matches Some(m) && m@
                                == "click at line "@ + crate::chars::decimal(line) + " col "@
                                + crate::chars::decimal(dcol as nat) + ": no link there"@),
                        }
                    } else {
                        r == KeyAction::Continue && final(self).selected_link == old(self).selected_link
                            && (final(self).status matches Some(m) && m@ == "click on wrapped row "@
                            + crate::chars::decimal(sub) + " of line "@ + crate::chars::decimal(line)
                            + ": not supported yet, use Tab instead"@)
                    },
                }
            },
            final(self).body == old(self).body,
            final(self).links == old(self).links,
            final(self).history == old(self).history,
            final(self).path == old(self).path,
            final(self).scroll == old(self).scroll,
            final(self).scheme == old(self).scheme,
            final(self).bundle_root == old(self).bundle_root,
    {
        let inside = row > area.y && row + 1 < area.y + area.height && col > area.x && col + 1
            < area.x + area.width;
        if !inside {
            return KeyAction::Continue;
        }
        let drow = self.scroll + (row - area.y - 1);
        let dcol = col - area.x - 1;
        match self.line_at_row(drow as u32, width) {
            Some((line, sub)) => {
                if sub == 0 {
                    match self.link_at(line, dcol) {
                        Some(idx) => {
                            self.status = None;
                            self.selected_link = Some(idx);
                            proof {
                                lemma_link_hit_bounds(self.body@, links_view(self.links@), line as nat, dcol, 0);
                            }
                            KeyAction::FollowSelected
                        },
                        None => {
                            let mut m = concat("click at line ", number_string(line as u64).as_str());
                            m.append(" col ");
                            m.append(number_string(dcol as u64).as_str());
                            m.append(": no link there");
                            self.status = Some(m);
                            KeyAction::Continue
                        },
                    }
                } else {
                    let mut m = concat("click on wrapped row ", number_string(sub as u64).as_str());
                    m.append(" of line ");
                    m.append(number_string(line as u64).as_str());
                    m.append(": not supported yet, use Tab instead");
                    self.status = Some(m);
                    KeyAction::Continue
                }
            },
            None => KeyAction::Continue,
        }
    }

    /// The status line: the message if there is one, else the scroll
    /// position out of the furthest offset, and the key hints.
    pub fn status_text(&self, viewport_height: u16, width: u16) -> (r: String)
        ensures
            self.status matches Some(m) ==> r@ == " "@ + m@,
            self.status is None ==> r@ == " line "@ + crate::chars::decimal(self.scroll as nat) + "/"@
                + crate::chars::decimal(scroll_limit(self.body@, viewport_height as nat, width as nat))
                + "  |  "@ + key_hint(),
    {
        match &self.status {
            Some(m) => concat(" ", m.as_str()),
            None => {
                let max = self.max_scroll(viewport_height, width);
                let mut s = concat(" line ", number_string(self.scroll as u64).as_str());
                s.append("/");
                s.append(number_string(max as u64).as_str());
                s.append("  |  ");
                s.append("q: quit  j/k: scroll  g/G: top/bottom  Tab: next link  Enter: open  Backspace: back");
                s
            },
        }
    }

    /// The text to draw: the document with the selection style layered over
    /// the selected link's spans (the document itself is left alone).
    pub fn display_text(&self) -> (r: Text)
        requires
            self.wf(),
        ensures
            self.selected_link is None ==> r@ == self.body@,
            self.selected_link matches Some(i) ==> {
                let l = links_view(self.links@)[i as int];
                r@ == with_selection(self.body@, l.line, l.span_start, l.span_end, self.scheme.ui.selection)
            },
    {
        let mut lines: Vec<Line> = Vec::new();
        let mut i: usize = 0;
        while i < self.body.lines.len()
            invariant
                i <= self.body.lines@.len(),
                lines_view(lines@) == self.body@.take(i as int),
            decreases self.body.lines.len() - i,
        {
            let ghost before = lines@;
            lines.push(self.body.lines[i].duplicate());
            assert(lines_view(lines@) =~= lines_view(before).push(self.body@[i as int]));
            assert(self.body@.take(i + 1) =~= self.body@.take(i as int).push(self.body@[i as int]));
            i = i + 1;
        }
        assert(self.body@.take(self.body.lines@.len() as int) =~= self.body@);
        match self.selected_link {
            None => Text { lines },
            Some(idx) => {
                let link = &self.links[idx];
                let sel = self.scheme.ui.selection;
                proof {
                    assert(links_view(self.links@)[idx as int] == link@);
                }
                let ln = link.line;
                let mut line = Line::blank();
                std::mem::swap(&mut line, &mut lines[ln]);
                let ghost orig = line@;
                let mut k: usize = 0;
                let mut spans: Vec<Span> = Vec::new();
                std::mem::swap(&mut spans, &mut line.spans);
                let mut out: Vec<Span> = Vec::new();
                let ghost sv = crate::text::spans_view(spans@);
                while k < spans.len()
                    invariant
                        k <= spans@.len(),
                        sv == crate::text::spans_view(spans@),
                        crate::text::spans_view(out@) == Seq::new(
                            k as nat,
                            |j: int|
                                if link.span_start <= j < link.span_end {
                                    SpanView { content: sv[j].content, style: sv[j].style.layered(sel) }
                                } else {
                                    sv[j]
                                },
                        ),
                    decreases spans.len() - k,
                {
                    let s = spans[k].duplicate();
                    let ghost before = out@;
                    if link.span_start <= k && k < link.span_end {
                        out.push(Span { content: s.content, style: s.style.patch(sel) });
                    } else {
                        out.push(s);
                    }
                    assert(crate::text::spans_view(out@) =~= crate::text::spans_view(before).push(
                        out@[k as int]@,
                    ));
                    k = k + 1;
                }
                let ghost before_lines = lines@;
                lines.set(ln, Line::from_spans(out));
                assert(lines_view(lines@) =~= with_selection(
                    self.body@,
                    link.line as nat,
                    link.span_start as nat,
                    link.span_end as nat,
                    sel,
                ));
                Text { lines }
            },
        }
    }
}

proof fn lemma_link_hit_bounds(text: Seq<Seq<SpanView>>, links: Seq<LinkView>, line: nat, col: u16, k: int)
    ensures
        link_hit_from(text, links, line, col, k) matches Some(j) ==> j < links.len(),
    decreases links.len() - k,
{
    if 0 <= k < links.len() {
        lemma_link_hit_bounds(text, links, line, col, k + 1);
    }
}


proof fn lemma_count_upto_take(s: Seq<nat>, row: nat, l: int)
    requires
        0 <= l < s.len(),
        forall|i: int, j: int| 0 <= i <= j < s.len() ==> s[i] <= s[j],
        s[l] <= row,
        l + 1 < s.len() ==> s[l + 1] > row,
    ensures
        count_upto(s, row) == l + 1,
    decreases l,
{
    if l > 0 {
        let d = s.drop_first();
        assert forall|i: int, j: int| 0 <= i <= j < d.len() implies d[i] <= d[j] by {
            assert(d[i] == s[i + 1]);
            assert(d[j] == s[j + 1]);
        }
        assert(d[l - 1] == s[l]);
        if l < d.len() {
            assert(d[l] == s[l + 1]);
        }
        lemma_count_upto_take(d, row, l - 1);
        assert(s[0] <= s[l]);
    } else {
        if s.len() > 1 {
            assert(s.drop_first()[0] == s[1]);
        }
        assert(count_upto(s.drop_first(), row) == 0);
    }
}

proof fn lemma_count_upto_bounds(s: Seq<nat>, row: nat)
    requires
        forall|i: int, j: int| 0 <= i <= j < s.len() ==> s[i] <= s[j],
    ensures
        count_upto(s, row) <= s.len(),
        count_upto(s, row) > 0 ==> s[count_upto(s, row) - 1] <= row,
        count_upto(s, row) < s.len() ==> s[count_upto(s, row) as int] > row,
    decreases s.len(),
{
    if s.len() > 0 && s[0] <= row {
        assert forall|i: int, j: int| 0 <= i <= j < s.drop_first().len() implies s.drop_first()[i]
            <= s.drop_first()[j] by {
            assert(s.drop_first()[i] == s[i + 1]);
            assert(s.drop_first()[j] == s[j + 1]);
        }
        lemma_count_upto_bounds(s.drop_first(), row);
        let c = count_upto(s.drop_first(), row);
        if c > 0 {
            assert(s.drop_first()[c - 1] == s[c as int]);
        }
        if c < s.drop_first().len() {
            assert(s.drop_first()[c as int] == s[c + 1 as int]);
        }
    }
}

/// The display row a click lands on maps back to a logical line and a row
/// within it: that line starts at or before the row, the next line after
/// it.
pub proof fn lemma_line_at_inverse(lines: Seq<Seq<SpanView>>, width: nat, row: nat)
    ensures
        line_at(lines, width, row) matches Some((l, sub)) ==> {
            let starts = row_starts_of(lines, width);
            &&& l < lines.len()
            &&& starts[l as int] + sub == row
            &&& row < starts[l + 1 as int]
        },
{
    let starts = row_starts_of(lines, width);
    lemma_row_starts_len(lines, width);
    lemma_row_starts_monotone(lines, width);
    if row < starts.last() {
        let n = lines.len() as int;
        let t = starts.take(n);
        assert forall|i: int, j: int| 0 <= i <= j < t.len() implies t[i] <= t[j] by {}
        lemma_count_upto_bounds(t, row);
        let idx = count_upto(t, row);
        if idx == 0 {
            if n > 0 {
                assert(t[0] == 0);
            }
        }
    }
}

/// Display row `starts[l]`, the first row of a logical line `l` that takes
/// at least one row, maps back to line `l`, row 0 — so a click there
/// hit-tests columns from that line's start.
pub proof fn lemma_line_at_line_start(lines: Seq<Seq<SpanView>>, width: nat, l: nat)
    requires
        l < lines.len(),
        row_starts_of(lines, width)[l as int] < row_starts_of(lines, width)[l + 1 as int],
    ensures
        line_at(lines, width, row_starts_of(lines, width)[l as int]) == Some((l, 0nat)),
{
    let starts = row_starts_of(lines, width);
    lemma_row_starts_len(lines, width);
    lemma_row_starts_monotone(lines, width);
    let n = lines.len() as int;
    let t = starts.take(n);
    let row = starts[l as int];
    assert(starts.last() == starts[n]);
    assert(row < starts.last());
    lemma_count_upto_take(t, row, l as int);
}

/// Selecting a link that lies further down than the viewport shows, or
/// above it, scrolls so that its first row is visible — whenever the row
/// is reachable with a `u16` scroll offset.
pub proof fn lemma_selected_row_visible(scroll: nat, row: nat, height: nat, total: nat)
    requires
        height > 0,
        row < total,
        scroll <= u16::MAX,
        row + 1 <= u16::MAX + height,
    ensures
        ({
            let limit = if total > height { (total - height) as nat } else { 0nat };
            let limit16 = if limit > u16::MAX { u16::MAX as nat } else { limit };
            let s = visible_scroll(scroll, row, height, limit16);
            s <= row && row < s + height
        }),
{
}

/// Selecting the next link and then the previous one returns to the link
/// first selected.
pub proof fn lemma_select_back_undoes_forward(i: usize, n: nat)
    requires
        i < n,
        n <= usize::MAX,
    ensures
        next_selection(Some(next_selection(Some(i), n, true) as usize), n, false) == i,
{
    let f = next_selection(Some(i), n, true);
    assert(f < n) by (nonlinear_arith)
        requires
            f == (i + 1) % (n as int),
            i < n,
    ;
    assert((f as usize) as nat == f);
    assert(f == (if i + 1 == n { 0 } else { i + 1 })) by (nonlinear_arith)
        requires
            f == (i + 1) % (n as int),
            i < n,
    ;
    assert(((f + n - 1) % (n as int)) == i) by (nonlinear_arith)
        requires
            f == (if i + 1 == n { 0 } else { i + 1 }),
            i < n,
    ;
}


/// Whether link `l` covers column `col` of line `line`.
pub open spec fn link_covers(text: Seq<Seq<SpanView>>, l: LinkView, line: nat, col: u16) -> bool {
    let (start, end) = col_range(text[l.line as int], l.span_start, l.span_end);
    l.line == line && start <= col && col < end
}

/// A click hits a link only on the clicked line: the hit is the first
/// link, from `k` on, that lies on line `line` and covers column `col`;
/// no hit means no link from `k` on does.
pub proof fn lemma_link_hit_found(text: Seq<Seq<SpanView>>, links: Seq<LinkView>, line: nat, col: u16, k: int)
    requires
        0 <= k,
    ensures
        link_hit_from(text, links, line, col, k) matches Some(j) ==> {
            &&& k <= j < links.len()
            &&& links[j as int].line == line
            &&& link_covers(text, links[j as int], line, col)
            &&& forall|i: int| k <= i < j ==> !link_covers(text, #[trigger] links[i], line, col)
        },
        link_hit_from(text, links, line, col, k) is None ==> forall|i: int|
            k <= i < links.len() ==> !link_covers(text, #[trigger] links[i], line, col),
    decreases links.len() - k,
{
    if k < links.len() {
        lemma_link_hit_found(text, links, line, col, k + 1);
    }
}

} // verus!
