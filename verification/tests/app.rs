use term_markdown::app::{App, Area, Key, KeyAction};
use term_markdown::links::Target;
use term_markdown::markdown::link_col_range;
use term_markdown::scheme::Scheme;

/// The repository's knowledge-bundle index: frontmatter, a paragraph long
/// enough to wrap, and links.
const KNOWLEDGE_INDEX: &str = "---\ntype: index\ntitle: term-markdown knowledge bundle\ndescription: Root index for term-markdown's OKF-conformant knowledge bundle.\nresource: .\ntags: [index]\n---\n\n# term-markdown Knowledge Bundle\n\nDocuments *current, implemented* behavior, grounded with `file:line` references. For design history (why a decision was made, what was rejected), see `docs/plans/` once that exists.\n\n## Areas\n\n- [rendering](rendering/index.md) \u{2014} markdown \u{2192} styled `ratatui::Text` (`src/markdown.rs`)\n- [tui](tui/index.md) \u{2014} app loop, terminal setup, scroll/event handling (`src/main.rs`)\n\nNo concept docs exist yet \u{2014} add one under the relevant area the first time a change touches a subsystem with real invariants (see `AGENTS.md` \u{a7} Knowledge Bundle for when a doc is warranted).\n";

fn app_with(source: &str) -> App {
    App::new("/t/doc.md".to_string(), "/t".to_string(), Scheme::default_builtin(), source)
}

#[test]
fn selecting_link_at_u16_max_row_is_visible_and_does_not_panic() {
    let mut source = "x  \n".repeat(65_535);
    source.push_str("[end](target.md)\n");
    let mut app = app_with(&source);
    app.select_next_link(true, 20, 80);
    let link = &app.links[app.selected_link.unwrap()];
    let row = app.row_starts(80)[link.line];
    assert!(
        row >= app.scroll as u32 && row < app.scroll as u32 + 20,
        "link row {row} not visible in viewport [{}, {})",
        app.scroll,
        app.scroll as u32 + 20
    );
}

#[test]
fn row_starts_accounts_for_wrapped_lines() {
    let app = app_with("0123456789 abcde\n\nshort\n");
    let starts = app.row_starts(10);
    assert!(starts[1] - starts[0] > 1);
}

#[test]
fn index_doc_link_hit_tests_correctly_despite_frontmatter_and_wrapping() {
    let app = App::new(
        "/k/index.md".to_string(),
        "/k".to_string(),
        Scheme::default_builtin(),
        KNOWLEDGE_INDEX,
    );
    let width = 78u16;
    let rendering_link = app
        .links
        .iter()
        .position(|l| l.target == "rendering/index.md")
        .expect("rendering link present");
    let link = &app.links[rendering_link];
    let (start, end) = link_col_range(&app.body.lines[link.line], link);
    let click_col = start + (end - start) / 2;
    let click_row = app.row_starts(width)[link.line];
    let (line, sub_row) = app.line_at_row(click_row, width).unwrap();
    assert_eq!(sub_row, 0, "link's own line should not be pre-wrapped");
    assert_eq!(app.link_at(line, click_col), Some(rendering_link));
}

#[test]
fn line_at_row_finds_wrapped_continuation() {
    let app = app_with("0123456789 abcde\n\nshort\n");
    assert_eq!(app.line_at_row(0, 10), Some((0, 0)));
    assert_eq!(app.line_at_row(1, 10), Some((0, 1)));
}

#[test]
fn line_at_row_past_the_end_is_none() {
    let app = app_with("one\n");
    let total = *app.row_starts(10).last().unwrap();
    assert_eq!(app.line_at_row(total, 10), None);
}

#[test]
fn tab_cycles_through_links_and_shift_tab_goes_back() {
    let mut app = app_with("[a](a.md) and [b](b.md)\n");
    assert_eq!(app.handle_key(Key::Tab, 10, 80), KeyAction::Continue);
    assert_eq!(app.selected_link, Some(0));
    app.handle_key(Key::Tab, 10, 80);
    assert_eq!(app.selected_link, Some(1));
    app.handle_key(Key::Tab, 10, 80);
    assert_eq!(app.selected_link, Some(0));
    app.handle_key(Key::BackTab, 10, 80);
    assert_eq!(app.selected_link, Some(1));
}

#[test]
fn selecting_with_no_links_says_so() {
    let mut app = app_with("no links\n");
    app.select_next_link(true, 10, 80);
    assert_eq!(app.status.as_deref(), Some("no links in this document"));
    assert_eq!(app.selected_link, None);
}

#[test]
fn following_a_file_link_then_going_back_restores_place() {
    let mut app = app_with(&"line\n\n".repeat(40));
    app.scroll_by(5, 10, 80);
    let before = app.scroll;
    app.follow("other.md", Target::File("/t/other.md".to_string()), Some("# Other\n".to_string()));
    assert_eq!(app.path, "/t/other.md");
    assert_eq!(app.scroll, 0);
    assert_eq!(app.back_target().as_deref(), Some("/t/doc.md"));
    app.go_back(Some("line\n\n".repeat(40)));
    assert_eq!(app.path, "/t/doc.md");
    assert_eq!(app.scroll, before);
    assert!(app.history.is_empty());
}

#[test]
fn going_back_with_empty_history_says_so() {
    let mut app = app_with("x\n");
    app.go_back(None);
    assert_eq!(app.status.as_deref(), Some("no previous page"));
}

#[test]
fn missing_absolute_link_message_names_bundle_root() {
    let mut app = app_with("x\n");
    app.follow("/nope.md", Target::NotFound("/t/nope.md".to_string()), None);
    assert_eq!(app.status.as_deref(), Some("link target not found: /t/nope.md (bundle root: /t)"));
    assert_eq!(app.path, "/t/doc.md");
}

#[test]
fn external_and_anchor_links_only_report() {
    let mut app = app_with("x\n");
    app.follow("https://e.com", Target::External("https://e.com".to_string()), None);
    assert_eq!(app.status.as_deref(), Some("external link (not opened): https://e.com"));
    app.follow("#s", Target::Anchor("s".to_string()), None);
    assert_eq!(app.status.as_deref(), Some("in-page anchors not supported yet: #s"));
}

#[test]
fn scrolling_is_clamped_to_document_end() {
    let mut app = app_with(&"line\n\n".repeat(30));
    app.scroll_by(1000, 10, 80);
    assert_eq!(app.scroll as u32, app.max_scroll(10, 80));
    app.scroll_by(-5000, 10, 80);
    assert_eq!(app.scroll, 0);
}

#[test]
fn quit_and_follow_keys_are_reported_to_the_caller() {
    let mut app = app_with("[a](a.md)\n");
    assert_eq!(app.handle_key(Key::Char('q'), 10, 80), KeyAction::Quit);
    assert_eq!(app.handle_key(Key::Esc, 10, 80), KeyAction::Quit);
    app.handle_key(Key::Tab, 10, 80);
    assert_eq!(app.handle_key(Key::Enter, 10, 80), KeyAction::FollowSelected);
    assert_eq!(app.selected_target().as_deref(), Some("a.md"));
    assert_eq!(app.handle_key(Key::Backspace, 10, 80), KeyAction::GoBack);
}

#[test]
fn click_on_link_selects_it() {
    let mut app = app_with("abc [x](y.md)\n");
    let area = Area { x: 0, y: 0, width: 40, height: 10 };
    // the body has a one-cell border: row 1 is display row 0, col 5 is column 4
    assert_eq!(app.handle_click(1, 5, area, 38), KeyAction::FollowSelected);
    assert_eq!(app.selected_link, Some(0));
    assert_eq!(app.handle_click(1, 2, area, 38), KeyAction::Continue);
    assert_eq!(app.status.as_deref(), Some("click at line 0 col 1: no link there"));
}

#[test]
fn status_line_shows_position_and_hints() {
    let app = app_with("x\n");
    assert_eq!(
        app.status_text(10, 80),
        " line 0/0  |  q: quit  j/k: scroll  g/G: top/bottom  Tab: next link  Enter: open  Backspace: back"
    );
}

#[test]
fn selection_style_is_drawn_over_the_selected_link_only() {
    let mut app = app_with("a [b](c)\n");
    app.handle_key(Key::Tab, 10, 80);
    let shown = app.display_text();
    let link = &app.links[0];
    let sel = app.scheme.ui.selection;
    assert!(shown.lines[link.line].spans[link.span_start].style.add_modifier.reversed == sel.add_modifier.reversed);
    assert!(!app.body.lines[link.line].spans[link.span_start].style.add_modifier.reversed);
}

#[test]
fn going_back_with_empty_history_keeps_selection() {
    let mut app = app_with("[a](a.md)\n");
    app.handle_key(Key::Tab, 10, 80);
    app.go_back(None);
    assert_eq!(app.selected_link, Some(0));
    assert_eq!(app.bundle_root, "/t");
}
