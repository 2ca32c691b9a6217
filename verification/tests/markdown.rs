use term_markdown::highlight::{code_line_spans, HlRange, SyntaxTheme};
use term_markdown::markdown::{link_col_range, render, strip_frontmatter, Rendered};
use term_markdown::scheme::Scheme;
use term_markdown::text::{Color, Line, Style};

fn render_default(source: &str) -> Rendered {
    render(source, &Scheme::default_builtin())
}

fn line_text(line: &Line) -> String {
    line.spans.iter().map(|s| s.content.as_str()).collect()
}

#[test]
fn extracts_link_target_and_text() {
    let rendered = render_default("see [the docs](./other.md) for more");
    assert_eq!(rendered.links.len(), 1);
    let link = &rendered.links[0];
    assert_eq!(link.target, "./other.md");
    let line = &rendered.text.lines[link.line];
    let text: String = line.spans[link.span_start..link.span_end].iter().map(|s| s.content.as_str()).collect();
    assert_eq!(text, "the docs");
}

#[test]
fn link_col_range_matches_preceding_text_width() {
    let rendered = render_default("abc [x](y)");
    let link = &rendered.links[0];
    let line = &rendered.text.lines[link.line];
    let (start, end) = link_col_range(line, link);
    assert_eq!(start, 4);
    assert_eq!(end, 5);
}

#[test]
fn plain_text_has_no_links() {
    let rendered = render_default("just plain text, no links here");
    assert!(rendered.links.is_empty());
}

#[test]
fn fenced_code_block_is_highlighted_without_touching_links() {
    let rendered = render_default("```rust\nfn main() {}\n```");
    assert!(rendered.links.is_empty());
    assert!(rendered.text.lines.len() >= 3);
}

#[test]
fn frontmatter_is_stripped_before_parsing() {
    let src = "---\ntitle: hi\ntags: [a, b]\n---\n\n# Heading\n\nbody text\n";
    let rendered = render_default(src);
    assert_eq!(line_text(&rendered.text.lines[0]), "# Heading");
}

#[test]
fn frontmatter_only_file_renders_empty() {
    let rendered = render_default("---\ntitle: hi\n---\n");
    let lines = &rendered.text.lines;
    assert!(lines.is_empty() || (lines.len() == 1 && lines[0].spans.is_empty()));
}

#[test]
fn no_frontmatter_is_left_untouched() {
    let rendered = render_default("# Heading\n\nbody\n");
    assert_eq!(line_text(&rendered.text.lines[0]), "# Heading");
}

#[test]
fn dashes_without_closing_fence_are_not_treated_as_frontmatter() {
    let rendered = render_default("---\nnot frontmatter, just a rule above this text\n");
    let joined: String = rendered.text.lines.iter().map(line_text).collect();
    assert!(joined.contains("not frontmatter"));
}

#[test]
fn heading_h1_uses_scheme_style() {
    let mut scheme = Scheme::default_builtin();
    scheme.markdown.heading_h1 = Style::default().fg(Color::Rgb(0x12, 0x34, 0x56));
    let rendered = render("# Title", &scheme);
    assert_eq!(rendered.text.lines[0].spans[0].style.fg, Some(Color::Rgb(0x12, 0x34, 0x56)));
}

#[test]
fn heading_h2_uses_scheme_style() {
    let mut scheme = Scheme::default_builtin();
    scheme.markdown.heading_h2 = Style::default().fg(Color::Rgb(0x22, 0x33, 0x44));
    let rendered = render("## Title", &scheme);
    assert_eq!(rendered.text.lines[0].spans[0].style.fg, Some(Color::Rgb(0x22, 0x33, 0x44)));
}

#[test]
fn heading_h3_and_deeper_use_scheme_style() {
    let mut scheme = Scheme::default_builtin();
    scheme.markdown.heading_h3 = Style::default().fg(Color::Rgb(0x55, 0x66, 0x77));
    let h3 = render("### Title", &scheme);
    let h6 = render("###### Title", &scheme);
    assert_eq!(h3.text.lines[0].spans[0].style.fg, Some(Color::Rgb(0x55, 0x66, 0x77)));
    assert_eq!(h6.text.lines[0].spans[0].style.fg, Some(Color::Rgb(0x55, 0x66, 0x77)));
}

#[test]
fn blockquote_uses_scheme_style_and_marker() {
    let mut scheme = Scheme::default_builtin();
    scheme.markdown.blockquote = Style::default().fg(Color::Rgb(1, 2, 3));
    scheme.markdown.blockquote_marker = ">> ".to_string();
    let rendered = render("> quoted", &scheme);
    let line = &rendered.text.lines[0];
    assert!(line_text(line).starts_with(">> "));
    assert_eq!(line.spans[0].style.fg, Some(Color::Rgb(1, 2, 3)));
}

#[test]
fn code_fence_marker_uses_scheme_style() {
    let mut scheme = Scheme::default_builtin();
    scheme.markdown.code_fence_marker = Style::default().fg(Color::Rgb(9, 9, 9));
    let rendered = render("```rust\nfn x() {}\n```", &scheme);
    let fence_line = rendered
        .text
        .lines
        .iter()
        .find(|l| l.spans.iter().any(|s| s.content.contains("```rust")))
        .expect("fence line present");
    assert_eq!(fence_line.spans[0].style.fg, Some(Color::Rgb(9, 9, 9)));
}

#[test]
fn code_block_bg_uses_scheme_color() {
    let mut scheme = Scheme::default_builtin();
    scheme.markdown.code_block_bg = Style::default().bg(Color::Rgb(4, 5, 6));
    let rendered = render("```\nhello\n```", &scheme);
    let body_line = rendered
        .text
        .lines
        .iter()
        .find(|l| l.spans.iter().any(|s| s.content.contains("hello")))
        .expect("code body line present");
    assert_eq!(body_line.spans[0].style.bg, Some(Color::Rgb(4, 5, 6)));
}

#[test]
fn inline_code_uses_scheme_style() {
    let mut scheme = Scheme::default_builtin();
    scheme.markdown.code_inline = Style::default().fg(Color::Rgb(7, 7, 7)).bg(Color::Rgb(8, 8, 8));
    let rendered = render("use `code` here", &scheme);
    let span = rendered.text.lines[0]
        .spans
        .iter()
        .find(|s| s.content.contains("code"))
        .expect("code span present");
    assert_eq!(span.style.fg, Some(Color::Rgb(7, 7, 7)));
    assert_eq!(span.style.bg, Some(Color::Rgb(8, 8, 8)));
}

#[test]
fn list_marker_uses_scheme_style() {
    let mut scheme = Scheme::default_builtin();
    scheme.markdown.list_marker = Style::default().fg(Color::Rgb(10, 20, 30));
    let rendered = render("- item", &scheme);
    assert_eq!(rendered.text.lines[0].spans[0].style.fg, Some(Color::Rgb(10, 20, 30)));
}

#[test]
fn link_uses_scheme_style() {
    let mut scheme = Scheme::default_builtin();
    scheme.markdown.link = Style::default().fg(Color::Rgb(11, 22, 33));
    let rendered = render("[text](url)", &scheme);
    let link = &rendered.links[0];
    let line = &rendered.text.lines[link.line];
    assert_eq!(line.spans[link.span_start].style.fg, Some(Color::Rgb(11, 22, 33)));
}

#[test]
fn image_alt_uses_scheme_style() {
    let mut scheme = Scheme::default_builtin();
    scheme.markdown.image_alt = Style::default().fg(Color::Rgb(44, 55, 66));
    let rendered = render("![alt text](pic.png)", &scheme);
    let span = rendered.text.lines[0]
        .spans
        .iter()
        .find(|s| s.content.contains("alt"))
        .expect("alt span present");
    assert_eq!(span.style.fg, Some(Color::Rgb(44, 55, 66)));
}

#[test]
fn horizontal_rule_uses_scheme_style_and_glyph() {
    let mut scheme = Scheme::default_builtin();
    scheme.markdown.horizontal_rule = Style::default().fg(Color::Rgb(77, 88, 99));
    scheme.markdown.horizontal_rule_glyph = "=".to_string();
    scheme.markdown.horizontal_rule_width = 5;
    let rendered = render("before\n\n---\n\nafter", &scheme);
    let rule_line = rendered
        .text
        .lines
        .iter()
        .find(|l| l.spans.iter().any(|s| s.content.contains('=')))
        .expect("rule line present");
    assert_eq!(line_text(rule_line), "=====");
    assert_eq!(rule_line.spans[0].style.fg, Some(Color::Rgb(77, 88, 99)));
}

#[test]
fn syntect_theme_affects_code_block_colors() {
    let ocean = Scheme::default_builtin();
    let mut solarized = Scheme::default_builtin();
    solarized.syntax_theme = SyntaxTheme::bundled("Solarized (dark)").expect("bundled \"Solarized (dark)\" theme available");
    let src = "```rust\nfn main() {}\n```";
    let colors = |s: &Scheme| -> Vec<Option<Color>> {
        render(src, s).text.lines.iter().flat_map(|l| l.spans.iter()).map(|sp| sp.style.fg).collect()
    };
    assert_ne!(colors(&ocean), colors(&solarized));
}

#[test]
fn table_header_row_is_bold_and_separate_from_body_rows() {
    let mut scheme = Scheme::default_builtin();
    scheme.markdown.table_header_bold = true;
    let src = "| Key | Action |\n|---|---|\n| q | quit |\n| j | scroll |\n";
    let rendered = render(src, &scheme);
    let texts: Vec<String> = rendered.text.lines.iter().map(line_text).collect();
    assert_eq!(texts, vec!["Key  Action  ", "q  quit  ", "j  scroll  ", ""]);
    let header_line = &rendered.text.lines[0];
    let body_line = &rendered.text.lines[1];
    assert!(!line_text(header_line).contains("quit"));
    assert!(header_line.spans.iter().all(|s| s.style.add_modifier.bold));
    assert!(body_line.spans.iter().all(|s| !s.style.add_modifier.bold));
}

#[test]
fn table_header_bold_disabled_leaves_header_unbolded() {
    let mut scheme = Scheme::default_builtin();
    scheme.markdown.table_header_bold = false;
    let src = "| Key | Action |\n|---|---|\n| q | quit |\n";
    let rendered = render(src, &scheme);
    let header_line = rendered
        .text
        .lines
        .iter()
        .find(|l| line_text(l).contains("Key"))
        .expect("header line present");
    assert!(header_line.spans.iter().all(|s| !s.style.add_modifier.bold));
}

#[test]
fn strip_frontmatter_cases() {
    assert_eq!(strip_frontmatter("---\na: b\n---\nbody"), "body");
    assert_eq!(strip_frontmatter("# no frontmatter"), "# no frontmatter");
    assert_eq!(strip_frontmatter("---\nunclosed\n"), "---\nunclosed\n");
}

#[test]
fn every_link_points_into_its_line() {
    let rendered = render_default("a [b](c) d [e](f)\n\n- [g](h)\n");
    assert_eq!(rendered.links.len(), 3);
    for link in &rendered.links {
        assert!(link.line < rendered.text.lines.len());
        assert!(link.span_start <= link.span_end);
        assert!(link.span_end <= rendered.text.lines[link.line].spans.len());
    }
}

#[test]
fn code_line_spans_indents_and_drops_line_endings() {
    let bg = Style::default().bg(Color::Rgb(1, 1, 1));
    let runs = vec![
        HlRange { r: 1, g: 2, b: 3, bold: true, italic: false, underline: false, text: "fn".to_string() },
        HlRange { r: 4, g: 5, b: 6, bold: false, italic: false, underline: false, text: " main\n".to_string() },
        HlRange { r: 7, g: 8, b: 9, bold: false, italic: false, underline: false, text: "\n".to_string() },
    ];
    let line = code_line_spans(&runs, bg);
    let texts: Vec<&str> = line.spans.iter().map(|s| s.content.as_str()).collect();
    assert_eq!(texts, vec!["  ", "fn", " main"]);
    assert_eq!(line.spans[1].style.fg, Some(Color::Rgb(1, 2, 3)));
    assert!(line.spans[1].style.add_modifier.bold);
    assert_eq!(line.spans[2].style.bg, Some(Color::Rgb(1, 1, 1)));
}

#[test]
fn links_come_out_in_document_order() {
    let rendered = render_default("[a](1)\n\nx [b](2) [c](3)\n\n- [d](4)\n");
    let lines: Vec<usize> = rendered.links.iter().map(|l| l.line).collect();
    assert!(lines.windows(2).all(|w| w[0] <= w[1]));
    let targets: Vec<&str> = rendered.links.iter().map(|l| l.target.as_str()).collect();
    assert_eq!(targets, vec!["1", "2", "3", "4"]);
}

#[test]
fn heading_prefix_and_color_at_every_level() {
    let mut scheme = Scheme::default_builtin();
    scheme.markdown.heading_h1 = Style::default().fg(Color::Rgb(1, 0, 0));
    scheme.markdown.heading_h2 = Style::default().fg(Color::Rgb(2, 0, 0));
    scheme.markdown.heading_h3 = Style::default().fg(Color::Rgb(3, 0, 0));
    for n in 1..=6usize {
        let src = format!("{} Title", "#".repeat(n));
        let rendered = render(&src, &scheme);
        let sp = &rendered.text.lines[0].spans[0];
        assert_eq!(sp.content, format!("{} ", "#".repeat(n)));
        assert_eq!(sp.style.fg, Some(Color::Rgb(n.min(3) as u8, 0, 0)));
    }
}
