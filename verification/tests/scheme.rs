use term_markdown::scheme::{
    default_config_path, parse_color, resolve, scheme_path_for, validate_scheme_name, MarkdownColors,
    Scheme, SchemeError, SchemeFile, SchemeLocation, StyleSpec, UiColors, UiField,
};
use term_markdown::text::{Color, Modifier, Style};

fn spec(fg: Option<&str>, bg: Option<&str>) -> StyleSpec {
    StyleSpec {
        fg: fg.map(str::to_string),
        bg: bg.map(str::to_string),
        ..Default::default()
    }
}

/// The scheme file a `custom.toml` with red bold level-one headings,
/// Solarized code and a 40-column `-` rule parses to.
fn valid_scheme() -> SchemeFile {
    SchemeFile {
        name: Some("custom".to_string()),
        markdown: MarkdownColors {
            heading_h1: StyleSpec { bold: true, ..spec(Some("red"), None) },
            heading_h2: spec(Some("cyan"), None),
            heading_h3: spec(Some("magenta"), None),
            blockquote: StyleSpec { italic: true, ..spec(Some("darkgray"), None) },
            blockquote_marker: "> ".to_string(),
            code_fence_marker: spec(Some("darkgray"), None),
            code_block_bg: "#101010".to_string(),
            code_inline: spec(Some("green"), Some("#202020")),
            syntect_theme: "Solarized (dark)".to_string(),
            list_marker: spec(Some("white"), None),
            link: StyleSpec { underline: true, ..spec(Some("blue"), None) },
            image_alt: spec(Some("magenta"), None),
            table_header_bold: true,
            horizontal_rule: spec(Some("darkgray"), None),
            horizontal_rule_glyph: "-".to_string(),
            horizontal_rule_width: 40,
        },
        ui: UiColors {
            background: UiField::Sentinel("none".to_string()),
            border: UiField::Sentinel("none".to_string()),
            title: UiField::Sentinel("none".to_string()),
            status_bar: spec(Some("darkgray"), None),
            selection: StyleSpec { reversed: true, ..Default::default() },
        },
    }
}

fn err_text(r: Result<Scheme, SchemeError>) -> String {
    match r {
        Ok(_) => panic!("expected an error"),
        Err(e) => e.message(),
    }
}

fn located_err(r: Result<SchemeLocation, SchemeError>) -> String {
    match r {
        Ok(l) => panic!("expected an error, got {l:?}"),
        Err(e) => e.message(),
    }
}

const CONFIG: &str = "/home/u/.term-markdown/config.toml";

#[test]
fn load_falls_back_to_builtin_when_config_path_is_none() {
    let loc = Scheme::locate(None, None, None).unwrap();
    let scheme = Scheme::load(loc, None).unwrap();
    assert_eq!(scheme.markdown.heading_h1, Scheme::default_builtin().markdown.heading_h1);
}

#[test]
fn load_falls_back_to_builtin_when_config_file_absent() {
    let loc = Scheme::locate(Some(CONFIG), None, None).unwrap();
    match &loc {
        SchemeLocation::DefaultFile(p) => assert_eq!(p, "/home/u/.term-markdown/schemes/default.toml"),
        other => panic!("expected the default scheme file, got {other:?}"),
    }
    let scheme = Scheme::load(loc, None).unwrap();
    assert_eq!(scheme.markdown.heading_h1, Scheme::default_builtin().markdown.heading_h1);
}

#[test]
fn default_scheme_file_replaces_builtin_when_present() {
    let loc = Scheme::locate(Some(CONFIG), None, None).unwrap();
    let scheme = Scheme::load(loc, Some(valid_scheme())).unwrap();
    assert_eq!(scheme.markdown.heading_h1.fg, Some(Color::Red));
}

#[test]
fn load_reads_named_scheme_from_sibling_schemes_dir() {
    let loc = Scheme::locate(Some(CONFIG), Some("custom"), None).unwrap();
    match &loc {
        SchemeLocation::NamedFile(p) => assert_eq!(p, "/home/u/.term-markdown/schemes/custom.toml"),
        other => panic!("expected a named scheme file, got {other:?}"),
    }
    let scheme = Scheme::load(loc, Some(valid_scheme())).unwrap();
    assert_eq!(scheme.markdown.heading_h1.fg, Some(Color::Red));
    assert_eq!(scheme.markdown.horizontal_rule_width, 40);
}

#[test]
fn cli_override_takes_precedence_over_config_file() {
    let loc = Scheme::locate(Some(CONFIG), Some("from-config"), Some("from-cli")).unwrap();
    match &loc {
        SchemeLocation::NamedFile(p) => assert_eq!(p, "/home/u/.term-markdown/schemes/from-cli.toml"),
        other => panic!("expected a named scheme file, got {other:?}"),
    }
    let scheme = Scheme::load(loc, Some(valid_scheme())).unwrap();
    assert_eq!(scheme.markdown.heading_h1.fg, Some(Color::Red));
}

#[test]
fn missing_named_scheme_file_is_a_hard_error() {
    let loc = Scheme::locate(Some(CONFIG), Some("nope"), None).unwrap();
    assert!(err_text(Scheme::load(loc, None)).contains("nope.toml"));
}

#[test]
fn bad_color_string_is_a_hard_error() {
    let mut file = valid_scheme();
    file.markdown.heading_h1.fg = Some("not-a-color".to_string());
    let loc = Scheme::locate(Some(CONFIG), Some("bad-color"), None).unwrap();
    let text = err_text(Scheme::load(loc, Some(file)));
    assert!(text.contains("heading_h1"));
    assert!(text.contains("not-a-color"));
}

#[test]
fn unknown_syntect_theme_is_a_hard_error() {
    let mut file = valid_scheme();
    file.markdown.syntect_theme = "not-a-real-theme".to_string();
    assert!(err_text(resolve(file)).contains("syntect_theme"));
}

#[test]
fn cli_override_without_home_is_a_hard_error() {
    assert!(located_err(Scheme::locate(None, None, Some("custom"))).contains("custom"));
}

#[test]
fn cli_override_default_without_home_falls_back_to_builtin() {
    let loc = Scheme::locate(None, None, Some("default")).unwrap();
    let scheme = Scheme::load(loc, None).unwrap();
    assert_eq!(scheme.markdown.heading_h1, Scheme::default_builtin().markdown.heading_h1);
}

#[test]
fn scheme_name_with_path_traversal_is_rejected() {
    let text = located_err(Scheme::locate(Some("/t/dir/config.toml"), Some("../evil"), None));
    assert!(text.contains("invalid scheme name"));
}

#[test]
fn cli_scheme_name_with_slash_is_rejected() {
    assert!(located_err(Scheme::locate(None, None, Some("sub/dir"))).contains("invalid scheme name"));
}

#[test]
fn validate_scheme_name_accepts_plain_names() {
    assert!(validate_scheme_name("default").is_ok());
    assert!(validate_scheme_name("my-scheme_1").is_ok());
}

#[test]
fn validate_scheme_name_rejects_dot_and_dotdot() {
    assert!(validate_scheme_name(".").is_err());
    assert!(validate_scheme_name("..").is_err());
}

#[test]
fn validate_scheme_name_rejects_backslash() {
    assert!(validate_scheme_name("a\\b").is_err());
}

#[test]
fn validate_scheme_name_rejects_root_and_empty() {
    assert!(validate_scheme_name("/").is_err());
    assert!(validate_scheme_name("").is_err());
}

#[test]
fn zero_horizontal_rule_width_is_a_hard_error() {
    let mut file = valid_scheme();
    file.markdown.horizontal_rule_width = 0;
    assert!(err_text(resolve(file)).contains("horizontal_rule_width"));
}

#[test]
fn oversized_horizontal_rule_width_is_a_hard_error() {
    let mut file = valid_scheme();
    file.markdown.horizontal_rule_width = 999_999;
    let text = err_text(resolve(file));
    assert_eq!(text, "markdown.horizontal_rule_width: must be between 1 and 1000 (got 999999)");
}

#[test]
fn widest_allowed_horizontal_rule_resolves() {
    let mut file = valid_scheme();
    file.markdown.horizontal_rule_width = 1000;
    assert_eq!(resolve(file).unwrap().markdown.horizontal_rule_width, 1000);
}

#[test]
fn empty_horizontal_rule_glyph_is_a_hard_error() {
    let mut file = valid_scheme();
    file.markdown.horizontal_rule_glyph = String::new();
    assert!(err_text(resolve(file)).contains("horizontal_rule_glyph"));
}

#[test]
fn style_spec_resolves_hex_and_named_colors() {
    let hex = spec(Some("#112233"), None);
    assert_eq!(hex.resolve().unwrap().fg, Some(Color::Rgb(0x11, 0x22, 0x33)));
    let named = spec(Some("yellow"), None);
    assert_eq!(named.resolve().unwrap().fg, Some(Color::Yellow));
}

#[test]
fn style_spec_folds_all_modifiers() {
    let s = StyleSpec { bold: true, italic: true, underline: true, reversed: true, ..Default::default() };
    let style = s.resolve().unwrap();
    assert!(style.add_modifier.bold);
    assert!(style.add_modifier.italic);
    assert!(style.add_modifier.underlined);
    assert!(style.add_modifier.reversed);
}

#[test]
fn style_spec_rejects_invalid_color() {
    assert!(spec(Some("not-a-color"), None).resolve().is_err());
}

#[test]
fn bad_background_color_is_reported_with_its_text() {
    assert_eq!(spec(Some("red"), Some("nope")).resolve(), Err("nope".to_string()));
}

#[test]
fn parse_color_accepts_aliases_and_indexes() {
    assert_eq!(parse_color("Light Blue"), Some(Color::LightBlue));
    assert_eq!(parse_color("grey"), Some(Color::Gray));
    assert_eq!(parse_color("42"), Some(Color::Indexed(42)));
    assert_eq!(parse_color("#ffcc00"), Some(Color::Rgb(0xff, 0xcc, 0x00)));
    assert_eq!(parse_color("#ffcc0"), None);
}

#[test]
fn assemble_builds_style_from_parsed_colors() {
    let s = StyleSpec { italic: true, ..Default::default() };
    let style = s.assemble(Some(Color::Red), None);
    assert_eq!(style.fg, Some(Color::Red));
    assert_eq!(style.bg, None);
    assert!(style.add_modifier.italic && !style.add_modifier.bold);
}

#[test]
fn ui_field_other_than_none_is_a_hard_error() {
    let mut file = valid_scheme();
    file.ui.border = UiField::Sentinel("inherit".to_string());
    assert_eq!(
        err_text(resolve(file)),
        "scheme field `ui.border`: expected \"none\" or a style table, got \"inherit\""
    );
}

#[test]
fn ui_field_style_table_resolves() {
    let f = UiField::Styled(spec(Some("blue"), None));
    assert_eq!(f.resolve("title").unwrap(), Some(Style::default().fg(Color::Blue)));
    assert_eq!(UiField::Sentinel("none".to_string()).resolve("title").unwrap(), None);
}

#[test]
fn invalid_color_message_names_field_and_value() {
    let mut file = valid_scheme();
    file.markdown.code_block_bg = "dark".to_string();
    assert_eq!(
        err_text(resolve(file)),
        "markdown.code_block_bg: invalid color \"dark\" (expected a named color like \"yellow\" or a hex value like \"#ffcc00\")"
    );
}

#[test]
fn resolved_scheme_carries_every_field() {
    let s = resolve(valid_scheme()).unwrap();
    assert_eq!(s.markdown.heading_h1, Style::default().fg(Color::Red).add_modifier(Modifier::bold()));
    assert_eq!(s.markdown.code_block_bg, Style::default().bg(Color::Rgb(0x10, 0x10, 0x10)));
    assert_eq!(s.markdown.code_inline.bg, Some(Color::Rgb(0x20, 0x20, 0x20)));
    assert_eq!(s.markdown.blockquote_marker, "> ");
    assert_eq!(s.markdown.horizontal_rule_glyph, "-");
    assert_eq!(s.ui.background, None);
    assert_eq!(s.ui.selection, Style::default().add_modifier(Modifier::reversed()));
    assert_eq!(s.syntax_theme.name(), "Solarized (dark)");
}

#[test]
fn builtin_scheme_matches_original_colors() {
    let s = Scheme::default_builtin();
    assert_eq!(s.markdown.heading_h1, Style::default().fg(Color::Yellow).add_modifier(Modifier::bold()));
    assert_eq!(s.markdown.code_block_bg, Style::default().bg(Color::Rgb(30, 30, 30)));
    assert_eq!(s.markdown.blockquote_marker, "\u{2503} ");
    assert_eq!(s.markdown.horizontal_rule_glyph, "\u{2500}");
    assert_eq!(s.markdown.horizontal_rule_width, 60);
    assert_eq!(s.ui.status_bar, Style::default().fg(Color::DarkGray));
    assert_eq!(s.syntax_theme.name(), "base16-ocean.dark");
}

#[test]
fn scheme_path_is_sibling_schemes_dir() {
    assert_eq!(scheme_path_for("/a/b/config.toml", "x"), "/a/b/schemes/x.toml");
    assert_eq!(scheme_path_for("config.toml", "x"), "schemes/x.toml");
}

#[test]
fn default_config_path_is_under_home() {
    assert_eq!(default_config_path(Some("/home/u")).as_deref(), Some("/home/u/.term-markdown/config.toml"));
    assert_eq!(default_config_path(None), None);
}

#[test]
fn invalid_name_message_quotes_the_name() {
    assert_eq!(
        validate_scheme_name("a/b").unwrap_err().message(),
        "invalid scheme name \"a/b\": must be a plain name with no path separators or \"..\""
    );
}

#[test]
fn messages_quote_values_as_debug_does() {
    let mut file = valid_scheme();
    file.markdown.heading_h2.fg = Some("bad\"col\\or".to_string());
    assert!(err_text(resolve(file)).contains("invalid color \"bad\\\"col\\\\or\""));
    assert_eq!(
        validate_scheme_name("a/\"b").unwrap_err().message(),
        "invalid scheme name \"a/\\\"b\": must be a plain name with no path separators or \"..\""
    );
}

#[test]
fn no_home_message_uses_plain_quotes() {
    let text = located_err(Scheme::locate(None, None, Some("it\"s")));
    assert_eq!(text, "cannot resolve scheme \"it\"s\": no home directory found (is $HOME set?)");
}

#[test]
fn bad_color_in_ui_table_names_the_scheme_field() {
    let mut file = valid_scheme();
    file.ui.background = UiField::Styled(spec(Some("nope"), None));
    assert_eq!(
        err_text(resolve(file)),
        "scheme field `ui.background`: invalid color \"nope\" (expected a named color like \"yellow\" or a hex value like \"#ffcc00\")"
    );
    let mut file = valid_scheme();
    file.ui.status_bar = spec(Some("nope"), None);
    assert!(err_text(resolve(file)).starts_with("ui.status_bar: invalid color"));
}
