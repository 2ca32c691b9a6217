use term_markdown::links::{clamp_to_root, link_candidates, resolve_target, strip_line_suffix, LinkBase, Target};

/// `p` with `.` and `..` components resolved lexically, as the filesystem
/// resolves them when every directory on the way exists.
fn normalize(p: &str) -> String {
    let mut parts: Vec<&str> = Vec::new();
    for seg in p.split('/') {
        match seg {
            "" | "." => {}
            ".." => {
                parts.pop();
            }
            s => parts.push(s),
        }
    }
    let body = parts.join("/");
    if p.starts_with('/') {
        format!("/{body}")
    } else {
        body
    }
}

/// Resolves `target` as the viewer does: looks up every candidate path in
/// a file tree made of `files` and hands the ones that exist to the
/// library.
fn resolve(base: LinkBase<'_>, target: &str, files: &[&str]) -> Target {
    let existing: Vec<String> = link_candidates(base, target)
        .into_iter()
        .filter(|c| files.iter().any(|f| normalize(f) == normalize(c)))
        .collect();
    resolve_target(base, target, &existing)
}

fn base<'a>(current_file: &'a str, bundle_root: &'a str) -> LinkBase<'a> {
    LinkBase { current_file, bundle_root }
}

fn expect_file(target: Target) -> String {
    match target {
        Target::File(path) => path,
        other => panic!("expected File target, got {other:?}"),
    }
}

fn expect_not_found(target: Target) -> String {
    match target {
        Target::NotFound(path) => path,
        other => panic!("expected NotFound target, got {other:?}"),
    }
}

fn target_kind(t: &Target) -> &'static str {
    match t {
        Target::File(_) => "file",
        Target::External(_) => "external",
        Target::Anchor(_) => "anchor",
        Target::NotFound(_) => "not_found",
    }
}

const UNUSED_ROOT: &str = "/tmp/term-markdown-unused-root";

#[test]
fn resolves_relative_path_to_sibling_file() {
    let files = ["/t/test/other.md"];
    let resolved = resolve(base("/t/test/current.md", UNUSED_ROOT), "./other.md", &files);
    assert_eq!(normalize(&expect_file(resolved)), "/t/test/other.md");
}

#[test]
fn absolute_link_from_nested_file_resolves_against_bundle_root() {
    let files = ["/t/root/x/y.md", "/t/root/sub/x/y.md"];
    let resolved = resolve(base("/t/root/sub/current.md", "/t/root"), "/x/y.md", &files);
    assert_eq!(expect_file(resolved), "/t/root/x/y.md");
}

#[test]
fn absolute_link_parent_segments_are_clamped_at_bundle_root() {
    let files = ["/t/root/guide.md", "/t/guide.md"];
    let b = base("/t/root/sub/current.md", "/t/root");
    assert_eq!(expect_file(resolve(b, "/../guide.md", &files)), "/t/root/guide.md");
    assert_eq!(expect_file(resolve(b, "/sub/../../guide.md", &files)), "/t/root/guide.md");
    assert_eq!(expect_file(resolve(b, "/./guide.md", &files)), "/t/root/guide.md");
}

#[test]
fn clamp_to_root_cases() {
    assert_eq!(clamp_to_root("/x/y.md"), "x/y.md");
    assert_eq!(clamp_to_root("/../x.md"), "x.md");
    assert_eq!(clamp_to_root("/a/../b/./c.md"), "b/c.md");
    assert_eq!(clamp_to_root("/a//b.md"), "a/b.md");
}

#[test]
fn absolute_link_from_root_level_file_resolves_against_bundle_root() {
    let files = ["/t/other.md"];
    let resolved = resolve(base("/t/index.md", "/t"), "/other.md", &files);
    assert_eq!(expect_file(resolved), "/t/other.md");
}

#[test]
fn absolute_link_falls_back_to_literal_filesystem_path() {
    let files = ["/t/elsewhere/real.go"];
    let resolved = resolve(base("/t/root/current.md", "/t/root"), "/t/elsewhere/real.go", &files);
    assert_eq!(expect_file(resolved), "/t/elsewhere/real.go");
}

#[test]
fn bundle_root_wins_over_literal_filesystem_path() {
    let files = ["/t/elsewhere/real.md", "/t/root/t/elsewhere/real.md"];
    let resolved = resolve(base("/t/root/current.md", "/t/root"), "/t/elsewhere/real.md", &files);
    assert_eq!(expect_file(resolved), "/t/root/t/elsewhere/real.md");
}

#[test]
fn line_suffix_is_stripped_for_root_literal_and_relative() {
    let files = ["/t/root/x/y.md", "/t/elsewhere/real.go", "/t/root/sub/y.go"];
    let b = base("/t/root/sub/current.md", "/t/root");
    assert_eq!(expect_file(resolve(b, "/x/y.md:12", &files)), "/t/root/x/y.md");
    assert_eq!(expect_file(resolve(b, "/t/elsewhere/real.go:154", &files)), "/t/elsewhere/real.go");
    assert_eq!(expect_file(resolve(b, "/t/elsewhere/real.go:154:7", &files)), "/t/elsewhere/real.go");
    assert_eq!(normalize(&expect_file(resolve(b, "./y.go:3", &files))), "/t/root/sub/y.go");
}

#[test]
fn absolute_link_fragment_is_dropped_before_resolving() {
    let files = ["/t/root/x/y.md"];
    let resolved = resolve(base("/t/root/sub/current.md", "/t/root"), "/x/y.md#sec", &files);
    assert_eq!(expect_file(resolved), "/t/root/x/y.md");
}

#[test]
fn missing_absolute_link_is_not_found_at_root_joined_path() {
    let files: [&str; 0] = [];
    let b = base("/t/root/sub/current.md", "/t/root");
    assert_eq!(expect_not_found(resolve(b, "/nope.md", &files)), "/t/root/nope.md");
    assert_eq!(expect_not_found(resolve(b, "/nope.go:3", &files)), "/t/root/nope.go:3");
}

#[test]
fn relative_link_climbs_out_of_bundle_without_clamping() {
    let files = ["/t/outside.md"];
    let resolved = resolve(base("/t/root/sub/current.md", "/t/root"), "../../outside.md", &files);
    assert_eq!(expect_file(resolved), "/t/root/sub/../../outside.md");
}

#[test]
fn strip_line_suffix_cases() {
    assert_eq!(strip_line_suffix("a.go:154").as_deref(), Some("a.go"));
    assert_eq!(strip_line_suffix("a.go:154:7").as_deref(), Some("a.go:154"));
    assert_eq!(strip_line_suffix("a.md"), None);
    assert_eq!(strip_line_suffix("a:b"), None);
    assert_eq!(strip_line_suffix("a.go:"), None);
    assert_eq!(strip_line_suffix(":12"), None);
    assert_eq!(strip_line_suffix("foo:bar.md"), None);
}

#[test]
fn protocol_relative_path_is_external() {
    let resolved = resolve(base("/tmp/current.md", UNUSED_ROOT), "//example.com/readme.md", &[]);
    assert_eq!(target_kind(&resolved), "external");
}

#[test]
fn missing_relative_path_is_not_found() {
    let resolved = resolve(
        base("/tmp/term-markdown-nonexistent-dir/current.md", UNUSED_ROOT),
        "./missing.md",
        &[],
    );
    assert_eq!(target_kind(&resolved), "not_found");
}

#[test]
fn http_url_is_external() {
    let resolved = resolve(base("/tmp/current.md", UNUSED_ROOT), "https://example.com", &[]);
    assert_eq!(target_kind(&resolved), "external");
}

#[test]
fn mailto_is_external() {
    let resolved = resolve(base("/tmp/current.md", UNUSED_ROOT), "mailto:someone@example.com", &[]);
    assert_eq!(target_kind(&resolved), "external");
}

#[test]
fn bare_fragment_is_anchor() {
    let resolved = resolve(base("/tmp/current.md", UNUSED_ROOT), "#some-heading", &[]);
    match resolved {
        Target::Anchor(frag) => assert_eq!(frag, "some-heading"),
        _ => panic!("expected Anchor target"),
    }
}

#[test]
fn relative_link_from_file_without_directory_resolves_against_dot() {
    let resolved = resolve(base("current.md", UNUSED_ROOT), "other.md", &["other.md"]);
    assert_eq!(normalize(&expect_file(resolved)), "other.md");
}

#[test]
fn external_target_is_reported_as_written() {
    match resolve(base("/tmp/current.md", UNUSED_ROOT), "https://example.com/a#b", &[]) {
        Target::External(u) => assert_eq!(u, "https://example.com/a#b"),
        other => panic!("expected External, got {other:?}"),
    }
}

#[test]
fn link_candidates_lists_root_then_literal_per_attempt() {
    let c = link_candidates(base("/t/root/a.md", "/t/root"), "/x.go:3");
    assert_eq!(c, vec!["/t/root/x.go:3", "/x.go:3", "/t/root/x.go", "/x.go"]);
    assert!(link_candidates(base("/t/root/a.md", "/t/root"), "#frag").is_empty());
}
