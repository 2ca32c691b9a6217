use term_markdown::bundle::{
    ancestors, declares_okf_version, detect_root, detect_root_bounded, git_toplevel, walk_stop, IndexFile,
    MAX_FRONTMATTER_SCAN_BYTES,
};

const DECLARED: &str = "---\nokf_version: \"0.2\"\n---\n\n# Root\n";

fn index(dir: &str, contents: &str) -> IndexFile {
    IndexFile { dir: dir.to_string(), head: contents.as_bytes().to_vec() }
}

#[test]
fn ancestors_walk_to_the_root() {
    assert_eq!(ancestors("/a/b"), vec!["/a/b", "/a", "/"]);
    assert_eq!(ancestors("a/b"), vec!["a/b", "a", ""]);
}

#[test]
fn okf_version_index_is_root_even_when_outer_index_exists() {
    let files = vec![index("/t", "# outer\n"), index("/t/a", DECLARED), index("/t/a/b", "# inner\n")];
    assert_eq!(detect_root_bounded("/t/a/b/c", Some("/"), &files), "/t/a");
}

#[test]
fn outermost_index_before_stop_is_root_despite_gap() {
    let files = vec![
        index("/t", "# decoy above the repo\n"),
        index("/t/repo/docs", "# docs root\n"),
        index("/t/repo/docs/plans/x/sections", "# sections\n"),
    ];
    assert_eq!(detect_root_bounded("/t/repo/docs/plans/x/sections", Some("/t"), &files), "/t/repo/docs");
}

#[test]
fn stop_dir_is_not_inspected() {
    let files = vec![index("/t", "# at stop\n"), index("/t/repo", "# repo\n")];
    assert_eq!(detect_root_bounded("/t/repo/a", Some("/t"), &files), "/t/repo");
}

#[test]
fn no_index_falls_back_to_start_dir() {
    assert_eq!(detect_root_bounded("/t/a/b", Some("/"), &vec![]), "/t/a/b");
}

#[test]
fn git_toplevel_finds_dot_git_dir() {
    let git = vec!["/t/repo".to_string()];
    assert_eq!(git_toplevel("/t/repo/a/b", &git).as_deref(), Some("/t/repo"));
    assert_eq!(git_toplevel("/elsewhere", &git), None);
}

#[test]
fn walk_stop_prefers_git_toplevel_parent() {
    let git = vec!["/t/repo".to_string()];
    assert_eq!(walk_stop("/t/repo/a", &git, Some("/t")).as_deref(), Some("/t"));
}

#[test]
fn walk_stop_is_home_strictly_inside_it() {
    assert_eq!(walk_stop("/home/u/notes", &vec![], Some("/home/u")).as_deref(), Some("/home/u"));
    assert_eq!(walk_stop("/home/u", &vec![], Some("/home/u")), None);
    assert_eq!(walk_stop("/srv/docs", &vec![], Some("/home/u")), None);
    assert_eq!(walk_stop("/srv/docs", &vec![], None), None);
}

#[test]
fn detect_root_starts_from_the_files_directory() {
    let files = vec![index("/home/u/kb", DECLARED), index("/home/u", "# stray home index\n")];
    assert_eq!(detect_root("/home/u/kb/sub/page.md", &vec![], Some("/home/u"), &files), "/home/u/kb");
    let stray = vec![index("/home/u", "# stray home index\n")];
    assert_eq!(detect_root("/home/u/kb/sub/page.md", &vec![], Some("/home/u"), &stray), "/home/u/kb/sub");
}

#[test]
fn declares_okf_version_true_when_key_in_frontmatter() {
    assert!(declares_okf_version(DECLARED.as_bytes()));
}

#[test]
fn declares_okf_version_false_without_key() {
    assert!(!declares_okf_version(b"---\ntitle: x\n---\n# Body\n"));
}

#[test]
fn declares_okf_version_false_when_key_only_in_body() {
    assert!(!declares_okf_version(b"---\ntitle: x\n---\n\nokf_version: \"0.2\"\n"));
}

#[test]
fn declares_okf_version_true_with_long_frontmatter() {
    let tags: String = (0..200).map(|i| format!("  - tag{i}\n")).collect();
    let content = format!("---\nokf_version: \"0.2\"\ntags:\n{tags}---\n# Root\n");
    assert!(declares_okf_version(content.as_bytes()));
}

#[test]
fn declares_okf_version_false_when_key_is_nested() {
    assert!(!declares_okf_version(b"---\nmetadata:\n  okf_version: \"0.2\"\nnotes: |\n  okf_version: \"0.2\"\n---\n"));
}

#[test]
fn declares_okf_version_false_when_fence_unclosed() {
    assert!(!declares_okf_version(b"---\nokf_version: \"0.2\"\n\n# never closed\n"));
}

#[test]
fn declares_okf_version_false_when_fence_never_closes_within_scan_cap() {
    let filler: String = "tags:\n".repeat(MAX_FRONTMATTER_SCAN_BYTES);
    let content = format!("---\nokf_version: \"0.2\"\n{filler}");
    assert!(!declares_okf_version(content.as_bytes()));
}

#[test]
fn closing_fence_past_the_scan_cap_is_not_seen() {
    let filler: String = "tags:\n".repeat(MAX_FRONTMATTER_SCAN_BYTES);
    let content = format!("---\nokf_version: \"0.2\"\n{filler}---\n");
    assert!(!declares_okf_version(content.as_bytes()));
}

#[test]
fn declares_okf_version_false_for_single_huge_unterminated_line_within_cap() {
    let huge_line = "x".repeat(MAX_FRONTMATTER_SCAN_BYTES * 4);
    let content = format!("---\n{huge_line}");
    assert!(!declares_okf_version(content.as_bytes()));
}

#[test]
fn declares_okf_version_false_when_cap_truncates_mid_line_onto_a_coincidental_dash_run() {
    let prefix = "---\nokf_version: \"0.2\"\n";
    let filler_len = MAX_FRONTMATTER_SCAN_BYTES - 3 - prefix.len() - 1;
    let mut content = String::from(prefix);
    content.push_str(&"a".repeat(filler_len));
    content.push('\n');
    content.push_str("---");
    content.push_str(&"z".repeat(1000));
    assert!(!declares_okf_version(content.as_bytes()));
}

#[test]
fn declares_okf_version_false_without_frontmatter_or_file() {
    assert!(!declares_okf_version(b"# plain\n"));
    assert!(!declares_okf_version(b""));
}

#[test]
fn closing_fence_without_newline_at_end_of_small_file_counts() {
    assert!(declares_okf_version(b"---\nokf_version: 1\n---"));
}

#[test]
fn invalid_utf8_in_frontmatter_means_no() {
    assert!(!declares_okf_version(b"---\nokf_version: 1\n\xff\xfe\n---\n"));
    // bytes after the closing fence are never looked at
    assert!(declares_okf_version(b"---\nokf_version: 1\n---\n\xff\xfe"));
}

#[test]
fn fence_lines_may_carry_trailing_whitespace() {
    assert!(declares_okf_version(b"---  \r\nokf_version: 1\r\n--- \r\n"));
}

#[test]
fn index_md_directory_is_ignored() {
    // `/t/index.md` is a directory, so the viewer lists no index file for
    // `/t`; only `/t/a/index.md` is a file.
    let files = vec![index("/t/a", "# a\n")];
    assert_eq!(detect_root_bounded("/t/a/b", Some("/"), &files), "/t/a");
}

#[test]
fn git_toplevel_accepts_dot_git_file() {
    // a worktree's `.git` is a file; it exists all the same, so its
    // directory is listed
    let git = vec!["/t/repo".to_string()];
    assert_eq!(git_toplevel("/t/repo/a", &git).as_deref(), Some("/t/repo"));
}
