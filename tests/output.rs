use context_builder::context::{
    ambiguous_paths_shown, file_context, file_extension, generate_file_contexts,
    generate_markdown_output,
};
use context_builder::paths::{is_glob_pattern, join_path, path_precedes, display_form, chars_of, text_contains};
use context_builder::text::{join_with_spaces, trim, trim_end};
use context_builder::types::{AppError, FileContext, ResolvedFile, Tag};

#[test]
fn markdown_wraps_each_file_in_a_fenced_block() {
    let contexts = vec![
        FileContext { display_path: "src/main.rs".to_string(), content: "fn main() {}\n\n".to_string() },
        FileContext { display_path: "notes".to_string(), content: "hi".to_string() },
    ];
    let out = generate_markdown_output(&contexts, false);
    assert_eq!(out, "src/main.rs\n```rs\nfn main() {}\n```\n\nnotes\n```\nhi\n```\n\n");
    let skel = generate_markdown_output(&contexts, true);
    assert_eq!(skel, "src/main.rs\n```\nfn main() {}\n```\n\nnotes\n```\nhi\n```\n\n");
}

#[test]
fn extensions_follow_the_last_dot_of_the_file_name() {
    assert_eq!(file_extension("a/b/c.tar.gz"), "gz");
    assert_eq!(file_extension("src/main.rs"), "rs");
    assert_eq!(file_extension("dir.d/file"), "");
    assert_eq!(file_extension(".bashrc"), "");
    assert_eq!(file_extension("x/.env"), "");
    assert_eq!(file_extension("trailing."), "");
}

#[test]
fn full_content_is_kept_without_depth() {
    let c = file_context("a.txt", "hello\n", None);
    assert_eq!(c.display_path, "a.txt");
    assert_eq!(c.content, "hello\n");
}

#[test]
fn skeleton_falls_back_to_content_for_unknown_language() {
    let c = file_context("notes.md", "# Title", Some(2));
    assert_eq!(
        c.content,
        "---\n-- ERROR: Could not extract symbols from \"notes.md\": Language support not configured for file extension: 'md'\n-- Falling back to full file content.\n---\n\n# Title"
    );
}

#[test]
fn skeleton_replaces_content_with_depth() {
    let c = file_context("src/main.rs", "fn main() {}", Some(2));
    assert_eq!(c.content, "fn main ( ) { }");
}

#[test]
fn contexts_follow_file_order() {
    let files = vec![
        ResolvedFile::new("b.txt".to_string(), "/w/b.txt".to_string()),
        ResolvedFile::new("a.txt".to_string(), "/w/a.txt".to_string()),
    ];
    let reads = vec![Ok("B".to_string()), Ok("A".to_string())];
    let cs = generate_file_contexts(&files, &reads, None);
    assert_eq!(cs.len(), 2);
    assert_eq!((cs[0].display_path.as_str(), cs[0].content.as_str()), ("b.txt", "B"));
    assert_eq!((cs[1].display_path.as_str(), cs[1].content.as_str()), ("a.txt", "A"));
}

#[test]
fn unreadable_file_is_skipped() {
    let files = vec![
        ResolvedFile::new("a.rs".to_string(), "/w/a.rs".to_string()),
        ResolvedFile::new("gone.rs".to_string(), "/w/gone.rs".to_string()),
        ResolvedFile::new("c.rs".to_string(), "/w/c.rs".to_string()),
    ];
    let reads = vec![
        Ok("fn a() {}".to_string()),
        Err("permission denied".to_string()),
        Ok("fn c() {}".to_string()),
    ];
    let cs = generate_file_contexts(&files, &reads, Some(1));
    let shown: Vec<(&str, &str)> =
        cs.iter().map(|c| (c.display_path.as_str(), c.content.as_str())).collect();
    assert_eq!(shown, vec![("a.rs", "fn a"), ("c.rs", "fn c")]);
}

#[test]
fn at_most_eight_ambiguous_paths_are_listed() {
    assert_eq!(ambiguous_paths_shown(3), 3);
    assert_eq!(ambiguous_paths_shown(8), 8);
    assert_eq!(ambiguous_paths_shown(20), 8);
}

#[test]
fn trimming_removes_unicode_white_space() {
    assert_eq!(trim(" \t x y \u{3000}\n"), "x y");
    assert_eq!(trim("   "), "");
    assert_eq!(trim_end("a \n\n"), "a");
    assert_eq!(trim_end("  a"), "  a");
}

#[test]
fn tokens_join_with_single_spaces() {
    assert_eq!(join_with_spaces(&vec!["a".to_string(), "b".to_string(), "c".to_string()]), "a b c");
    assert_eq!(join_with_spaces(&vec![]), "");
}

#[test]
fn glob_characters_are_recognised() {
    assert!(is_glob_pattern("src/**/*.ts"));
    assert!(is_glob_pattern("file?.rs"));
    assert!(is_glob_pattern("a[12].rs"));
    assert!(is_glob_pattern("{a,b}.rs"));
    assert!(!is_glob_pattern("src/main.rs"));
}

#[test]
fn paths_join_like_the_standard_library() {
    assert_eq!(join_path("/work", "src/a.rs"), "/work/src/a.rs");
    assert_eq!(join_path("/work/", "a"), "/work/a");
    assert_eq!(join_path("/work", "/etc/x"), "/etc/x");
    assert_eq!(join_path("", "a"), "a");
}

#[test]
fn path_order_puts_separator_first() {
    assert!(path_precedes("/w/a/b", "/w/a.b"));
    assert!(path_precedes("/w/a", "/w/a/b"));
    assert!(!path_precedes("/w/b", "/w/a"));
    assert!(!path_precedes("/w/a", "/w/a"));
}

#[test]
fn display_form_is_relative_when_possible() {
    assert_eq!(display_form("/work/src/a.rs", "/work"), "src/a.rs");
    assert_eq!(display_form("rel/a.rs", "/work"), "rel/a.rs");
}

#[test]
fn substring_search_finds_runs() {
    let hay = chars_of("docs/readme.txt");
    assert!(text_contains(&hay, &chars_of("readme")));
    assert!(text_contains(&hay, &chars_of("")));
    assert!(!text_contains(&hay, &chars_of("readme.md")));
}

#[test]
fn tags_order_by_start_byte() {
    let t = |n: &str, b: usize| Tag {
        name: n.to_string(),
        kind: "function".to_string(),
        start_byte: b,
        line_text: format!("fn {}()", n),
        doc_string: None,
    };
    assert!(t("z", 3) < t("a", 10));
    assert_eq!(t("x", 5).partial_cmp(&t("y", 5)), Some(std::cmp::Ordering::Equal));
}

#[test]
fn app_error_message_names_the_failure() {
    assert_eq!(AppError::IoError("boom".to_string()).message(), "I/O error: boom");
}
