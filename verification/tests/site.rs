use website::site::{entry_slug, list_slugs, prefix, prefixed, route_slug, route_slugs, with_prefix, FileEntry};

fn entry(name: &str, is_file: bool) -> FileEntry {
    FileEntry {
        name: name.to_string(),
        name_is_utf8: true,
        stem_is_utf8: true,
        extension_is_utf8: true,
        is_file,
    }
}

fn file(name: &str) -> FileEntry {
    entry(name, true)
}

fn dir(name: &str) -> FileEntry {
    entry(name, false)
}

#[test]
fn prefix_from_environment() {
    assert_eq!(prefix(Some("website-test".to_string())), "/website-test");
    assert_eq!(prefix(None), "");
    assert_eq!(prefix(Some(String::new())), "/");
}

#[test]
fn with_prefix_pushes_path() {
    assert_eq!(with_prefix("", "posts/a.md"), "posts/a.md");
    assert_eq!(with_prefix("/website-test", "posts/a.md"), "/website-test/posts/a.md");
    assert_eq!(with_prefix("/website-test", "/abs"), "/abs");
}

#[test]
fn prefixed_joins_with_slash() {
    assert_eq!(prefixed("", "post"), "/post");
    assert_eq!(prefixed("/website-test", "pkg/ssr_modes.css"), "/website-test/pkg/ssr_modes.css");
}

#[test]
fn list_slugs_keeps_files_with_extension() {
    let entries = vec![
        file("first.md"),
        file("notes.txt"),
        dir("drafts.md"),
        file("a.md.md"),
        file("x.mdy.md"),
        file("README"),
        file(".md"),
    ];
    assert_eq!(list_slugs(&entries, "md"), vec!["first", "a", "xy"]);
}

#[test]
fn list_slugs_with_dotted_extension_finds_nothing() {
    let entries = vec![file("first.md"), file("second.md")];
    assert!(list_slugs(&entries, ".md").is_empty());
}

#[test]
fn list_slugs_of_html_pages() {
    let entries = vec![file("about.html"), file("cv.html"), file("style.css")];
    assert_eq!(list_slugs(&entries, "html"), vec!["about", "cv"]);
}

#[test]
fn non_utf8_name_gives_empty_slug() {
    // the raw name is "bad" followed by the byte 0xFF, then ".md"
    let e = FileEntry {
        name: "bad\u{FFFD}.md".to_string(),
        name_is_utf8: false,
        stem_is_utf8: false,
        extension_is_utf8: true,
        is_file: true,
    };
    assert_eq!(entry_slug(&e, "md", ".md"), Some(String::new()));
}

#[test]
fn route_slugs_are_stems_of_files() {
    let entries = vec![file("a.md"), dir("sub"), file("b.tar.gz"), file(".hidden")];
    assert_eq!(route_slugs(&entries), vec!["a", "b.tar", ".hidden"]);
    // the raw name is "x" followed by the byte 0xFF
    let bad = FileEntry {
        name: "x\u{FFFD}".to_string(),
        name_is_utf8: false,
        stem_is_utf8: false,
        extension_is_utf8: false,
        is_file: true,
    };
    assert_eq!(route_slug(&bad), None);
}

#[test]
fn route_slug_needs_only_a_utf8_stem() {
    // the raw name is "abc." followed by the byte 0xFF: its stem "abc" is UTF-8
    let e = FileEntry {
        name: "abc.\u{FFFD}".to_string(),
        name_is_utf8: false,
        stem_is_utf8: true,
        extension_is_utf8: false,
        is_file: true,
    };
    assert_eq!(route_slug(&e), Some("abc".to_string()));
    assert_eq!(route_slugs(&vec![e]), vec!["abc"]);
}

#[test]
fn extension_must_match_raw_bytes() {
    // the raw name is "a." followed by the byte 0xFF: no UTF-8 extension equals it
    let e = FileEntry {
        name: "a.\u{FFFD}".to_string(),
        name_is_utf8: false,
        stem_is_utf8: true,
        extension_is_utf8: false,
        is_file: true,
    };
    assert!(list_slugs(&vec![e], "\u{FFFD}").is_empty());
    // a genuine U+FFFD extension does match
    assert_eq!(list_slugs(&vec![file("b.\u{FFFD}")], "\u{FFFD}"), vec!["b"]);
}
