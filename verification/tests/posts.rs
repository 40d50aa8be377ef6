use website::posts::{
    collect_client_posts, collect_posts, fetched_post, post_address, post_from_markdown,
    post_path, post_source, post_view_outcome, read_post, requested_slug, Post, PostError,
};

fn post(title: &str, content: &str) -> Post {
    Post { title: title.to_string(), content: content.to_string() }
}

#[test]
fn error_messages() {
    assert_eq!(PostError::InvalidId.message(), "Invalid post ID.");
    assert_eq!(PostError::PostNotFound.message(), "Post not found.");
    assert_eq!(PostError::ServerError("boom".to_string()).message(), "Server error: boom.");
}

#[test]
fn markdown_title_from_first_line() {
    let p = post_from_markdown("# Hello World\nbody text\n".to_string());
    assert_eq!(p, post("Hello World", "# Hello World\nbody text\n"));
    let q = post_from_markdown("## Sub # heading\r\nrest".to_string());
    assert_eq!(q.title, "#Sub heading");
}

#[test]
fn read_post_is_titled_by_slug() {
    assert_eq!(read_post("intro", "text".to_string()), post("intro", "text"));
}

#[test]
fn post_paths() {
    assert_eq!(post_path("", "intro"), "posts/intro.md");
    assert_eq!(post_path("/website-test", "intro"), "/website-test/posts/intro.md");
    assert_eq!(post_source("intro"), "./posts/intro.md");
    assert_eq!(post_address("", "intro"), "/post/intro");
    assert_eq!(post_address("/p", "intro"), "/p/post/intro");
}

#[test]
fn requested_slug_cases() {
    assert_eq!(requested_slug(Ok(Some("a".to_string()))), Ok("a".to_string()));
    assert_eq!(requested_slug(Ok(None)), Ok(String::new()));
    assert_eq!(requested_slug(Err(())), Err(PostError::InvalidId));
}

#[test]
fn fetched_post_cases() {
    assert_eq!(fetched_post(Ok(Some(post("t", "c")))), Ok(Ok(post("t", "c"))));
    assert_eq!(fetched_post(Ok(None)), Ok(Err(PostError::PostNotFound)));
    assert_eq!(
        fetched_post(Err("error running server function".to_string())),
        Err(PostError::ServerError("error running server function".to_string()))
    );
}

#[test]
fn view_outcome_reports_errors_as_server_errors() {
    assert_eq!(post_view_outcome(Ok(Ok(post("t", "c")))), Ok(post("t", "c")));
    assert_eq!(
        post_view_outcome(Ok(Err(PostError::PostNotFound))),
        Err(PostError::ServerError("Post not found.".to_string()))
    );
    assert_eq!(
        post_view_outcome(Err(PostError::InvalidId)),
        Err(PostError::ServerError("Invalid post ID.".to_string()))
    );
    assert_eq!(
        post_view_outcome(Err(PostError::ServerError("x".to_string()))),
        Err(PostError::ServerError("Server error: x.".to_string()))
    );
}

#[test]
fn collect_posts_in_order() {
    let c = vec![
        ("a".to_string(), Ok("# A\nx".to_string())),
        ("b".to_string(), Ok("B title".to_string())),
    ];
    assert_eq!(
        collect_posts(&c),
        Ok(vec![
            ("a".to_string(), post("A", "# A\nx")),
            ("b".to_string(), post("B title", "B title")),
        ])
    );
}

#[test]
fn collect_posts_stops_at_first_failure() {
    let c = vec![
        ("a".to_string(), Ok("# A".to_string())),
        ("b".to_string(), Err("denied".to_string())),
        ("c".to_string(), Err("missing".to_string())),
    ];
    assert_eq!(collect_posts(&c), Err("denied".to_string()));
}

#[test]
fn collect_client_posts_skips_unreadable() {
    let c = vec![
        ("a".to_string(), Some("text a".to_string())),
        ("b".to_string(), None),
        ("c".to_string(), Some("text c".to_string())),
    ];
    assert_eq!(
        collect_client_posts(&c),
        vec![("a".to_string(), post("a", "text a")), ("c".to_string(), post("c", "text c"))]
    );
}
