use website::static_pages::{read_file_request, unreadable_message, PageRequest};

fn read(path: &str, file: &str) -> (String, String) {
    (path.to_string(), file.to_string())
}

fn as_read(r: PageRequest) -> Option<(String, String)> {
    match r {
        PageRequest::Read { path, file } => Some((path, file)),
        _ => None,
    }
}

#[test]
fn slug_without_extension_reads_html_file() {
    assert_eq!(as_read(read_file_request("about")), Some(read("./static/about.html", "about.html")));
    assert_eq!(as_read(read_file_request("")), Some(read("./static/", "")));
    assert_eq!(as_read(read_file_request("/etc/passwd")), Some(read("/etc/passwd.html", "/etc/passwd.html")));
}

#[test]
fn html_slug_redirects_without_extension() {
    match read_file_request("about.html") {
        PageRequest::Redirect(r) => assert_eq!(r, "about"),
        _ => panic!("expected a redirect"),
    }
    match read_file_request("a.b.html") {
        PageRequest::Redirect(r) => assert_eq!(r, "a.b"),
        _ => panic!("expected a redirect"),
    }
}

#[test]
fn other_extension_is_unknown() {
    assert!(matches!(read_file_request("style.css"), PageRequest::Unknown));
    assert!(matches!(read_file_request("trailing."), PageRequest::Unknown));
}

#[test]
fn unreadable_message_quotes_the_file() {
    assert_eq!(unreadable_message("about.html"), "Unable to read file: \"about.html\"");
    assert_eq!(
        unreadable_message("it's.html"),
        format!("Unable to read file: {:?}", std::path::Path::new("it's.html"))
    );
}
