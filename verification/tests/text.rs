use website::text::{chars_of, concatenated, first_line, replace_all, string_of, string_of_range};

#[test]
fn replace_all_matches_std() {
    let cases = [
        ("post.md", ".md", ""),
        ("a.md.md", ".md", ""),
        ("..mdmd", ".md", ""),
        ("aaaa", "aa", "b"),
        ("# Title # again", "# ", ""),
        ("nothing here", "zz", "y"),
        ("", "x", "y"),
        ("ünïcödé.md", ".md", "!"),
    ];
    for (s, p, r) in cases {
        assert_eq!(replace_all(s, p, r), s.replace(p, r), "{:?} {:?} {:?}", s, p, r);
    }
}

#[test]
fn first_line_matches_std() {
    for s in ["", "one", "one\ntwo", "one\r\ntwo", "one\r", "\nrest", "\r\n", "a\rb\nc", "x\n"] {
        assert_eq!(first_line(s), s.lines().next().map(|l| l.to_string()), "{:?}", s);
    }
}

#[test]
fn chars_round_trip() {
    let s = "héllo wörld";
    let cs = chars_of(s);
    assert_eq!(cs, s.chars().collect::<Vec<char>>());
    assert_eq!(string_of(&cs), s);
    assert_eq!(string_of_range(&cs, 1, 5), "éllo");
}

#[test]
fn concat_joins() {
    assert_eq!(concatenated("ab", "cd"), "abcd");
    assert_eq!(concatenated("", ""), "");
}

#[test]
fn replace_absent_pattern_is_identity() {
    assert_eq!(replace_all("plain text", "# ", ""), "plain text");
}
