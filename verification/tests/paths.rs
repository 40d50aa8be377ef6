use std::path::{Path, PathBuf};
use website::paths::{extension, file_name, file_stem, joined, push, set_extension};

const SAMPLES: [&str; 30] = [
    "", "/", ".", "..", "./", "../", "a", "a/", "a/b", "a/b/", "a/b/.", "a/b/./",
    "a/..", "/a/b.txt", "foo.txt/.", "foo.txt/.//", "foo.txt/..", ".bashrc", "..x",
    "...x", "a.", "a.b.c", "dir/file.tar.gz", "/.", "./.", "x.html", "x.html/",
    "a//b", "./a", "héllo/wörld.md",
];

#[test]
fn file_name_matches_std() {
    for s in SAMPLES {
        assert_eq!(file_name(s), Path::new(s).file_name().map(|x| x.to_str().unwrap().to_string()), "path {:?}", s);
    }
}

#[test]
fn file_stem_matches_std() {
    for s in SAMPLES {
        assert_eq!(file_stem(s), Path::new(s).file_stem().map(|x| x.to_str().unwrap().to_string()), "path {:?}", s);
    }
}

#[test]
fn extension_matches_std() {
    for s in SAMPLES {
        assert_eq!(extension(s), Path::new(s).extension().map(|x| x.to_str().unwrap().to_string()), "path {:?}", s);
    }
}

#[test]
fn set_extension_matches_std() {
    for s in SAMPLES {
        for e in ["html", "", "txt", "tar.gz"] {
            let mut ours = s.to_string();
            let changed = set_extension(&mut ours, e);
            let mut theirs = PathBuf::from(s);
            let std_changed = theirs.set_extension(e);
            assert_eq!(ours, theirs.to_str().unwrap(), "path {:?} ext {:?}", s, e);
            assert_eq!(changed, std_changed, "path {:?} ext {:?}", s, e);
        }
    }
}

#[test]
fn push_matches_std() {
    for base in ["", "/", "a", "a/", "/srv", "./static/"] {
        for more in ["", "b", "b/c", "/abs", "x.html", "./y"] {
            let mut ours = base.to_string();
            push(&mut ours, more);
            let mut theirs = PathBuf::from(base);
            theirs.push(more);
            assert_eq!(ours, theirs.to_str().unwrap(), "base {:?} more {:?}", base, more);
            assert_eq!(joined(base, more), ours);
        }
    }
}

#[test]
fn set_extension_then_extension() {
    let mut p = String::from("dir/notes");
    assert!(set_extension(&mut p, "html"));
    assert_eq!(p, "dir/notes.html");
    assert_eq!(extension(&p), Some("html".to_string()));
    assert_eq!(file_stem(&p), Some("notes".to_string()));
}

#[test]
fn set_extension_without_file_name_changes_nothing() {
    let mut p = String::from("a/..");
    assert!(!set_extension(&mut p, "html"));
    assert_eq!(p, "a/..");
}

#[test]
fn push_absolute_replaces() {
    assert_eq!(joined("/site", "/etc/x"), "/etc/x");
    assert_eq!(joined("", "posts/a.md"), "posts/a.md");
    assert_eq!(joined("/site", "posts/a.md"), "/site/posts/a.md");
}
