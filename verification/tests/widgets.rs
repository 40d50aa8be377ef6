use website::counter::{csr_link, params_label, queries_label, Counter};
use website::tabs::{home_tab_files, LocalTab, Tab, Tabs};

#[test]
fn tabs_start_on_second_tab() {
    let bar = Tabs(vec!["one".to_string(), "two".to_string(), "three".to_string()]);
    assert_eq!(bar.selected, 1);
    let buttons: Vec<(usize, String)> = bar.buttons.iter().map(|b| (b.index, b.label.clone())).collect();
    assert_eq!(buttons, vec![(0, "one".to_string()), (1, "two".to_string()), (2, "three".to_string())]);
}

#[test]
fn selecting_a_tab_shows_only_it() {
    let mut bar = Tabs(vec!["a".to_string(), "b".to_string()]);
    bar.select(0);
    assert_eq!(bar.selected, 0);
    assert_eq!(Tab(bar.selected, 0), "block");
    assert_eq!(Tab(bar.selected, 1), "none");
}

#[test]
fn local_tab_shows_selected_file() {
    let labels = vec!["posts/a.md".to_string(), "posts/b.md".to_string()];
    assert_eq!(LocalTab("", &labels, 1), ("posts/b.md".to_string(), "posts/b.md".to_string()));
    assert_eq!(LocalTab("/p", &labels, 0), ("posts/a.md".to_string(), "/p/posts/a.md".to_string()));
}

#[test]
fn home_tab_files_list() {
    assert_eq!(home_tab_files(), vec!["./posts/post1.md", "./posts/post4.md", "./posts/post3.md"]);
}

#[test]
fn counter_counts_clicks() {
    let mut c = Counter::new();
    assert_eq!(c.count, 0);
    c.click();
    c.click();
    c.click();
    assert_eq!(c.count, 3);
}

#[test]
fn dynamic_labels() {
    assert_eq!(params_label(&Some("a".to_string())), "Params: Some(\"a\")");
    assert_eq!(params_label(&None), "Params: None");
    assert_eq!(queries_label(&Some("q\"x".to_string())), "Queries: Some(\"q\\\"x\")");
    assert_eq!(csr_link(&Some("b".to_string())), "/csr/b");
    assert_eq!(csr_link(&None), "/csr/");
}
