//! The tab widgets: a bar of buttons that selects one tab, and tabs that show
//! only while selected.
use vstd::prelude::*;
use crate::paths::pushed;
use crate::site::{views, with_prefix};

verus! {

/// A button of the tab bar: selecting it selects the tab at `index`.
pub struct TabButton {
    pub index: usize,
    pub label: String,
}

/// The state of a tab bar: its buttons, one per label, and the selected tab.
pub struct TabBar {
    pub selected: usize,
    pub buttons: Vec<TabButton>,
}

/// A new tab bar for `labels`: one button per label, in order, each selecting
/// the tab at its position; the tab at position 1 is selected at first.
pub fn Tabs(labels: Vec<String>) -> (bar: TabBar)
    ensures
        bar.selected == 1,
        bar.buttons@.len() == labels@.len(),
        forall|i: int|
            0 <= i < labels@.len() ==> (#[trigger] bar.buttons@[i]).index == i
                && bar.buttons@[i].label == labels@[i],
{
    let mut buttons: Vec<TabButton> = Vec::new();
    let n = labels.len();
    for i in 0..n
        invariant
            n == labels@.len(),
            buttons@.len() == i,
            forall|j: int|
                0 <= j < i ==> (#[trigger] buttons@[j]).index == j && buttons@[j].label
                    == labels@[j],
    {
        buttons.push(TabButton { index: i, label: labels[i].clone() });
    }
    TabBar { selected: 1, buttons }
}

impl TabBar {
    /// Selects the tab at `index`, as a click on its button does.
    pub fn select(&mut self, index: usize)
        ensures
            final(self).selected == index,
            final(self).buttons == old(self).buttons,
    {
        self.selected = index;
    }
}

/// How the tab at `index` is displayed while the tab at `selected` is selected.
pub open spec fn tab_display(selected: usize, index: usize) -> Seq<char> {
    if selected == index {
        "block"@
    } else {
        "none"@
    }
}

/// The CSS `display` value of the tab at `index`: `block` when it is the
/// selected one, `none` otherwise.
pub fn Tab(selected: usize, index: usize) -> (res: &'static str)
    ensures
        res@ == tab_display(selected, index),
        selected == index ==> res@ == "block"@,
        selected != index ==> res@ == "none"@,
{
    if selected == index {
        "block"
    } else {
        "none"
    }
}

/// Whatever tab is selected, exactly that tab is displayed (as a block), and
/// every other tab is hidden (displayed as `none`).
pub proof fn lemma_only_selected_tab_shown(selected: usize, index: usize)
    ensures
        tab_display(selected, selected) == "block"@,
        index != selected ==> tab_display(selected, index) == "none"@,
        (tab_display(selected, index) == "block"@) <==> index == selected,
{
    reveal_strlit("block");
    reveal_strlit("none");
    if index != selected {
        assert(tab_display(selected, index)[0] != "block"@[0]);
    }
}

/// What a tab that shows a local file displays while the tab at `selected`
/// is selected: the label at that position, and the path of that file under
/// the site prefix. There is no such tab past the end of `labels`.
pub fn LocalTab(prefix: &str, labels: &Vec<String>, selected: usize) -> (res: (String, String))
    requires
        selected < labels@.len(),
    ensures
        res.0 == labels@[selected as int],
        res.1@ == pushed(prefix@, labels@[selected as int]@),
{
    let label = labels[selected].clone();
    let path = with_prefix(prefix, labels[selected].as_str());
    (label, path)
}

/// The post files that the tabs page shows, in order.
pub fn home_tab_files() -> (res: Vec<String>)
    ensures
        views(res@) == seq!["./posts/post1.md"@, "./posts/post4.md"@, "./posts/post3.md"@],
{
    let mut res: Vec<String> = Vec::new();
    res.push(String::from_str("./posts/post1.md"));
    res.push(String::from_str("./posts/post4.md"));
    res.push(String::from_str("./posts/post3.md"));
    assert(views(res@) =~= seq!["./posts/post1.md"@, "./posts/post4.md"@, "./posts/post3.md"@]);
    res
}

} // verus!
