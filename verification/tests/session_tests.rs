use splitype_editor::session::{EditorPaneKind, EditorTabList};

fn list_of(names: &[&str]) -> EditorTabList<String> {
    let mut list = EditorTabList::new();
    for name in names {
        list.push(name.to_string());
    }
    list
}

fn names(list: &EditorTabList<String>) -> Vec<String> {
    list.iter().cloned().collect()
}

#[test]
fn new_list_is_empty_with_active_zero() {
    let list: EditorTabList<String> = EditorTabList::new();
    assert!(list.is_empty());
    assert_eq!(list.len(), 0);
    assert_eq!(list.active_index(), 0);
    assert!(list.active_tab().is_none());
    let other: EditorTabList<u32> = EditorTabList::empty();
    assert!(other.is_empty());
}

#[test]
fn push_appends_and_keeps_active_tab() {
    let mut list = list_of(&["a.md"]);
    assert_eq!(list.active_index(), 0);
    let index = list.push("b.md".to_string());
    assert_eq!(index, 1);
    assert_eq!(list.active_index(), 0);
    assert_eq!(list.active_tab().map(String::as_str), Some("a.md"));
    assert_eq!(list.len(), 2);
}

#[test]
fn get_and_get_mut_respect_bounds() {
    let mut list = list_of(&["a.md", "b.md"]);
    assert_eq!(list.get(0).map(String::as_str), Some("a.md"));
    assert!(list.get(2).is_none());
    if let Some(tab) = list.get_mut(1) {
        tab.push_str("~");
    }
    assert_eq!(list.get(1).map(String::as_str), Some("b.md~"));
    assert!(list.get_mut(5).is_none());
    list.set_active_tab(1);
    if let Some(tab) = list.active_tab_mut() {
        tab.push('!');
    }
    assert_eq!(list.active_tab().map(String::as_str), Some("b.md~!"));
}

#[test]
fn set_active_tab_clamps_to_last() {
    let mut list = list_of(&["a", "b", "c"]);
    list.set_active_tab(0);
    assert_eq!(list.active_index(), 0);
    list.set_active_tab(9);
    assert_eq!(list.active_index(), 2);
    let mut empty: EditorTabList<String> = EditorTabList::new();
    empty.set_active_tab(4);
    assert_eq!(empty.active_index(), 0);
}

#[test]
fn close_active_tab_selects_neighbour() {
    let mut list = list_of(&["a", "b", "c"]);
    list.set_active_tab(1);
    assert_eq!(list.close_tab(1).as_deref(), Some("b"));
    assert_eq!(names(&list), vec!["a", "c"]);
    assert_eq!(list.active_index(), 1);
    assert_eq!(list.close_tab(1).as_deref(), Some("c"));
    assert_eq!(list.active_index(), 0);
    assert_eq!(list.close_tab(0).as_deref(), Some("a"));
    assert!(list.is_empty());
    assert_eq!(list.active_index(), 0);
}

#[test]
fn close_other_tab_keeps_active_tab() {
    let mut list = list_of(&["a", "b", "c"]);
    list.set_active_tab(2);
    assert_eq!(list.close_tab(0).as_deref(), Some("a"));
    assert_eq!(list.active_tab().map(String::as_str), Some("c"));
    assert_eq!(list.active_index(), 1);
    assert!(list.close_tab(7).is_none());
    assert_eq!(names(&list), vec!["b", "c"]);
}

#[test]
fn swap_moves_tabs_and_active_follows() {
    let mut list = list_of(&["a", "b", "c"]);
    list.set_active_tab(0);
    list.swap(0, 2);
    assert_eq!(names(&list), vec!["c", "b", "a"]);
    assert_eq!(list.active_index(), 2);
    assert_eq!(list.active_tab().map(String::as_str), Some("a"));
    list.swap(0, 2);
    assert_eq!(names(&list), vec!["a", "b", "c"]);
    assert_eq!(list.active_index(), 0);
    list.swap(0, 9);
    assert_eq!(names(&list), vec!["a", "b", "c"]);
}

#[test]
fn push_then_close_last_restores_list() {
    let mut list = list_of(&["a", "b"]);
    list.set_active_tab(0);
    let index = list.push("c".to_string());
    assert_eq!(list.close_tab(index).as_deref(), Some("c"));
    assert_eq!(names(&list), vec!["a", "b"]);
    assert_eq!(list.active_index(), 0);
}

#[test]
fn clear_and_slice() {
    let mut list = list_of(&["a", "b"]);
    assert_eq!(list.as_slice().len(), 2);
    list.clear();
    assert!(list.is_empty());
    assert_eq!(list.active_index(), 0);
    assert!(list.as_slice().is_empty());
}

#[test]
fn pane_kind_names_and_flags() {
    assert!(EditorPaneKind::Wysiwyg.is_wysiwyg());
    assert!(!EditorPaneKind::Wysiwyg.is_source_code());
    assert!(EditorPaneKind::SourceCode.is_source_code());
    assert!(!EditorPaneKind::Preview.is_wysiwyg());
    assert_eq!(EditorPaneKind::SourceCode.name(), "Source Code");
    assert_eq!(EditorPaneKind::Wysiwyg.name(), "Wysiwyg");
    assert_eq!(EditorPaneKind::Preview.name(), "Preview");
    assert_eq!(EditorPaneKind::Outline.name(), "Outline");
    assert_eq!(EditorPaneKind::all().len(), 4);
    assert_eq!(EditorPaneKind::all()[0], EditorPaneKind::Wysiwyg);
}

#[test]
fn iter_mut_changes_tabs_in_place() {
    let mut list = list_of(&["a", "b"]);
    list.set_active_tab(1);
    for tab in list.iter_mut() {
        tab.push('!');
    }
    assert_eq!(names(&list), vec!["a!", "b!"]);
    assert_eq!(list.active_index(), 1);
    let copy = list.clone();
    assert_eq!(names(&copy), vec!["a!", "b!"]);
    let fresh: EditorTabList<String> = EditorTabList::default();
    assert!(fresh.is_empty());
}

#[test]
fn tab_lists_iterate_by_reference() {
    let mut list: EditorTabList<u32> = EditorTabList::new();
    list.push(1);
    list.push(2);
    let mut seen = Vec::new();
    for tab in &list {
        seen.push(*tab);
    }
    assert_eq!(seen, vec![1, 2]);
    for tab in &mut list {
        *tab += 10;
    }
    assert_eq!(list.as_slice(), &[11, 12]);
}

#[test]
fn tab_lists_compare_by_tabs_and_active_index() {
    let mut a: EditorTabList<u32> = EditorTabList::new();
    let mut b: EditorTabList<u32> = EditorTabList::new();
    assert_eq!(a, b);
    a.push(1);
    assert_ne!(a, b);
    b.push(1);
    assert_eq!(a, b);
}
