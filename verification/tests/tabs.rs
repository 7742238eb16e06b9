use cui_editor::editor::{EditMode, Editor};
use cui_editor::tab::{Tab, TabContainer, TabError};

#[test]
fn new_editor_starts_in_view_mode_at_the_origin() {
    let editor = Editor::new("/a.txt", "hello".to_string());
    assert_eq!(editor.get_content(), "hello");
    assert_eq!(editor.file_path, "/a.txt");
    assert_eq!(editor.vertical_scroll, 0);
    assert_eq!(editor.horizontal_scroll, 0);
    assert!(editor.edit_mode == EditMode::View);
}

#[test]
fn set_content_replaces_the_buffer() {
    let mut editor = Editor::new("/a.txt", "hello".to_string());
    editor.set_content("bye".to_string());
    assert_eq!(editor.get_content(), "bye");
    assert_eq!(editor.file_path, "/a.txt");
}

#[test]
fn toggle_mode_flips_between_view_and_write() {
    let mut editor = Editor::new("/a.txt", String::new());
    editor.toggle_mode();
    assert!(editor.edit_mode == EditMode::Write);
    editor.toggle_mode();
    assert!(editor.edit_mode == EditMode::View);
}

#[test]
fn scrolling_saturates_at_both_ends() {
    let mut editor = Editor::new("/a.txt", String::new());
    editor.scroll_up();
    editor.scroll_left();
    assert_eq!((editor.vertical_scroll, editor.horizontal_scroll), (0, 0));
    editor.scroll_down();
    editor.scroll_down();
    editor.scroll_right();
    assert_eq!((editor.vertical_scroll, editor.horizontal_scroll), (2, 1));
    editor.scroll_up();
    editor.scroll_left();
    assert_eq!((editor.vertical_scroll, editor.horizontal_scroll), (1, 0));
    editor.vertical_scroll = usize::MAX;
    editor.horizontal_scroll = usize::MAX;
    editor.scroll_down();
    editor.scroll_right();
    assert_eq!((editor.vertical_scroll, editor.horizontal_scroll), (usize::MAX, usize::MAX));
}

#[test]
fn new_tab_wraps_a_fresh_editor() {
    let tab = Tab::new("a.txt", "/root/a.txt", "text".to_string());
    assert_eq!(tab.title, "a.txt");
    assert_eq!(tab.editor.file_path, "/root/a.txt");
    assert_eq!(tab.editor.get_content(), "text");
}

#[test]
fn new_container_is_empty() {
    let tabs = TabContainer::new();
    assert_eq!(tabs.get_tabs().len(), 0);
    assert_eq!(tabs.get_selected_index(), 0);
    assert!(tabs.selected().is_none());
}

#[test]
fn select_on_an_empty_container_is_refused_and_changes_nothing() {
    let mut tabs = TabContainer::new();
    assert_eq!(tabs.set_selected_index(0), Err(TabError::OutOfRange));
    assert_eq!(tabs.set_selected_index(3), Err(TabError::OutOfRange));
    assert_eq!(tabs.get_selected_index(), 0);
    assert_eq!(tabs.get_tabs().len(), 0);
}

#[test]
fn push_keeps_the_selection() {
    let mut tabs = TabContainer::new();
    tabs.push_tab(Tab::new("a", "/a", String::new()));
    tabs.push_tab(Tab::new("b", "/b", String::new()));
    assert_eq!(tabs.get_tabs().len(), 2);
    assert_eq!(tabs.get_selected_index(), 0);
    assert_eq!(tabs.selected().unwrap().title, "a");
    assert_eq!(tabs.get_tabs()[1].title, "b");
}

#[test]
fn select_in_range_moves_the_selection() {
    let mut tabs = TabContainer::new();
    tabs.push_tab(Tab::new("a", "/a", String::new()));
    tabs.push_tab(Tab::new("b", "/b", String::new()));
    assert_eq!(tabs.set_selected_index(1), Ok(()));
    assert_eq!(tabs.get_selected_index(), 1);
    assert_eq!(tabs.selected().unwrap().title, "b");
    assert_eq!(tabs.set_selected_index(2), Err(TabError::OutOfRange));
    assert_eq!(tabs.get_selected_index(), 1);
}

fn three_tabs(selected: usize) -> TabContainer {
    let mut tabs = TabContainer::new();
    tabs.push_tab(Tab::new("a", "/a", String::new()));
    tabs.push_tab(Tab::new("b", "/b", String::new()));
    tabs.push_tab(Tab::new("c", "/c", String::new()));
    tabs.set_selected_index(selected).unwrap();
    tabs
}

#[test]
fn remove_before_the_selection_keeps_the_index() {
    let mut tabs = three_tabs(1);
    assert_eq!(tabs.remove(0).unwrap().title, "a");
    assert_eq!(tabs.get_tabs().len(), 2);
    assert_eq!(tabs.get_selected_index(), 1);
    assert_eq!(tabs.selected().unwrap().title, "c");
}

#[test]
fn remove_of_the_last_selected_tab_clamps_the_selection() {
    let mut tabs = three_tabs(2);
    assert_eq!(tabs.remove(2).unwrap().title, "c");
    assert_eq!(tabs.get_selected_index(), 1);
    assert_eq!(tabs.remove(0).unwrap().title, "a");
    assert_eq!(tabs.get_selected_index(), 0);
    assert_eq!(tabs.selected().unwrap().title, "b");
}

#[test]
fn remove_of_the_only_tab_leaves_an_empty_container() {
    let mut tabs = TabContainer::new();
    tabs.push_tab(Tab::new("a", "/a", String::new()));
    assert!(tabs.remove(0).is_some());
    assert_eq!(tabs.get_tabs().len(), 0);
    assert_eq!(tabs.get_selected_index(), 0);
    assert!(tabs.selected().is_none());
}

#[test]
fn remove_out_of_range_changes_nothing() {
    let mut tabs = three_tabs(1);
    assert!(tabs.remove(3).is_none());
    assert_eq!(tabs.get_tabs().len(), 3);
    assert_eq!(tabs.get_selected_index(), 1);
    let mut empty = TabContainer::new();
    assert!(empty.remove(0).is_none());
}

#[test]
fn toggle_selected_mode_touches_the_active_tab_only() {
    let mut tabs = three_tabs(1);
    tabs.toggle_selected_mode();
    assert!(tabs.get_tabs()[0].editor.edit_mode == EditMode::View);
    assert!(tabs.get_tabs()[1].editor.edit_mode == EditMode::Write);
    assert!(tabs.get_tabs()[2].editor.edit_mode == EditMode::View);
    let mut empty = TabContainer::new();
    empty.toggle_selected_mode();
    assert_eq!(empty.get_tabs().len(), 0);
}
