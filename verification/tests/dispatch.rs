use cui_editor::file_manager::FileItem;
use cui_editor::key::{KeyCode, KeyEvent, KeyModifiers};
use cui_editor::scan::ScanEntry;
use cui_editor::{AppFocus, CuiEditor};
use cui_editor::editor::EditMode;

fn app() -> CuiEditor {
    let scan = ScanEntry::directory(
        "root",
        "/root",
        vec![
            ScanEntry::file("a.txt", "/root/a.txt"),
            ScanEntry::directory("b", "/root/b", vec![ScanEntry::file("c.txt", "/root/b/c.txt")]),
            ScanEntry::file("d.txt", "/root/d.txt"),
        ],
    );
    CuiEditor::new(FileItem::read_tree(&scan).unwrap())
}

fn plain(code: KeyCode) -> KeyEvent {
    KeyEvent::new(code, KeyModifiers::none())
}

fn ctrl(code: KeyCode) -> KeyEvent {
    KeyEvent::new(code, KeyModifiers::control())
}

fn shift(code: KeyCode) -> KeyEvent {
    KeyEvent::new(code, KeyModifiers::shift())
}

fn alt(code: KeyCode) -> KeyEvent {
    KeyEvent::new(code, KeyModifiers::alt())
}

fn press(app: &mut CuiEditor, event: KeyEvent, content: Option<&str>) -> bool {
    match app.handle_key_event(event) {
        Some(request) => {
            app.selected_file_display_tab(request, content.map(|text| text.to_string()));
            true
        }
        None => false,
    }
}

fn rows(app: &CuiEditor) -> Vec<String> {
    app.file_item.flatten_visible().iter().map(|row| row.0.get_name().to_string()).collect()
}

#[test]
fn starts_in_the_tree_panel_with_nothing_selected() {
    let app = app();
    assert!(app.app_focus == AppFocus::FileManager);
    assert_eq!(app.tree_selection, None);
    assert_eq!(app.file_manager_width, 20);
    assert!(!app.exit);
    assert_eq!(app.tab_container.get_tabs().len(), 0);
    assert_eq!(rows(&app), vec!["b", "a.txt", "d.txt"]);
}

#[test]
fn down_selects_the_first_row_and_ctrl_down_the_last() {
    let mut app = app();
    assert!(app.handle_key_event(plain(KeyCode::Down)).is_none());
    assert_eq!(app.tree_selection, Some(0));
    app.handle_key_event(ctrl(KeyCode::Down));
    assert_eq!(app.tree_selection, Some(2));
    app.handle_key_event(plain(KeyCode::Down));
    assert_eq!(app.tree_selection, Some(2));
    app.handle_key_event(ctrl(KeyCode::Up));
    assert_eq!(app.tree_selection, Some(0));
    app.handle_key_event(plain(KeyCode::Up));
    assert_eq!(app.tree_selection, Some(0));
}

#[test]
fn down_and_up_move_by_one() {
    let mut app = app();
    app.handle_key_event(plain(KeyCode::Down));
    app.handle_key_event(plain(KeyCode::Down));
    assert_eq!(app.tree_selection, Some(1));
    app.handle_key_event(plain(KeyCode::Up));
    assert_eq!(app.tree_selection, Some(0));
}

#[test]
fn up_without_a_selection_goes_to_the_last_row() {
    let mut app = app();
    app.handle_key_event(plain(KeyCode::Up));
    assert_eq!(app.tree_selection, Some(2));
}

#[test]
fn esc_clears_the_selection() {
    let mut app = app();
    app.handle_key_event(plain(KeyCode::Down));
    app.handle_key_event(plain(KeyCode::Esc));
    assert_eq!(app.tree_selection, None);
}

#[test]
fn an_empty_tree_never_gets_a_selection() {
    let mut app = CuiEditor::new(FileItem::new("root", "/root", true));
    app.handle_key_event(plain(KeyCode::Down));
    assert_eq!(app.tree_selection, None);
    app.handle_key_event(plain(KeyCode::Up));
    assert_eq!(app.tree_selection, None);
    app.handle_key_event(ctrl(KeyCode::Down));
    assert_eq!(app.tree_selection, None);
    app.handle_key_event(ctrl(KeyCode::Up));
    assert_eq!(app.tree_selection, None);
    assert!(app.handle_key_event(plain(KeyCode::Enter)).is_none());
}

#[test]
fn shift_arrows_resize_the_panel_within_its_limits() {
    let mut app = app();
    app.handle_key_event(shift(KeyCode::Right));
    assert_eq!(app.file_manager_width, 25);
    app.handle_key_event(shift(KeyCode::Left));
    app.handle_key_event(shift(KeyCode::Left));
    assert_eq!(app.file_manager_width, 15);
    for _ in 0..10 {
        app.handle_key_event(shift(KeyCode::Left));
    }
    assert_eq!(app.file_manager_width, 0);
    for _ in 0..30 {
        app.handle_key_event(shift(KeyCode::Right));
    }
    assert_eq!(app.file_manager_width, 100);
    app.file_manager_width = 98;
    app.handle_key_event(shift(KeyCode::Right));
    assert_eq!(app.file_manager_width, 100);
    app.file_manager_width = 3;
    app.handle_key_event(shift(KeyCode::Left));
    assert_eq!(app.file_manager_width, 0);
}

#[test]
fn enter_on_a_directory_toggles_it() {
    let mut app = app();
    app.handle_key_event(plain(KeyCode::Down));
    assert!(!press(&mut app, plain(KeyCode::Enter), Some("unused")));
    assert_eq!(rows(&app), vec!["b", "c.txt", "a.txt", "d.txt"]);
    assert_eq!(app.tree_selection, Some(0));
    assert!(app.app_focus == AppFocus::FileManager);
    assert_eq!(app.tab_container.get_tabs().len(), 0);
    assert!(!press(&mut app, plain(KeyCode::Enter), None));
    assert_eq!(rows(&app), vec!["b", "a.txt", "d.txt"]);
}

#[test]
fn enter_on_a_file_opens_a_tab_and_focuses_the_editor() {
    let mut app = app();
    app.handle_key_event(plain(KeyCode::Down));
    app.handle_key_event(plain(KeyCode::Down));
    let request = app.handle_key_event(plain(KeyCode::Enter)).unwrap();
    assert_eq!(request.title, "a.txt");
    assert_eq!(request.path, "/root/a.txt");
    assert!(app.app_focus == AppFocus::FileManager);
    app.selected_file_display_tab(request, Some("hello".to_string()));
    assert_eq!(app.tab_container.get_tabs().len(), 1);
    assert_eq!(app.tab_container.get_selected_index(), 0);
    let tab = app.tab_container.selected().unwrap();
    assert_eq!(tab.title, "a.txt");
    assert_eq!(tab.editor.get_content(), "hello");
    assert_eq!(tab.editor.file_path, "/root/a.txt");
    assert!(tab.editor.edit_mode == EditMode::View);
    assert_eq!((tab.editor.vertical_scroll, tab.editor.horizontal_scroll), (0, 0));
    assert!(app.app_focus == AppFocus::Editor);
    assert_eq!(app.tree_selection, Some(1));
}

#[test]
fn a_failed_read_opens_nothing() {
    let mut app = app();
    app.handle_key_event(ctrl(KeyCode::Down));
    assert!(press(&mut app, plain(KeyCode::Enter), None));
    assert_eq!(app.tab_container.get_tabs().len(), 0);
    assert!(app.app_focus == AppFocus::FileManager);
    assert_eq!(app.tree_selection, Some(2));
}

#[test]
fn enter_without_a_selection_does_nothing() {
    let mut app = app();
    assert!(app.handle_key_event(plain(KeyCode::Enter)).is_none());
    assert_eq!(rows(&app), vec!["b", "a.txt", "d.txt"]);
    assert_eq!(app.tab_container.get_tabs().len(), 0);
}

#[test]
fn opening_files_selects_the_newest_tab_whatever_happens_between() {
    let mut app = app();
    let mut opened = 0;
    for round in 0..4 {
        app.handle_key_event(ctrl(KeyCode::Up));
        app.handle_key_event(plain(KeyCode::Down));
        if round % 2 == 1 {
            app.handle_key_event(plain(KeyCode::Down));
        }
        app.handle_key_event(shift(KeyCode::Right));
        assert!(press(&mut app, plain(KeyCode::Enter), Some("text")));
        opened += 1;
        assert_eq!(app.tab_container.get_tabs().len(), opened);
        assert_eq!(app.tab_container.get_selected_index(), opened - 1);
        assert!(app.app_focus == AppFocus::Editor);
        app.handle_key_event(alt(KeyCode::Char('e')));
        assert!(app.app_focus == AppFocus::FileManager);
    }
    let titles: Vec<&str> =
        app.tab_container.get_tabs().iter().map(|tab| tab.title.as_str()).collect();
    assert_eq!(titles, vec!["a.txt", "d.txt", "a.txt", "d.txt"]);
}

#[test]
fn ctrl_q_sets_exit_from_either_focus() {
    let mut in_tree = app();
    assert!(in_tree.handle_key_event(ctrl(KeyCode::Char('q'))).is_none());
    assert!(in_tree.exit);
    assert!(in_tree.app_focus == AppFocus::FileManager);

    let mut in_editor = app();
    in_editor.handle_key_event(alt(KeyCode::Char('e')));
    assert!(in_editor.app_focus == AppFocus::Editor);
    in_editor.handle_key_event(ctrl(KeyCode::Char('q')));
    assert!(in_editor.exit);
    assert!(in_editor.app_focus == AppFocus::Editor);
}

#[test]
fn alt_e_toggles_the_focus_both_ways() {
    let mut app = app();
    app.handle_key_event(alt(KeyCode::Char('e')));
    assert!(app.app_focus == AppFocus::Editor);
    app.handle_key_event(alt(KeyCode::Char('e')));
    assert!(app.app_focus == AppFocus::FileManager);
}

#[test]
fn tree_keys_do_nothing_while_the_editor_has_the_focus() {
    let mut app = app();
    app.handle_key_event(plain(KeyCode::Down));
    app.handle_key_event(alt(KeyCode::Char('e')));
    app.handle_key_event(plain(KeyCode::Down));
    app.handle_key_event(shift(KeyCode::Right));
    assert!(app.handle_key_event(plain(KeyCode::Enter)).is_none());
    assert_eq!(app.tree_selection, Some(0));
    assert_eq!(app.file_manager_width, 20);
    assert_eq!(rows(&app), vec!["b", "a.txt", "d.txt"]);
}

#[test]
fn alt_c_toggles_the_mode_of_the_active_tab_in_the_editor_only() {
    let mut app = app();
    app.handle_key_event(ctrl(KeyCode::Down));
    assert!(press(&mut app, plain(KeyCode::Enter), Some("text")));
    assert!(app.app_focus == AppFocus::Editor);
    app.handle_key_event(alt(KeyCode::Char('c')));
    assert!(app.tab_container.selected().unwrap().editor.edit_mode == EditMode::Write);
    app.handle_key_event(alt(KeyCode::Char('c')));
    assert!(app.tab_container.selected().unwrap().editor.edit_mode == EditMode::View);
    app.handle_key_event(alt(KeyCode::Char('e')));
    app.handle_key_event(alt(KeyCode::Char('c')));
    assert!(app.tab_container.selected().unwrap().editor.edit_mode == EditMode::View);
}

#[test]
fn combined_modifiers_match_no_binding() {
    let mut app = app();
    let both = KeyModifiers { shift: true, control: true, alt: false, other: false };
    app.handle_key_event(KeyEvent::new(KeyCode::Down, both));
    app.handle_key_event(KeyEvent::new(KeyCode::Char('q'), both));
    let with_other = KeyModifiers { shift: false, control: true, alt: false, other: true };
    app.handle_key_event(KeyEvent::new(KeyCode::Char('q'), with_other));
    assert_eq!(app.tree_selection, None);
    assert!(!app.exit);
    app.handle_key_event(plain(KeyCode::Char('q')));
    app.handle_key_event(plain(KeyCode::Other));
    assert!(!app.exit);
}

#[test]
fn a_selection_past_the_end_is_dropped_when_a_toggle_shortens_the_list() {
    let mut root = FileItem::new("root", "/root", true);
    let mut first = FileItem::new("x", "/same", true);
    first.add_item(FileItem::new("one", "/same/one", false));
    first.add_item(FileItem::new("two", "/same/two", false));
    first.toggle_open();
    root.add_item(first);
    root.add_item(FileItem::new("y", "/same", true));
    let mut app = CuiEditor::new(root);
    app.handle_key_event(ctrl(KeyCode::Down));
    assert_eq!(app.tree_selection, Some(3));
    app.handle_key_event(plain(KeyCode::Enter));
    assert_eq!(rows(&app), vec!["x", "y"]);
    assert_eq!(app.tree_selection, None);
}

#[test]
fn panel_split_shares_out_the_whole_width() {
    let mut app = app();
    assert_eq!(app.panel_split(), (20, 80));
    app.handle_key_event(shift(KeyCode::Right));
    assert_eq!(app.panel_split(), (25, 75));
    app.file_manager_width = 100;
    assert_eq!(app.panel_split(), (100, 0));
    app.file_manager_width = 250;
    assert_eq!(app.panel_split(), (100, 0));
    app.handle_key_event(shift(KeyCode::Left));
    assert_eq!(app.file_manager_width, 100);
}
