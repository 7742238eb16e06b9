use cui_editor::file_manager::FileItem;
use cui_editor::order::bytes_sort_before;
use cui_editor::scan::{ScanEntry, ScanError};

const CLOSED: &str = "\u{1F4C1}";
const OPEN: &str = "\u{1F4C2}";
const FILE: &str = "\u{1F4C4}";

fn sample_scan() -> ScanEntry {
    ScanEntry::directory(
        "root",
        "/root",
        vec![
            ScanEntry::file("d.txt", "/root/d.txt"),
            ScanEntry::file("a.txt", "/root/a.txt"),
            ScanEntry::directory("b", "/root/b", vec![ScanEntry::file("c.txt", "/root/b/c.txt")]),
        ],
    )
}

fn sample_tree() -> FileItem {
    FileItem::read_tree(&sample_scan()).unwrap()
}

fn names(tree: &FileItem) -> Vec<String> {
    tree.flatten_visible().iter().map(|row| row.0.get_name().to_string()).collect()
}

#[test]
fn new_file_has_no_children() {
    let item = FileItem::new("a.txt", "/root/a.txt", false);
    assert_eq!(item.get_name(), "a.txt");
    assert_eq!(item.get_path(), "/root/a.txt");
    assert!(item.get_items().is_none());
}

#[test]
fn new_directory_is_closed_and_empty() {
    let item = FileItem::new("b", "/root/b", true);
    assert_eq!(item.get_items().map(|items| items.len()), Some(0));
    let mut root = FileItem::new("root", "/root", true);
    root.add_item(item);
    assert_eq!(root.tree_to_string_without_root(), vec![format!("{} b", CLOSED)]);
}

#[test]
fn add_item_appends_to_a_directory_only() {
    let mut dir = FileItem::new("b", "/b", true);
    dir.add_item(FileItem::new("x", "/b/x", false));
    dir.add_item(FileItem::new("y", "/b/y", false));
    let children = dir.get_items().unwrap();
    assert_eq!(children.len(), 2);
    assert_eq!(children[0].get_name(), "x");
    assert_eq!(children[1].get_name(), "y");

    let mut file = FileItem::new("f", "/f", false);
    file.add_item(FileItem::new("x", "/f/x", false));
    assert!(file.get_items().is_none());
}

#[test]
fn build_lists_directories_first_then_names_ascending() {
    let tree = sample_tree();
    assert_eq!(tree.get_name(), "root");
    assert_eq!(
        tree.tree_to_string_without_root(),
        vec![format!("{} b", CLOSED), format!("{} a.txt", FILE), format!("{} d.txt", FILE)]
    );
}

#[test]
fn toggling_a_directory_shows_its_children_indented() {
    let mut tree = sample_tree();
    tree.find_item_by_path_mut("/root/b").unwrap().toggle_open();
    assert_eq!(
        tree.tree_to_string_without_root(),
        vec![
            format!("{} b", OPEN),
            format!(" {} c.txt", FILE),
            format!("{} a.txt", FILE),
            format!("{} d.txt", FILE)
        ]
    );
    assert_eq!(names(&tree), vec!["b", "c.txt", "a.txt", "d.txt"]);
}

#[test]
fn toggle_round_trip_restores_the_list() {
    let mut tree = sample_tree();
    let before = tree.tree_to_string_without_root();
    tree.find_item_by_path_mut("/root/b").unwrap().toggle_open();
    assert_ne!(tree.tree_to_string_without_root(), before);
    tree.find_item_by_path_mut("/root/b").unwrap().toggle_open();
    assert_eq!(tree.tree_to_string_without_root(), before);
}

#[test]
fn toggle_on_a_file_changes_nothing() {
    let mut tree = sample_tree();
    let before = tree.tree_to_string_without_root();
    tree.find_item_by_path_mut("/root/a.txt").unwrap().toggle_open();
    assert_eq!(tree.tree_to_string_without_root(), before);
}

#[test]
fn flat_index_matches_the_flattened_list() {
    let mut tree = sample_tree();
    tree.find_item_by_path_mut("/root/b").unwrap().toggle_open();
    let expected = names(&tree);
    for (index, name) in expected.iter().enumerate() {
        assert_eq!(tree.get_item_from_flat_index(index).unwrap().get_name(), name);
    }
    assert!(tree.get_item_from_flat_index(expected.len()).is_none());
    assert!(tree.get_item_from_flat_index(usize::MAX).is_none());
}

#[test]
fn flat_index_on_a_file_root_finds_nothing() {
    let tree = FileItem::new("a.txt", "/a.txt", false);
    assert!(tree.get_item_from_flat_index(0).is_none());
    assert!(tree.tree_to_string_without_root().is_empty());
}

#[test]
fn root_children_show_even_though_the_root_is_closed() {
    let tree = sample_tree();
    assert_eq!(names(&tree), vec!["b", "a.txt", "d.txt"]);
}

#[test]
fn nested_open_directories_indent_by_depth() {
    let scan = ScanEntry::directory(
        "r",
        "/r",
        vec![ScanEntry::directory(
            "x",
            "/r/x",
            vec![
                ScanEntry::directory("y", "/r/x/y", vec![ScanEntry::file("z", "/r/x/y/z")]),
                ScanEntry::file("w", "/r/x/w"),
            ],
        )],
    );
    let mut tree = FileItem::read_tree(&scan).unwrap();
    tree.find_item_by_path_mut("/r/x").unwrap().toggle_open();
    tree.find_item_by_path_mut("/r/x/y").unwrap().toggle_open();
    assert_eq!(
        tree.tree_to_string_without_root(),
        vec![
            format!("{} x", OPEN),
            format!(" {} y", OPEN),
            format!("  {} z", FILE),
            format!(" {} w", FILE)
        ]
    );
    tree.find_item_by_path_mut("/r/x").unwrap().toggle_open();
    assert_eq!(tree.tree_to_string_without_root(), vec![format!("{} x", CLOSED)]);
    tree.find_item_by_path_mut("/r/x").unwrap().toggle_open();
    assert_eq!(tree.tree_to_string_without_root().len(), 4);
}

#[test]
fn find_searches_hidden_entries_and_the_root() {
    let mut tree = sample_tree();
    assert_eq!(tree.find_item_by_path_mut("/root/b/c.txt").unwrap().get_name(), "c.txt");
    assert_eq!(tree.find_item_by_path_mut("/root").unwrap().get_name(), "root");
    assert!(tree.find_item_by_path_mut("/root/missing").is_none());
}

#[test]
fn find_returns_the_first_entry_in_search_order() {
    let mut root = FileItem::new("root", "/root", true);
    let mut first = FileItem::new("first", "/root/one", true);
    first.add_item(FileItem::new("inner", "/same", false));
    root.add_item(first);
    root.add_item(FileItem::new("outer", "/same", false));
    assert_eq!(root.find_item_by_path_mut("/same").unwrap().get_name(), "inner");
}

#[test]
fn names_sort_by_bytes_case_sensitive() {
    let scan = ScanEntry::directory(
        "r",
        "/r",
        vec![
            ScanEntry::file("b", "/r/b"),
            ScanEntry::file("ab", "/r/ab"),
            ScanEntry::file("a", "/r/a"),
            ScanEntry::file("B", "/r/B"),
            ScanEntry::directory("z", "/r/z", vec![]),
            ScanEntry::directory("Z", "/r/Z", vec![]),
            ScanEntry::file("\u{e9}", "/r/e-acute"),
        ],
    );
    let tree = FileItem::read_tree(&scan).unwrap();
    assert_eq!(names(&tree), vec!["Z", "z", "B", "a", "ab", "b", "\u{e9}"]);
}

#[test]
fn entries_that_sort_alike_keep_their_order() {
    let scan = ScanEntry::directory(
        "r",
        "/r",
        vec![ScanEntry::file("same", "/r/1"), ScanEntry::file("same", "/r/2")],
    );
    let tree = FileItem::read_tree(&scan).unwrap();
    let paths: Vec<String> =
        tree.flatten_visible().iter().map(|row| row.0.get_path().to_string()).collect();
    assert_eq!(paths, vec!["/r/1", "/r/2"]);
}

#[test]
fn byte_order_is_strict_and_puts_prefixes_first() {
    assert!(bytes_sort_before(b"a", b"ab"));
    assert!(!bytes_sort_before(b"ab", b"a"));
    assert!(!bytes_sort_before(b"a", b"a"));
    assert!(bytes_sort_before(b"", b"a"));
    assert!(!bytes_sort_before(b"", b""));
    assert!(bytes_sort_before(b"Z", b"a"));
    assert!(bytes_sort_before(b"ab", b"b"));
}

#[test]
fn a_file_root_builds_a_file() {
    let tree = FileItem::read_tree(&ScanEntry::file("a.txt", "/a.txt")).unwrap();
    assert_eq!(tree.get_name(), "a.txt");
    assert!(tree.get_items().is_none());
}

#[test]
fn an_unreadable_root_fails_the_build() {
    let built = FileItem::read_tree(&ScanEntry::unreadable("r", "/r"));
    assert_eq!(built.err(), Some(ScanError::Unreadable));
}

#[test]
fn an_unreadable_subtree_fails_the_whole_build() {
    let scan = ScanEntry::directory(
        "r",
        "/r",
        vec![
            ScanEntry::file("a", "/r/a"),
            ScanEntry::directory("d", "/r/d", vec![ScanEntry::unreadable("x", "/r/d/x")]),
        ],
    );
    assert_eq!(FileItem::read_tree(&scan).err(), Some(ScanError::Unreadable));
}

#[test]
fn scan_entry_getters_return_what_was_given() {
    let entry = ScanEntry::directory("d", "/d", vec![ScanEntry::file("f", "/d/f")]);
    assert_eq!(entry.get_name(), "d");
    assert_eq!(entry.get_path(), "/d");
    assert!(!entry.is_file());
    assert_eq!(entry.get_entries().unwrap().len(), 1);
    assert!(entry.get_entries().unwrap()[0].is_file());
    assert!(ScanEntry::unreadable("u", "/u").get_entries().is_none());
}

#[test]
fn flatten_visible_gives_each_row_its_depth() {
    let mut tree = sample_tree();
    tree.find_item_by_path_mut("/root/b").unwrap().toggle_open();
    let rows: Vec<(String, usize)> = tree
        .flatten_visible()
        .iter()
        .map(|row| (row.0.get_name().to_string(), row.1))
        .collect();
    assert_eq!(
        rows,
        vec![
            ("b".to_string(), 0),
            ("c.txt".to_string(), 1),
            ("a.txt".to_string(), 0),
            ("d.txt".to_string(), 0)
        ]
    );
}

#[test]
fn clone_copies_the_whole_subtree() {
    let mut tree = sample_tree();
    tree.find_item_by_path_mut("/root/b").unwrap().toggle_open();
    let mut copy = tree.clone();
    assert_eq!(copy.tree_to_string_without_root(), tree.tree_to_string_without_root());
    assert_eq!(copy.get_name(), "root");
    assert_eq!(copy.get_path(), "/root");
    copy.find_item_by_path_mut("/root/b").unwrap().toggle_open();
    assert_eq!(copy.tree_to_string_without_root().len(), 3);
    assert_eq!(tree.tree_to_string_without_root().len(), 4);
}

#[test]
fn default_item_is_a_nameless_file() {
    let item = FileItem::default();
    assert_eq!(item.get_name(), "");
    assert_eq!(item.get_path(), "");
    assert!(item.get_items().is_none());
}
