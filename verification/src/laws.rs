use vstd::prelude::*;
use crate::key::{KeyCode, KeyEvent};
use crate::node::{FileNode, find_in, replaced_in};
use crate::order::{insert_position, insert_sorted, lemma_insert_position, sort_nodes};
use crate::scan::{ScanNode, forest};
use crate::AppView;

verus! {

/// An entry found under a path has that path.
pub proof fn lemma_found_has_path(node: FileNode, path: Seq<char>)
    ensures
        node.find(path).is_some() ==> node.find(path).unwrap().path == path,
    decreases node,
{
    if node.path != path {
        if let Some(items) = node.items {
            lemma_found_in_has_path(items, path);
        }
    }
}

/// An entry found under a path among several subtrees has that path.
pub proof fn lemma_found_in_has_path(items: Seq<FileNode>, path: Seq<char>)
    ensures
        find_in(items, path).is_some() ==> find_in(items, path).unwrap().path == path,
    decreases items,
{
    if items.len() > 0 {
        lemma_found_has_path(items[0], path);
        lemma_found_in_has_path(items.drop_first(), path);
    }
}

/// After an entry was exchanged for one with the same path, the search for
/// that path finds the new entry.
pub proof fn lemma_find_after_replace(node: FileNode, path: Seq<char>, new_node: FileNode)
    requires
        node.find(path).is_some(),
        new_node.path == path,
    ensures
        node.replaced(path, new_node).find(path) == Some(new_node),
    decreases node,
{
    if node.path != path {
        lemma_find_in_after_replace(node.items.unwrap(), path, new_node);
    }
}

/// The same among several subtrees.
pub proof fn lemma_find_in_after_replace(items: Seq<FileNode>, path: Seq<char>, new_node: FileNode)
    requires
        find_in(items, path).is_some(),
        new_node.path == path,
    ensures
        find_in(replaced_in(items, path, new_node), path) == Some(new_node),
    decreases items,
{
    let rest = items.drop_first();
    if items[0].find(path).is_some() {
        lemma_find_after_replace(items[0], path, new_node);
        let changed = seq![items[0].replaced(path, new_node)] + rest;
        assert(changed[0] == items[0].replaced(path, new_node));
    } else {
        lemma_find_in_after_replace(rest, path, new_node);
        let changed = seq![items[0]] + replaced_in(rest, path, new_node);
        assert(changed[0] == items[0]);
        assert(changed.drop_first() =~= replaced_in(rest, path, new_node));
    }
}

/// Of two exchanges under one path, the second decides.
pub proof fn lemma_replace_twice(
    node: FileNode,
    path: Seq<char>,
    first: FileNode,
    second: FileNode,
)
    requires
        first.path == path,
    ensures
        node.replaced(path, first).replaced(path, second) == node.replaced(path, second),
    decreases node,
{
    if node.path != path {
        if let Some(items) = node.items {
            lemma_replace_in_twice(items, path, first, second);
        }
    }
}

/// The same among several subtrees.
pub proof fn lemma_replace_in_twice(
    items: Seq<FileNode>,
    path: Seq<char>,
    first: FileNode,
    second: FileNode,
)
    requires
        first.path == path,
    ensures
        replaced_in(replaced_in(items, path, first), path, second) == replaced_in(
            items,
            path,
            second,
        ),
    decreases items,
{
    if items.len() > 0 {
        let rest = items.drop_first();
        if items[0].find(path).is_some() {
            lemma_find_after_replace(items[0], path, first);
            lemma_replace_twice(items[0], path, first, second);
            let changed = seq![items[0].replaced(path, first)] + rest;
            assert(changed[0] == items[0].replaced(path, first));
            assert(changed.drop_first() =~= rest);
        } else {
            lemma_replace_in_twice(rest, path, first, second);
            let changed = seq![items[0]] + replaced_in(rest, path, first);
            assert(changed[0] == items[0]);
            assert(changed.drop_first() =~= replaced_in(rest, path, first));
        }
    }
}

/// Exchanging an entry for itself changes nothing.
pub proof fn lemma_replace_with_found(node: FileNode, path: Seq<char>)
    requires
        node.find(path).is_some(),
    ensures
        node.replaced(path, node.find(path).unwrap()) == node,
    decreases node,
{
    if node.path != path {
        lemma_replace_in_with_found(node.items.unwrap(), path);
    }
}

/// The same among several subtrees.
pub proof fn lemma_replace_in_with_found(items: Seq<FileNode>, path: Seq<char>)
    requires
        find_in(items, path).is_some(),
    ensures
        replaced_in(items, path, find_in(items, path).unwrap()) == items,
    decreases items,
{
    let rest = items.drop_first();
    if items[0].find(path).is_some() {
        lemma_replace_with_found(items[0], path);
        assert(seq![items[0]] + rest =~= items);
    } else {
        lemma_replace_in_with_found(rest, path);
        assert(seq![items[0]] + rest =~= items);
    }
}

/// Toggling an entry twice gives the entry back.
pub proof fn lemma_toggled_twice(node: FileNode)
    ensures
        node.toggled().toggled() == node,
{
}

/// Toggling the entry under a path and then toggling it again restores the
/// tree, and with it the flattened visible list, rows and order alike.
pub proof fn lemma_toggle_round_trip(root: FileNode, path: Seq<char>)
    ensures
        root.toggled_at(path).toggled_at(path) == root,
        root.toggled_at(path).toggled_at(path).visible() == root.visible(),
{
    if let Some(node) = root.find(path) {
        lemma_found_has_path(root, path);
        lemma_find_after_replace(root, path, node.toggled());
        lemma_toggled_twice(node);
        lemma_replace_twice(root, path, node.toggled(), node);
        lemma_replace_with_found(root, path);
    }
}

/// Toggling keeps an entry well formed.
pub proof fn lemma_toggled_wf(node: FileNode)
    requires
        node.wf(),
    ensures
        node.toggled().wf(),
{
}

/// Appending a well-formed child keeps an entry well formed.
pub proof fn lemma_with_item_wf(node: FileNode, item: FileNode)
    requires
        node.wf(),
        item.wf(),
    ensures
        node.with_item(item).wf(),
{
}

/// What is found in a well-formed tree is well formed.
pub proof fn lemma_found_wf(node: FileNode, path: Seq<char>)
    requires
        node.wf(),
    ensures
        node.find(path).is_some() ==> node.find(path).unwrap().wf(),
    decreases node,
{
    if node.path != path {
        if let Some(items) = node.items {
            lemma_found_in_wf(items, path);
        }
    }
}

/// The same among several subtrees.
pub proof fn lemma_found_in_wf(items: Seq<FileNode>, path: Seq<char>)
    requires
        forall|i: int| 0 <= i < items.len() ==> (#[trigger] items[i]).wf(),
    ensures
        find_in(items, path).is_some() ==> find_in(items, path).unwrap().wf(),
    decreases items,
{
    if items.len() > 0 {
        lemma_found_wf(items[0], path);
        let rest = items.drop_first();
        assert forall|i: int| 0 <= i < rest.len() implies (#[trigger] rest[i]).wf() by {
            assert(rest[i] == items[i + 1]);
        }
        lemma_found_in_wf(rest, path);
    }
}

/// Exchanging an entry for a well-formed one keeps a tree well formed.
pub proof fn lemma_replaced_wf(node: FileNode, path: Seq<char>, new_node: FileNode)
    requires
        node.wf(),
        new_node.wf(),
    ensures
        node.replaced(path, new_node).wf(),
    decreases node,
{
    if node.path != path {
        if let Some(items) = node.items {
            lemma_replaced_in_wf(items, path, new_node);
        }
    }
}

/// The same among several subtrees.
pub proof fn lemma_replaced_in_wf(items: Seq<FileNode>, path: Seq<char>, new_node: FileNode)
    requires
        forall|i: int| 0 <= i < items.len() ==> (#[trigger] items[i]).wf(),
        new_node.wf(),
    ensures
        replaced_in(items, path, new_node).len() == items.len(),
        forall|i: int|
            0 <= i < items.len() ==> (#[trigger] replaced_in(items, path, new_node)[i]).wf(),
    decreases items,
{
    if items.len() > 0 {
        let rest = items.drop_first();
        assert forall|i: int| 0 <= i < rest.len() implies (#[trigger] rest[i]).wf() by {
            assert(rest[i] == items[i + 1]);
        }
        if items[0].find(path).is_some() {
            lemma_replaced_wf(items[0], path, new_node);
        } else {
            lemma_replaced_in_wf(rest, path, new_node);
        }
        let changed = replaced_in(items, path, new_node);
        assert forall|i: int| 0 <= i < items.len() implies (#[trigger] changed[i]).wf() by {
            if i > 0 {
                if items[0].find(path).is_some() {
                    assert(changed[i] == rest[i - 1]);
                } else {
                    assert(changed[i] == replaced_in(rest, path, new_node)[i - 1]);
                }
            }
        }
    }
}

/// Toggling the entry under a path keeps a tree well formed.
pub proof fn lemma_toggled_at_wf(root: FileNode, path: Seq<char>)
    requires
        root.wf(),
    ensures
        root.toggled_at(path).wf(),
{
    if let Some(node) = root.find(path) {
        lemma_found_wf(root, path);
        lemma_toggled_wf(node);
        lemma_replaced_wf(root, path, node.toggled());
    }
}

/// Sorting well-formed entries gives well-formed entries.
pub proof fn lemma_sort_keeps_wf(nodes: Seq<FileNode>)
    requires
        forall|i: int| 0 <= i < nodes.len() ==> (#[trigger] nodes[i]).wf(),
    ensures
        forall|i: int| 0 <= i < sort_nodes(nodes).len() ==> (#[trigger] sort_nodes(nodes)[i]).wf(),
    decreases nodes.len(),
{
    if nodes.len() > 0 {
        let front = nodes.drop_last();
        assert forall|i: int| 0 <= i < front.len() implies (#[trigger] front[i]).wf() by {
            assert(front[i] == nodes[i]);
        }
        lemma_sort_keeps_wf(front);
        lemma_insert_position(sort_nodes(front), nodes.last());
        let position = insert_position(sort_nodes(front), nodes.last());
        let sorted = insert_sorted(sort_nodes(front), nodes.last());
        assert forall|i: int| 0 <= i < sorted.len() implies (#[trigger] sorted[i]).wf() by {
            if i < position {
                assert(sorted[i] == sort_nodes(front)[i]);
            } else if i > position {
                assert(sorted[i] == sort_nodes(front)[i - 1]);
            }
        }
    }
}

/// The tree built from a scan is well formed.
pub proof fn lemma_tree_wf(scan: ScanNode)
    ensures
        scan.tree().wf(),
    decreases scan,
{
    if !scan.is_file {
        if let Some(entries) = scan.entries {
            lemma_forest_wf(entries);
            lemma_sort_keeps_wf(forest(entries));
        }
    }
}

/// The trees built from several scanned entries are well formed.
pub proof fn lemma_forest_wf(entries: Seq<ScanNode>)
    ensures
        forest(entries).len() == entries.len(),
        forall|i: int| 0 <= i < entries.len() ==> (#[trigger] forest(entries)[i]).wf(),
    decreases entries,
{
    if entries.len() > 0 {
        lemma_forest_wf(entries.drop_last());
        lemma_tree_wf(entries.last());
        assert forall|i: int| 0 <= i < entries.len() implies (#[trigger] forest(entries)[i]).wf() by {
            if i < entries.len() - 1 {
                assert(forest(entries)[i] == forest(entries.drop_last())[i]);
            }
        }
    }
}

/// One round of the event loop: a key press and, for the case that the press
/// asks for a file, what reading that file gave (nothing where it failed).
pub struct Step {
    pub key_event: KeyEvent,
    pub content: Option<Seq<char>>,
}

impl Step {
    /// This round opens a tab: the loop still runs, the press asks for a
    /// file, and the file was read.
    pub open spec fn opens(self, state: AppView) -> bool {
        !state.exit && state.request(self.key_event).is_some() && self.content.is_some()
    }

    /// The state after this round. Once `exit` is set the loop has ended and
    /// a further press changes nothing.
    pub open spec fn apply(self, state: AppView) -> AppView {
        if state.exit {
            state
        } else {
            let next = state.after_key(self.key_event);
            if self.opens(state) {
                next.with_opened(state.request(self.key_event).unwrap(), self.content.unwrap())
            } else {
                next
            }
        }
    }
}

/// The state after several rounds.
pub open spec fn run(state: AppView, steps: Seq<Step>) -> AppView
    decreases steps.len(),
{
    if steps.len() == 0 {
        state
    } else {
        steps.last().apply(run(state, steps.drop_last()))
    }
}

/// How many of several rounds open a tab.
pub open spec fn opened(state: AppView, steps: Seq<Step>) -> nat
    decreases steps.len(),
{
    if steps.len() == 0 {
        0
    } else {
        opened(state, steps.drop_last()) + if steps.last().opens(run(state, steps.drop_last())) {
            1nat
        } else {
            0nat
        }
    }
}

/// A key press alone leaves the number of tabs and the selected tab as they
/// were.
pub proof fn lemma_key_keeps_tabs(state: AppView, key_event: KeyEvent)
    ensures
        state.after_key(key_event).tabs.tabs.len() == state.tabs.tabs.len(),
        state.after_key(key_event).tabs.selected_index == state.tabs.selected_index,
{
}

/// Every round that opens a file adds one tab at the end and selects it, and
/// no other round changes the number of tabs or the selection: after any
/// rounds, however the opening ones are mixed with others, there are as many
/// more tabs as files were opened, and once one was opened the last tab is
/// the selected one.
pub proof fn lemma_tabs_follow_opened_files(state: AppView, steps: Seq<Step>)
    ensures
        run(state, steps).tabs.tabs.len() == state.tabs.tabs.len() + opened(state, steps),
        opened(state, steps) > 0 ==> run(state, steps).tabs.selected_index + 1 == run(
            state,
            steps,
        ).tabs.tabs.len(),
        opened(state, steps) == 0 ==> run(state, steps).tabs.selected_index
            == state.tabs.selected_index,
    decreases steps.len(),
{
    if steps.len() > 0 {
        let before = run(state, steps.drop_last());
        lemma_tabs_follow_opened_files(state, steps.drop_last());
        lemma_key_keeps_tabs(before, steps.last().key_event);
    }
}

/// Started without tabs, the application has exactly one tab for each file
/// opened so far, and after the first the last one opened is selected.
pub proof fn lemma_opened_files_from_start(root: FileNode, steps: Seq<Step>)
    ensures
        run(AppView::initial(root), steps).tabs.tabs.len() == opened(
            AppView::initial(root),
            steps,
        ),
        opened(AppView::initial(root), steps) > 0 ==> run(
            AppView::initial(root),
            steps,
        ).tabs.selected_index == opened(AppView::initial(root), steps) - 1,
{
    lemma_tabs_follow_opened_files(AppView::initial(root), steps);
}

/// Control with `q` sets `exit`, whatever the focus and the rest of the
/// state, and changes nothing else.
pub proof fn lemma_quit_sets_exit(state: AppView, key_event: KeyEvent)
    requires
        key_event.modifiers.is_control(),
        key_event.code == KeyCode::Char('q'),
    ensures
        state.after_key(key_event) == (AppView { exit: true, ..state }),
        state.request(key_event).is_none(),
{
}

/// Alt with `e` moves the focus to the other panel, whatever the focus and
/// the rest of the state, and changes nothing else.
pub proof fn lemma_focus_key_toggles_focus(state: AppView, key_event: KeyEvent)
    requires
        key_event.modifiers.is_alt(),
        key_event.code == KeyCode::Char('e'),
    ensures
        state.after_key(key_event) == state.focus_change_toggle(),
        state.request(key_event).is_none(),
{
}

/// The bindings of a panel and the global ones do not get in each other's
/// way: no binding of a panel touches `exit` or the focus, and a key press
/// gives the same state whichever of the two tables is asked first.
pub proof fn lemma_panel_and_global_bindings_independent(state: AppView, key_event: KeyEvent)
    ensures
        state.focus_scoped(key_event).exit == state.exit,
        state.focus_scoped(key_event).focus == state.focus,
        state.focus_scoped(key_event).global(key_event) == state.global(key_event).focus_scoped(
            key_event,
        ),
{
}

/// Once `exit` is set, no further round changes the state: the loop has
/// ended.
pub proof fn lemma_exit_ends_run(state: AppView, steps: Seq<Step>)
    requires
        state.exit,
    ensures
        run(state, steps) == state,
    decreases steps.len(),
{
    if steps.len() > 0 {
        lemma_exit_ends_run(state, steps.drop_last());
    }
}

/// The state at start over a well-formed tree is consistent.
pub proof fn lemma_initial_wf(root: FileNode)
    requires
        root.wf(),
    ensures
        AppView::initial(root).wf(),
{
}

/// A key press keeps a consistent state consistent: the tree stays well
/// formed, the selection still names a visible row, the panel width stays
/// within its limits, and the selected tab exists.
pub proof fn lemma_key_keeps_wf(state: AppView, key_event: KeyEvent)
    requires
        state.wf(),
    ensures
        state.after_key(key_event).wf(),
{
    if let Some(node) = state.selected_node() {
        lemma_toggled_at_wf(state.root, node.path);
    }
}

/// Opening a file keeps a consistent state consistent.
pub proof fn lemma_open_keeps_wf(state: AppView, request: crate::FileRequestView, content: Seq<char>)
    requires
        state.wf(),
    ensures
        state.with_opened(request, content).wf(),
{
}

} // verus!
