//! The core of a terminal file browser with tabbed viewers: a tree of
//! filesystem entries that is flattened into the list of visible rows, the
//! tabs over opened files, and the dispatcher that turns key presses into
//! changes of that state. Reading the disk, polling the keyboard and drawing
//! are left to the program around this library.

use vstd::prelude::*;
use crate::editor::Editor;
use crate::file_manager::{FileItem, ref_rows};
use crate::key::{KeyCode, KeyEvent};
use crate::laws::lemma_key_keeps_wf;
use crate::node::FileNode;
use crate::tab::{Tab, TabContainer, TabView, TabsView};

pub mod editor;
pub mod file_manager;
pub mod key;
pub mod laws;
pub mod node;
pub mod order;
pub mod preorder;
pub mod scan;
pub mod tab;

verus! {

/// The narrowest the tree panel gets, in percent of the screen.
pub const MIN_PANEL_WIDTH: u16 = 0;

/// The widest the tree panel gets, in percent of the screen.
pub const MAX_PANEL_WIDTH: u16 = 100;

/// How far one key press moves the panel's edge, in percent.
pub const PANEL_WIDTH_STEP: u16 = 5;

/// The width the tree panel starts with, in percent.
pub const INITIAL_PANEL_WIDTH: u16 = 20;

/// Which panel receives the focus-scoped key bindings.
#[derive(Clone, Copy, PartialEq, Eq, Structural, Debug)]
pub enum AppFocus {
    FileManager,
    Editor,
}

/// A file that the user asked to open: the title for its tab and the path to
/// read it from.
#[derive(Clone, Debug)]
pub struct FileRequest {
    pub title: String,
    pub path: String,
}

/// The mathematical value of a [`FileRequest`].
pub struct FileRequestView {
    pub title: Seq<char>,
    pub path: Seq<char>,
}

impl View for FileRequest {
    type V = FileRequestView;

    open spec fn view(&self) -> FileRequestView {
        FileRequestView { title: self.title@, path: self.path@ }
    }
}

/// The whole state of the application between two key presses.
#[derive(Debug)]
pub struct CuiEditor {
    pub file_manager_width: u16,
    pub file_item: FileItem,
    pub exit: bool,
    pub tree_selection: Option<usize>,
    pub app_focus: AppFocus,
    pub tab_container: TabContainer,
}

/// The mathematical value of a [`CuiEditor`].
pub struct AppView {
    pub file_manager_width: nat,
    pub root: FileNode,
    pub exit: bool,
    pub tree_selection: Option<nat>,
    pub focus: AppFocus,
    pub tabs: TabsView,
}

impl View for CuiEditor {
    type V = AppView;

    open spec fn view(&self) -> AppView {
        AppView {
            file_manager_width: self.file_manager_width as nat,
            root: self.file_item@,
            exit: self.exit,
            tree_selection: match self.tree_selection {
                Some(index) => Some(index as nat),
                None => None,
            },
            focus: self.app_focus,
            tabs: self.tab_container@,
        }
    }
}

impl AppView {
    /// The state right after start over the tree `root`.
    pub open spec fn initial(root: FileNode) -> AppView {
        AppView {
            file_manager_width: INITIAL_PANEL_WIDTH as nat,
            root,
            exit: false,
            tree_selection: None,
            focus: AppFocus::FileManager,
            tabs: TabsView { tabs: Seq::empty(), selected_index: 0 },
        }
    }

    /// The tree is well formed, the selection names a visible row, the panel
    /// width is a percentage within its limits, and the tabs are consistent.
    pub open spec fn wf(self) -> bool {
        &&& self.root.wf()
        &&& MIN_PANEL_WIDTH <= self.file_manager_width <= MAX_PANEL_WIDTH
        &&& self.tabs.wf()
        &&& match self.tree_selection {
            Some(index) => index < self.root.visible().len(),
            None => true,
        }
    }

    /// The entry under the selection, if the selection names a visible row.
    pub open spec fn selected_node(self) -> Option<FileNode> {
        match self.tree_selection {
            Some(index) => if index < self.root.visible().len() {
                Some(self.root.visible()[index as int].node)
            } else {
                None
            },
            None => None,
        }
    }

    pub open spec fn with_selection(self, tree_selection: Option<nat>) -> AppView {
        AppView { tree_selection, ..self }
    }

    /// The last visible row, or nothing where no row is visible.
    pub open spec fn last_row(self) -> Option<nat> {
        if self.root.visible().len() == 0 {
            None
        } else {
            Some((self.root.visible().len() - 1) as nat)
        }
    }

    /// One row down, stopping at the last; from no selection to the first
    /// row.
    pub open spec fn select_next(self) -> AppView {
        let rows = self.root.visible().len();
        self.with_selection(
            if rows == 0 {
                None
            } else {
                match self.tree_selection {
                    None => Some(0),
                    Some(index) => if index + 1 < rows {
                        Some((index + 1) as nat)
                    } else {
                        self.last_row()
                    },
                }
            },
        )
    }

    /// One row up, stopping at the first; from no selection to the last row.
    pub open spec fn select_previous(self) -> AppView {
        let rows = self.root.visible().len();
        self.with_selection(
            if rows == 0 {
                None
            } else {
                match self.tree_selection {
                    None => self.last_row(),
                    Some(index) => if index == 0 {
                        Some(0)
                    } else if index - 1 < rows {
                        Some((index - 1) as nat)
                    } else {
                        self.last_row()
                    },
                }
            },
        )
    }

    pub open spec fn select_first(self) -> AppView {
        self.with_selection(
            if self.root.visible().len() == 0 {
                None
            } else {
                Some(0)
            },
        )
    }

    pub open spec fn select_last(self) -> AppView {
        self.with_selection(self.last_row())
    }

    pub open spec fn select_none(self) -> AppView {
        self.with_selection(None)
    }

    /// The tree panel one step wider, at most the largest width.
    pub open spec fn change_large(self) -> AppView {
        AppView {
            file_manager_width: if self.file_manager_width + PANEL_WIDTH_STEP <= MAX_PANEL_WIDTH {
                (self.file_manager_width + PANEL_WIDTH_STEP) as nat
            } else {
                MAX_PANEL_WIDTH as nat
            },
            ..self
        }
    }

    /// The tree panel one step narrower, at least the smallest width and
    /// never wider than the largest.
    pub open spec fn change_small(self) -> AppView {
        AppView {
            file_manager_width: if self.file_manager_width > MAX_PANEL_WIDTH {
                MAX_PANEL_WIDTH as nat
            } else if self.file_manager_width >= MIN_PANEL_WIDTH + PANEL_WIDTH_STEP {
                (self.file_manager_width - PANEL_WIDTH_STEP) as nat
            } else {
                MIN_PANEL_WIDTH as nat
            },
            ..self
        }
    }

    /// With a directory under the selection: that directory toggled, and the
    /// selection dropped should it no longer name a visible row. Otherwise
    /// unchanged.
    pub open spec fn toggle_selected_directory(self) -> AppView {
        match self.selected_node() {
            Some(node) => if node.is_dir() {
                let root = self.root.toggled_at(node.path);
                AppView {
                    root,
                    tree_selection: if self.tree_selection.unwrap() < root.visible().len() {
                        self.tree_selection
                    } else {
                        None
                    },
                    ..self
                }
            } else {
                self
            },
            None => self,
        }
    }

    pub open spec fn focus_change_toggle(self) -> AppView {
        AppView {
            focus: match self.focus {
                AppFocus::FileManager => AppFocus::Editor,
                AppFocus::Editor => AppFocus::FileManager,
            },
            ..self
        }
    }

    /// What the bindings of the focused panel make of a key press.
    pub open spec fn focus_scoped(self, key_event: KeyEvent) -> AppView {
        let modifiers = key_event.modifiers;
        match self.focus {
            AppFocus::FileManager => {
                if modifiers.is_none() {
                    match key_event.code {
                        KeyCode::Down => self.select_next(),
                        KeyCode::Up => self.select_previous(),
                        KeyCode::Esc => self.select_none(),
                        KeyCode::Enter => self.toggle_selected_directory(),
                        _ => self,
                    }
                } else if modifiers.is_control() {
                    match key_event.code {
                        KeyCode::Up => self.select_first(),
                        KeyCode::Down => self.select_last(),
                        _ => self,
                    }
                } else if modifiers.is_shift() {
                    match key_event.code {
                        KeyCode::Right => self.change_large(),
                        KeyCode::Left => self.change_small(),
                        _ => self,
                    }
                } else {
                    self
                }
            },
            AppFocus::Editor => {
                if modifiers.is_alt() && key_event.code == KeyCode::Char('c') {
                    AppView { tabs: self.tabs.with_selected_mode_flipped(), ..self }
                } else {
                    self
                }
            },
        }
    }

    /// What the bindings that hold in every panel make of a key press.
    pub open spec fn global(self, key_event: KeyEvent) -> AppView {
        if key_event.modifiers.is_control() && key_event.code == KeyCode::Char('q') {
            AppView { exit: true, ..self }
        } else if key_event.modifiers.is_alt() && key_event.code == KeyCode::Char('e') {
            self.focus_change_toggle()
        } else {
            self
        }
    }

    /// The state after one key press: the focused panel's bindings first,
    /// then the global ones.
    pub open spec fn after_key(self, key_event: KeyEvent) -> AppView {
        self.focus_scoped(key_event).global(key_event)
    }

    /// The file that a key press asks to open: the one under the selection,
    /// on a plain Enter in the tree panel.
    pub open spec fn request(self, key_event: KeyEvent) -> Option<FileRequestView> {
        if self.focus == AppFocus::FileManager && key_event.modifiers.is_none() && key_event.code
            == KeyCode::Enter {
            match self.selected_node() {
                Some(node) => if node.is_dir() {
                    None
                } else {
                    Some(FileRequestView { title: node.name, path: node.path })
                },
                None => None,
            }
        } else {
            None
        }
    }

    /// The state after a requested file was read: a new tab over its text at
    /// the end, selected, and the focus on the editor.
    pub open spec fn with_opened(self, request: FileRequestView, content: Seq<char>) -> AppView {
        let tabs = self.tabs.tabs.push(
            TabView { title: request.title, editor: Editor::new_view(request.path, content) },
        );
        AppView {
            tabs: TabsView { tabs, selected_index: (tabs.len() - 1) as nat },
            focus: AppFocus::Editor,
            ..self
        }
    }
}

impl CuiEditor {
    /// The application state at start, over an already built tree.
    pub fn new(root: FileItem) -> (app: Self)
        ensures
            app@ == AppView::initial(root@),
            root@.wf() ==> app@.wf(),
    {
        CuiEditor {
            file_manager_width: INITIAL_PANEL_WIDTH,
            file_item: root,
            exit: false,
            tree_selection: None,
            app_focus: AppFocus::FileManager,
            tab_container: TabContainer::new(),
        }
    }

    /// Applies one key press. Where the press asks to open a file, the file
    /// is handed back for the caller to read and to pass on to
    /// [`CuiEditor::selected_file_display_tab`].
    pub fn handle_key_event(&mut self, key_event: KeyEvent) -> (request: Option<FileRequest>)
        ensures
            final(self)@ == old(self)@.after_key(key_event),
            match request {
                Some(file) => old(self)@.request(key_event) == Some(file@),
                None => old(self)@.request(key_event).is_none(),
            },
            old(self)@.wf() ==> final(self)@.wf(),
    {
        proof {
            if self@.wf() {
                lemma_key_keeps_wf(self@, key_event);
            }
        }
        let modifiers = key_event.modifiers;
        let plain = !modifiers.shift && !modifiers.control && !modifiers.alt && !modifiers.other;
        let shift = modifiers.shift && !modifiers.control && !modifiers.alt && !modifiers.other;
        let control = !modifiers.shift && modifiers.control && !modifiers.alt && !modifiers.other;
        let alt = !modifiers.shift && !modifiers.control && modifiers.alt && !modifiers.other;
        let mut request: Option<FileRequest> = None;
        match self.app_focus {
            AppFocus::FileManager => {
                if plain {
                    match key_event.code {
                        KeyCode::Down => self.select_next(),
                        KeyCode::Up => self.select_previous(),
                        KeyCode::Esc => self.select_none(),
                        KeyCode::Enter => {
                            request = self.selected_file_request();
                            self.toggle_selected_directory();
                        },
                        _ => {},
                    }
                } else if control {
                    match key_event.code {
                        KeyCode::Up => self.select_first(),
                        KeyCode::Down => self.select_last(),
                        _ => {},
                    }
                } else if shift {
                    match key_event.code {
                        KeyCode::Right => self.change_large(),
                        KeyCode::Left => self.change_small(),
                        _ => {},
                    }
                }
            },
            AppFocus::Editor => {
                if alt && key_event.code == KeyCode::Char('c') {
                    self.tab_container.toggle_selected_mode();
                }
            },
        }
        if control && key_event.code == KeyCode::Char('q') {
            self.exit();
        } else if alt && key_event.code == KeyCode::Char('e') {
            self.focus_change_toggle();
        }
        request
    }

    /// Completes a request to open a file. With the file's text, a tab over
    /// it is appended and selected and the focus moves to the editor; without
    /// it, because the file could not be read, nothing changes.
    pub fn selected_file_display_tab(&mut self, request: FileRequest, content: Option<String>)
        ensures
            final(self)@ == match content {
                Some(text) => old(self)@.with_opened(request@, text@),
                None => old(self)@,
            },
            old(self)@.wf() ==> final(self)@.wf(),
    {
        if let Some(text) = content {
            let new_tab = Tab::new(request.title.as_str(), request.path.as_str(), text);
            self.tab_container.push_tab(new_tab);
            let count = self.tab_container.get_tabs().len();
            let _ = self.tab_container.set_selected_index(count - 1);
            self.app_focus = AppFocus::Editor;
        }
    }

    /// The widths of the tree panel and of the editor panel, in percent of
    /// the screen: the tree panel's width, at most the whole, and what is
    /// left of the whole.
    pub fn panel_split(&self) -> (split: (u16, u16))
        ensures
            split.0 == if self@.file_manager_width <= MAX_PANEL_WIDTH {
                self@.file_manager_width
            } else {
                MAX_PANEL_WIDTH as nat
            },
            split.0 + split.1 == MAX_PANEL_WIDTH,
    {
        let left = if self.file_manager_width <= MAX_PANEL_WIDTH {
            self.file_manager_width
        } else {
            MAX_PANEL_WIDTH
        };
        (left, MAX_PANEL_WIDTH - left)
    }

    /// How many rows the tree panel shows.
    fn visible_len(&self) -> (rows: usize)
        ensures
            rows == self@.root.visible().len(),
    {
        let flat_list = self.file_item.flatten_visible();
        assert(ref_rows(flat_list@).len() == flat_list@.len());
        flat_list.len()
    }

    fn select_none(&mut self)
        ensures
            final(self)@ == old(self)@.select_none(),
    {
        self.tree_selection = None;
    }

    fn select_next(&mut self)
        ensures
            final(self)@ == old(self)@.select_next(),
    {
        let rows = self.visible_len();
        self.tree_selection = if rows == 0 {
            None
        } else {
            match self.tree_selection {
                None => Some(0),
                Some(index) => if index < rows - 1 {
                    Some(index + 1)
                } else {
                    Some(rows - 1)
                },
            }
        };
    }

    fn select_previous(&mut self)
        ensures
            final(self)@ == old(self)@.select_previous(),
    {
        let rows = self.visible_len();
        self.tree_selection = if rows == 0 {
            None
        } else {
            match self.tree_selection {
                None => Some(rows - 1),
                Some(index) => if index == 0 {
                    Some(0)
                } else if index - 1 < rows {
                    Some(index - 1)
                } else {
                    Some(rows - 1)
                },
            }
        };
    }

    fn select_first(&mut self)
        ensures
            final(self)@ == old(self)@.select_first(),
    {
        let rows = self.visible_len();
        self.tree_selection = if rows == 0 {
            None
        } else {
            Some(0)
        };
    }

    fn select_last(&mut self)
        ensures
            final(self)@ == old(self)@.select_last(),
    {
        let rows = self.visible_len();
        self.tree_selection = if rows == 0 {
            None
        } else {
            Some(rows - 1)
        };
    }

    fn change_large(&mut self)
        ensures
            final(self)@ == old(self)@.change_large(),
    {
        self.file_manager_width = if self.file_manager_width <= MAX_PANEL_WIDTH
            - PANEL_WIDTH_STEP {
            self.file_manager_width + PANEL_WIDTH_STEP
        } else {
            MAX_PANEL_WIDTH
        };
    }

    fn change_small(&mut self)
        ensures
            final(self)@ == old(self)@.change_small(),
    {
        self.file_manager_width = if self.file_manager_width > MAX_PANEL_WIDTH {
            MAX_PANEL_WIDTH
        } else if self.file_manager_width >= MIN_PANEL_WIDTH + PANEL_WIDTH_STEP {
            self.file_manager_width - PANEL_WIDTH_STEP
        } else {
            MIN_PANEL_WIDTH
        };
    }

    /// The entry under the selection, if the selection names a visible row.
    fn get_selected_item(&self) -> (selected: Option<&FileItem>)
        ensures
            match selected {
                Some(item) => self@.selected_node() == Some(item@),
                None => self@.selected_node().is_none(),
            },
    {
        match self.tree_selection {
            Some(index) => self.file_item.get_item_from_flat_index(index),
            None => None,
        }
    }

    /// The request to open the file under the selection, if a file is there.
    fn selected_file_request(&self) -> (request: Option<FileRequest>)
        ensures
            match request {
                Some(file) => {
                    &&& self@.selected_node().is_some()
                    &&& !self@.selected_node().unwrap().is_dir()
                    &&& file@ == (FileRequestView {
                        title: self@.selected_node().unwrap().name,
                        path: self@.selected_node().unwrap().path,
                    })
                },
                None => self@.selected_node().is_none() || self@.selected_node().unwrap().is_dir(),
            },
    {
        match self.get_selected_item() {
            Some(item) => {
                if item.get_items().is_none() {
                    Some(
                        FileRequest {
                            title: item.get_name().to_owned(),
                            path: item.get_path().to_owned(),
                        },
                    )
                } else {
                    None
                }
            },
            None => None,
        }
    }

    fn toggle_selected_directory(&mut self)
        ensures
            final(self)@ == old(self)@.toggle_selected_directory(),
    {
        let selected_path: Option<String> = match self.get_selected_item() {
            Some(item) => if item.get_items().is_some() {
                Some(item.get_path().to_owned())
            } else {
                None
            },
            None => None,
        };
        if let Some(path) = selected_path {
            if let Some(item_to_toggle) = self.file_item.find_item_by_path_mut(path.as_str()) {
                item_to_toggle.toggle_open();
            }
            let rows = self.visible_len();
            if let Some(index) = self.tree_selection {
                if index >= rows {
                    self.tree_selection = None;
                }
            }
        }
    }

    fn exit(&mut self)
        ensures
            final(self)@ == (AppView { exit: true, ..old(self)@ }),
    {
        self.exit = true;
    }

    fn focus_change_toggle(&mut self)
        ensures
            final(self)@ == old(self)@.focus_change_toggle(),
    {
        if self.app_focus == AppFocus::FileManager {
            self.app_focus = AppFocus::Editor;
        } else {
            self.app_focus = AppFocus::FileManager;
        }
    }
}

} // verus!
