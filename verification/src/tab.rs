use vstd::prelude::*;
use crate::editor::{Editor, EditorView, flipped_mode};

verus! {

/// An open file: the title shown in the tab bar and the editor over its text.
#[derive(Clone, Debug)]
pub struct Tab {
    pub title: String,
    pub editor: Editor,
}

/// The mathematical value of a [`Tab`].
pub struct TabView {
    pub title: Seq<char>,
    pub editor: EditorView,
}

impl View for Tab {
    type V = TabView;

    open spec fn view(&self) -> TabView {
        TabView { title: self.title@, editor: self.editor@ }
    }
}

impl TabView {
    /// This tab with its editor in the other mode.
    pub open spec fn with_mode_flipped(self) -> TabView {
        TabView {
            editor: EditorView { edit_mode: flipped_mode(self.editor.edit_mode), ..self.editor },
            ..self
        }
    }
}

impl Tab {
    /// A tab titled `title` over `content`, the text of the file at
    /// `file_path`, with a fresh editor.
    pub fn new(title: &str, file_path: &str, content: String) -> (tab: Self)
        ensures
            tab@ == (TabView { title: title@, editor: Editor::new_view(file_path@, content@) }),
    {
        Tab { title: title.to_owned(), editor: Editor::new(file_path, content) }
    }
}

/// Why a tab operation was refused.
#[derive(Clone, Copy, PartialEq, Eq, Structural, Debug)]
pub enum TabError {
    /// The index names no tab.
    OutOfRange,
}

/// The open tabs in order, and which of them is active.
#[derive(Debug)]
pub struct TabContainer {
    tabs: Vec<Tab>,
    selected_index: usize,
}

/// The mathematical value of a [`TabContainer`].
pub struct TabsView {
    pub tabs: Seq<TabView>,
    pub selected_index: nat,
}

/// The values of a sequence of tabs.
pub open spec fn tab_views(tabs: Seq<Tab>) -> Seq<TabView> {
    tabs.map_values(|tab: Tab| tab@)
}

impl TabsView {
    /// The selection names one of the tabs, or rests at zero while there is
    /// none.
    pub open spec fn wf(self) -> bool {
        self.selected_index < self.tabs.len() || (self.tabs.len() == 0 && self.selected_index == 0)
    }

    /// These tabs with `tab` appended; the selection stays.
    pub open spec fn pushed(self, tab: TabView) -> TabsView {
        TabsView { tabs: self.tabs.push(tab), ..self }
    }

    /// These tabs with `index` selected, where it names a tab.
    pub open spec fn with_selected(self, index: nat) -> TabsView {
        if index < self.tabs.len() {
            TabsView { selected_index: index, ..self }
        } else {
            self
        }
    }

    /// These tabs without the one at `index`, the selection moved back into
    /// range where it fell off the end.
    pub open spec fn removed(self, index: nat) -> TabsView {
        if index < self.tabs.len() {
            let rest = self.tabs.remove(index as int);
            TabsView {
                tabs: rest,
                selected_index: if rest.len() == 0 {
                    0
                } else if self.selected_index < rest.len() {
                    self.selected_index
                } else {
                    (rest.len() - 1) as nat
                },
            }
        } else {
            self
        }
    }

    /// These tabs with the selected tab's editor in the other mode.
    pub open spec fn with_selected_mode_flipped(self) -> TabsView {
        if self.selected_index < self.tabs.len() {
            TabsView {
                tabs: self.tabs.update(
                    self.selected_index as int,
                    self.tabs[self.selected_index as int].with_mode_flipped(),
                ),
                ..self
            }
        } else {
            self
        }
    }
}

impl View for TabContainer {
    type V = TabsView;

    closed spec fn view(&self) -> TabsView {
        TabsView { tabs: tab_views(self.tabs@), selected_index: self.selected_index as nat }
    }
}

impl TabContainer {
    pub fn new() -> (container: Self)
        ensures
            container@ == (TabsView { tabs: Seq::empty(), selected_index: 0 }),
            container@.wf(),
    {
        let container = TabContainer { tabs: Vec::new(), selected_index: 0 };
        assert(container@.tabs =~= Seq::empty());
        container
    }

    pub fn get_selected_index(&self) -> (index: usize)
        ensures
            index == self@.selected_index,
    {
        self.selected_index
    }

    /// Selects the tab at `index`; refuses, changing nothing, where `index`
    /// names no tab.
    pub fn set_selected_index(&mut self, index: usize) -> (outcome: Result<(), TabError>)
        ensures
            final(self)@ == old(self)@.with_selected(index as nat),
            outcome.is_ok() == (index < old(self)@.tabs.len()),
            old(self)@.tabs.len() == 0 ==> final(self)@ == old(self)@,
            outcome.is_err() ==> outcome == Err::<(), TabError>(TabError::OutOfRange),
            old(self)@.wf() ==> final(self)@.wf(),
    {
        if index < self.tabs.len() {
            self.selected_index = index;
            Ok(())
        } else {
            Err(TabError::OutOfRange)
        }
    }

    pub fn get_tabs(&self) -> (tabs: &Vec<Tab>)
        ensures
            tab_views(tabs@) == self@.tabs,
    {
        &self.tabs
    }

    /// Appends `tab`; the selection stays where it was.
    pub fn push_tab(&mut self, tab: Tab)
        ensures
            final(self)@ == old(self)@.pushed(tab@),
            old(self)@.wf() ==> final(self)@.wf(),
    {
        self.tabs.push(tab);
        assert(tab_views(self.tabs@) =~= tab_views(old(self).tabs@).push(tab@));
    }

    /// The active tab, if the selection names one.
    pub fn selected(&self) -> (tab: Option<&Tab>)
        ensures
            match tab {
                Some(active) => self@.selected_index < self@.tabs.len() && active@
                    == self@.tabs[self@.selected_index as int],
                None => self@.selected_index >= self@.tabs.len(),
            },
    {
        if self.selected_index < self.tabs.len() {
            Some(&self.tabs[self.selected_index])
        } else {
            None
        }
    }

    /// Closes the tab at `index` and hands it out; where `index` names no
    /// tab, changes nothing.
    pub fn remove(&mut self, index: usize) -> (closed: Option<Tab>)
        ensures
            final(self)@ == old(self)@.removed(index as nat),
            match closed {
                Some(tab) => index < old(self)@.tabs.len() && tab@ == old(self)@.tabs[index as int],
                None => index >= old(self)@.tabs.len(),
            },
            old(self)@.wf() ==> final(self)@.wf(),
    {
        if index < self.tabs.len() {
            let tab = self.tabs.remove(index);
            if self.tabs.len() == 0 {
                self.selected_index = 0;
            } else if self.selected_index >= self.tabs.len() {
                self.selected_index = self.tabs.len() - 1;
            }
            assert(tab_views(self.tabs@) =~= tab_views(old(self).tabs@).remove(index as int));
            Some(tab)
        } else {
            None
        }
    }

    /// Switches the active tab's editor between view and write mode; without
    /// an active tab, changes nothing.
    pub fn toggle_selected_mode(&mut self)
        ensures
            final(self)@ == old(self)@.with_selected_mode_flipped(),
            old(self)@.wf() ==> final(self)@.wf(),
    {
        if self.selected_index < self.tabs.len() {
            let index = self.selected_index;
            self.tabs[index].editor.toggle_mode();
            assert(tab_views(self.tabs@) =~= tab_views(old(self).tabs@).update(
                index as int,
                old(self).tabs@[index as int]@.with_mode_flipped(),
            ));
        }
    }
}

} // verus!
