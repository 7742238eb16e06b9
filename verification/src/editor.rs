use vstd::prelude::*;

verus! {

/// How the active buffer treats input: read-only viewing or in-memory editing.
#[derive(Clone, Copy, PartialEq, Eq, Structural, Debug)]
pub enum EditMode {
    Write,
    View,
}

/// An in-memory text buffer bound to one file path, with its scroll offsets.
#[derive(Clone, Debug)]
pub struct Editor {
    pub content: String,
    pub file_path: String,
    pub vertical_scroll: usize,
    pub horizontal_scroll: usize,
    pub edit_mode: EditMode,
}

/// The mathematical value of an [`Editor`].
pub struct EditorView {
    pub content: Seq<char>,
    pub file_path: Seq<char>,
    pub vertical_scroll: nat,
    pub horizontal_scroll: nat,
    pub edit_mode: EditMode,
}

impl View for Editor {
    type V = EditorView;

    open spec fn view(&self) -> EditorView {
        EditorView {
            content: self.content@,
            file_path: self.file_path@,
            vertical_scroll: self.vertical_scroll as nat,
            horizontal_scroll: self.horizontal_scroll as nat,
            edit_mode: self.edit_mode,
        }
    }
}

/// The other mode.
pub open spec fn flipped_mode(mode: EditMode) -> EditMode {
    match mode {
        EditMode::Write => EditMode::View,
        EditMode::View => EditMode::Write,
    }
}

impl Editor {
    /// The value of a fresh editor: scrolled to the origin and in view mode.
    pub open spec fn new_view(file_path: Seq<char>, content: Seq<char>) -> EditorView {
        EditorView {
            content,
            file_path,
            vertical_scroll: 0,
            horizontal_scroll: 0,
            edit_mode: EditMode::View,
        }
    }

    /// A fresh editor over `content`, the text of the file at `file_path`.
    pub fn new(file_path: &str, content: String) -> (editor: Self)
        ensures
            editor@ == Self::new_view(file_path@, content@),
    {
        Editor {
            content,
            file_path: file_path.to_owned(),
            vertical_scroll: 0,
            horizontal_scroll: 0,
            edit_mode: EditMode::View,
        }
    }

    pub fn get_content(&self) -> (content: &str)
        ensures
            content@ == self@.content,
    {
        self.content.as_str()
    }

    pub fn set_content(&mut self, content: String)
        ensures
            final(self)@ == (EditorView { content: content@, ..old(self)@ }),
    {
        self.content = content;
    }

    /// Switches between view and write mode; nothing else changes.
    pub fn toggle_mode(&mut self)
        ensures
            final(self)@ == (EditorView { edit_mode: flipped_mode(old(self)@.edit_mode), ..old(self)@ }),
    {
        self.edit_mode = match self.edit_mode {
            EditMode::Write => EditMode::View,
            EditMode::View => EditMode::Write,
        };
    }

    /// One line further down, stopping at the largest offset.
    pub fn scroll_down(&mut self)
        ensures
            final(self)@ == (EditorView {
                vertical_scroll: if old(self)@.vertical_scroll < usize::MAX {
                    old(self)@.vertical_scroll + 1
                } else {
                    old(self)@.vertical_scroll
                },
                ..old(self)@
            }),
    {
        self.vertical_scroll = self.vertical_scroll.saturating_add(1);
    }

    /// One line further up, stopping at the first line.
    pub fn scroll_up(&mut self)
        ensures
            final(self)@ == (EditorView {
                vertical_scroll: if old(self)@.vertical_scroll > 0 {
                    (old(self)@.vertical_scroll - 1) as nat
                } else {
                    0
                },
                ..old(self)@
            }),
    {
        self.vertical_scroll = self.vertical_scroll.saturating_sub(1);
    }

    /// One column to the left, stopping at the first column.
    pub fn scroll_left(&mut self)
        ensures
            final(self)@ == (EditorView {
                horizontal_scroll: if old(self)@.horizontal_scroll > 0 {
                    (old(self)@.horizontal_scroll - 1) as nat
                } else {
                    0
                },
                ..old(self)@
            }),
    {
        self.horizontal_scroll = self.horizontal_scroll.saturating_sub(1);
    }

    /// One column to the right, stopping at the largest offset.
    pub fn scroll_right(&mut self)
        ensures
            final(self)@ == (EditorView {
                horizontal_scroll: if old(self)@.horizontal_scroll < usize::MAX {
                    old(self)@.horizontal_scroll + 1
                } else {
                    old(self)@.horizontal_scroll
                },
                ..old(self)@
            }),
    {
        self.horizontal_scroll = self.horizontal_scroll.saturating_add(1);
    }
}

} // verus!
