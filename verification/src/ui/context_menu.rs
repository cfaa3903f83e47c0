use vstd::prelude::*;
use crate::deflate::FileEntry;

verus! {

/// What the context menu of a file asks for.
#[derive(Debug)]
pub enum ContextMenuAction {
    NoAction,
    Open(FileEntry),
    Properties(FileEntry),
    Rename(FileEntry),
    Delete(FileEntry),
}

impl Default for ContextMenuAction {
    /// No item was chosen.
    fn default() -> (r: Self)
        ensures
            r is NoAction,
    {
        ContextMenuAction::NoAction
    }
}

/// The context menu of a file, with its items `Open`, `Properties`, `Rename`
/// and `Delete`.
#[derive(Debug)]
pub struct ContextMenu {
    file: FileEntry,
}

impl ContextMenu {
    /// The menu of `file`.
    pub fn new(file: FileEntry) -> (r: Self)
        ensures
            r.spec_file() == file,
    {
        ContextMenu { file }
    }

    /// The file the menu is for.
    pub closed spec fn spec_file(&self) -> FileEntry {
        self.file
    }

    /// The file the menu is for.
    pub fn file(&self) -> (r: &FileEntry)
        ensures
            *r == self.spec_file(),
    {
        &self.file
    }

    /// What a frame of the menu asks for, given which items were clicked: a
    /// later item wins over an earlier one, and a click elsewhere chooses
    /// nothing.
    pub fn action(&self, open: bool, properties: bool, rename: bool, delete: bool, clicked_elsewhere: bool) -> (r: ContextMenuAction)
        ensures
            clicked_elsewhere ==> r is NoAction,
            !clicked_elsewhere && delete ==> r == ContextMenuAction::Delete(self.spec_file()),
            !clicked_elsewhere && !delete && rename ==> r == ContextMenuAction::Rename(self.spec_file()),
            !clicked_elsewhere && !delete && !rename && properties ==> r == ContextMenuAction::Properties(self.spec_file()),
            !clicked_elsewhere && !delete && !rename && !properties && open ==> r == ContextMenuAction::Open(self.spec_file()),
            !clicked_elsewhere && !delete && !rename && !properties && !open ==> r is NoAction,
    {
        if clicked_elsewhere {
            ContextMenuAction::NoAction
        } else if delete {
            ContextMenuAction::Delete(self.file.clone())
        } else if rename {
            ContextMenuAction::Rename(self.file.clone())
        } else if properties {
            ContextMenuAction::Properties(self.file.clone())
        } else if open {
            ContextMenuAction::Open(self.file.clone())
        } else {
            ContextMenuAction::NoAction
        }
    }
}

} // verus!
