use vstd::prelude::*;
use crate::deflate::FileEntry;
use crate::ui::browser::breadcrumbs::BreadcrumbAction;
use crate::ui::browser::file_details::FileDetailsAction;
use crate::ui::browser::file_tree::DirectoryTreeAction;
use crate::ui::types::BrowserEvent;

verus! {

/// The vault browser: the breadcrumb bar, the directory tree and the details
/// of the selected file.
pub struct BrowserScreen<'a> {
    pub current_vfs_dir: &'a str,
    pub selected_file: Option<&'a FileEntry>,
    pub entries: &'a [FileEntry],
    pub directories: &'a [String],
    pub rename_path: Option<&'a str>,
    pub rename_buffer: &'a mut String,
}

/// Whether the breadcrumb bar's request ends the frame, before the tree is
/// drawn.
pub fn breadcrumb_ends_frame(action: &BreadcrumbAction) -> (r: bool)
    ensures
        r == !(action is NoAction),
{
    match action {
        BreadcrumbAction::NoAction => false,
        _ => true,
    }
}

/// Whether the tree's request ends the frame, before the details are drawn:
/// opening a folder, selecting a file or opening one does.
pub fn tree_ends_frame(action: &DirectoryTreeAction) -> (r: bool)
    ensures
        r == (action is SelectFolder || action is SelectFile || action is ExecuteFile),
{
    match action {
        DirectoryTreeAction::SelectFolder(_) => true,
        DirectoryTreeAction::SelectFile(_) => true,
        DirectoryTreeAction::ExecuteFile(_) => true,
        _ => false,
    }
}

/// The event of a frame of the browser, from what its parts asked for: the
/// breadcrumb bar first, then the tree, then the details panel, whose request
/// wins over those of the tree that do not end the frame.
pub fn screen_event(breadcrumb: BreadcrumbAction, tree: DirectoryTreeAction, details: FileDetailsAction) -> (r: Option<BrowserEvent>)
    ensures
        match breadcrumb {
            BreadcrumbAction::Exit => r == Some(BrowserEvent::CloseVault),
            BreadcrumbAction::NavigateTo(p) => r == Some(BrowserEvent::NavigateTo(p)),
            BreadcrumbAction::NoAction => match tree {
                DirectoryTreeAction::SelectFolder(d) => r == Some(BrowserEvent::NavigateTo(d)),
                DirectoryTreeAction::SelectFile(f) => r == Some(BrowserEvent::SelectFile(f)),
                DirectoryTreeAction::ExecuteFile(f) => r == Some(BrowserEvent::OpenFile(f)),
                _ => match details {
                    FileDetailsAction::Open(e) => r == Some(BrowserEvent::OpenFile(e)),
                    FileDetailsAction::NoAction => match tree {
                        DirectoryTreeAction::ContextMenu(f) => r == Some(BrowserEvent::ContextMenu(f)),
                        DirectoryTreeAction::RenameCancel => r == Some(BrowserEvent::RenameCancel),
                        DirectoryTreeAction::RenameSubmit { old_path, new_path } => r == Some(BrowserEvent::RenameSubmit { old_path, new_path }),
                        _ => r is None,
                    },
                },
            },
        },
{
    match breadcrumb {
        BreadcrumbAction::NoAction => {},
        BreadcrumbAction::Exit => return Some(BrowserEvent::CloseVault),
        BreadcrumbAction::NavigateTo(path) => return Some(BrowserEvent::NavigateTo(path)),
    }
    let mut result = None;
    match tree {
        DirectoryTreeAction::NoAction => {},
        DirectoryTreeAction::SelectFolder(dir) => return Some(BrowserEvent::NavigateTo(dir)),
        DirectoryTreeAction::SelectFile(file) => return Some(BrowserEvent::SelectFile(file)),
        DirectoryTreeAction::ExecuteFile(file) => return Some(BrowserEvent::OpenFile(file)),
        DirectoryTreeAction::ContextMenu(file) => {
            result = Some(BrowserEvent::ContextMenu(file));
        },
        DirectoryTreeAction::RenameCancel => {
            result = Some(BrowserEvent::RenameCancel);
        },
        DirectoryTreeAction::RenameSubmit { old_path, new_path } => {
            result = Some(BrowserEvent::RenameSubmit { old_path, new_path });
        },
    }
    match details {
        FileDetailsAction::NoAction => {},
        FileDetailsAction::Open(entry) => {
            result = Some(BrowserEvent::OpenFile(entry));
        },
    }
    result
}

} // verus!
