use vstd::prelude::*;
use crate::deflate::FileEntry;

verus! {

/// Which screen the client shows.
#[derive(Debug, Clone, Copy, PartialEq, Eq, Structural)]
pub enum AppState {
    Home,
    Browser,
    Loading,
}

impl Default for AppState {
    /// The client starts on the home screen.
    fn default() -> (r: Self)
        ensures
            r == AppState::Home,
    {
        AppState::Home
    }
}

/// Progress of the creation of a vault: how many files are done of how many,
/// and what is happening.
#[derive(Debug)]
pub enum ProgressMessage {
    Progress { current: usize, total: usize, message: String },
}

/// What the file dialogs picked.
#[derive(Debug)]
pub enum DialogMessage {
    FolderPicked(String),
    SaveLocationPicked(String),
    OpenLocationPicked(String),
}

/// What the vault browser asks for.
#[derive(Debug)]
pub enum BrowserEvent {
    NavigateTo(String),
    SelectFile(FileEntry),
    OpenFile(FileEntry),
    DeleteFile(FileEntry),
    ContextMenu(FileEntry),
    RenameCancel,
    RenameSubmit { old_path: String, new_path: String },
    CloseVault,
}

/// What the home screen asks for.
#[derive(Debug, Clone, Copy, PartialEq, Eq, Structural)]
pub enum HomeEvent {
    EncryptFolder,
    OpenVault,
}

/// What the password prompt gives.
#[derive(Debug)]
pub enum PasswordEvent {
    Submitted(String),
    Cancelled,
}

/// Any event of the client's screens.
#[derive(Debug)]
pub enum AppEvent {
    Browser(BrowserEvent),
    Home(HomeEvent),
    Password(PasswordEvent),
}

} // verus!
