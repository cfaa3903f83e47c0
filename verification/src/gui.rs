use vstd::prelude::*;
use crate::deflate::{ContainerIndex, FileEntry};
use crate::ui::properties::PropertiesDialog;
use crate::ui::toast::ToastManager;
use crate::ui::types::AppState;
use crate::worker::WorkerCommand;

verus! {

/// The state of the client: the screen, the open vault and what is selected
/// in it, what the dialogs picked, the password being typed, which channels
/// to the file dialogs and the progress reports are open, the progress shown,
/// the notifications, the context menu, a rename in progress, and the
/// properties dialog.
#[derive(Debug)]
pub struct FileBrowserApp {
    pub state: AppState,
    pub current_vfs_dir: String,
    pub selected_file: Option<FileEntry>,
    pub password_buffer: String,
    pub pending_directory: Option<String>,
    pub pending_save_path: Option<String>,
    pub pending_open_path: Option<String>,
    pub has_dialog_tx: bool,
    pub has_dialog_rx: bool,
    pub has_progress_tx: bool,
    pub has_progress_rx: bool,
    pub container_index: Option<ContainerIndex>,
    pub progress: Option<(usize, usize)>,
    pub progress_message: String,
    pub toast_manager: ToastManager,
    pub context_menu: Option<FileEntry>,
    pub rename_path: Option<String>,
    pub rename_buffer: String,
    pub properties_dialog: PropertiesDialog,
}

/// What the client asks of the world outside its state after an event.
#[derive(Debug)]
pub enum AppEffect {
    /// Ask for a folder to encrypt and where to save its vault.
    PickFolderAndSaveLocation,
    /// Ask for a vault to open.
    PickVaultFile,
    /// Send a command to the vault worker.
    Send(WorkerCommand),
    /// Open a file with the system's default program.
    OpenInSystem(String),
}

/// The vault browser is only shown with an open vault.
pub open spec fn browsing_ok(app: &FileBrowserApp) -> bool {
    app.state == AppState::Browser ==> app.container_index is Some
}

impl FileBrowserApp {
    /// A client on the home screen with no vault open, about to ask for the
    /// password of `file_to_open` if one was given.
    pub fn new(file_to_open: Option<String>) -> (r: Self)
        ensures
            r.state == AppState::Home,
            r.current_vfs_dir@.len() == 0,
            r.selected_file is None,
            r.password_buffer@.len() == 0,
            r.pending_directory is None,
            r.pending_save_path is None,
            r.pending_open_path == file_to_open,
            !r.has_dialog_tx && !r.has_dialog_rx && !r.has_progress_tx && !r.has_progress_rx,
            r.container_index is None,
            r.progress is None,
            r.progress_message@.len() == 0,
            r.toast_manager.toasts@.len() == 0,
            r.context_menu is None,
            r.rename_path is None,
            r.rename_buffer@.len() == 0,
            r.properties_dialog.spec_file() is None,
            browsing_ok(&r),
    {
        FileBrowserApp {
            state: AppState::Home,
            current_vfs_dir: String::new(),
            selected_file: None,
            password_buffer: String::new(),
            pending_directory: None,
            pending_save_path: None,
            pending_open_path: file_to_open,
            has_dialog_tx: false,
            has_dialog_rx: false,
            has_progress_tx: false,
            has_progress_rx: false,
            container_index: None,
            progress: None,
            progress_message: String::new(),
            toast_manager: ToastManager::new(),
            context_menu: None,
            rename_path: None,
            rename_buffer: String::new(),
            properties_dialog: PropertiesDialog::new(),
        }
    }

    /// Before the browser is drawn: without an open vault the client goes
    /// back home.
    pub fn check_browser(&mut self)
        ensures
            *final(self) == (FileBrowserApp {
                state: if old(self).state == AppState::Browser && old(self).container_index is None {
                    AppState::Home
                } else {
                    old(self).state
                },
                ..*old(self)
            }),
            browsing_ok(final(self)),
    {
        if self.state == AppState::Browser && self.container_index.is_none() {
            self.state = AppState::Home;
        }
    }
}

} // verus!
