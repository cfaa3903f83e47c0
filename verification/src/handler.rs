use vstd::prelude::*;
use vstd::string::StringExecFns;
use zeroize::Zeroize;
use crate::deflate::{ContainerIndex, FileEntry};
use crate::gui::{browsing_ok, AppEffect, FileBrowserApp};
use crate::paths::{file_name_of, file_name_opt};
use crate::text::{progress_line, progress_text};
use crate::ui::context_menu::ContextMenuAction;
use crate::ui::toast::{notices, ToastType};
use crate::ui::types::{AppEvent, AppState, BrowserEvent, DialogMessage, HomeEvent, PasswordEvent, ProgressMessage};
use crate::worker::{WorkerCommand, WorkerResponse};

verus! {

/// Clears a string with zeroize's `Zeroize::zeroize`, whose source overwrites
/// the string's bytes with zeros and then empties it.
#[verifier::external_body]
pub(crate) fn zeroize_string(s: &mut String)
    ensures
        final(s)@.len() == 0,
{
    s.zeroize();
}

/// Whether `i` is the first position in `es` of an entry at `path`.
pub open spec fn is_first_path(es: Seq<FileEntry>, path: Seq<char>, i: int) -> bool {
    0 <= i < es.len() && es[i].path@ == path && forall|j: int| 0 <= j < i ==> es[j].path@ != path
}

/// Whether no entry of `es` is at `path`.
pub open spec fn no_path(es: Seq<FileEntry>, path: Seq<char>) -> bool {
    forall|j: int| 0 <= j < es.len() ==> es[j].path@ != path
}

/// The entries of `es` that are not at `path`, in order.
pub open spec fn without_path(es: Seq<FileEntry>, path: Seq<char>) -> Seq<FileEntry>
    decreases es.len(),
{
    if es.len() == 0 {
        Seq::empty()
    } else if es.last().path@ == path {
        without_path(es.drop_last(), path)
    } else {
        without_path(es.drop_last(), path).push(es.last())
    }
}

/// The first entry of `es` at `path`, if any.
pub open spec fn first_at(es: Seq<FileEntry>, path: Seq<char>) -> Option<FileEntry> {
    if no_path(es, path) {
        None
    } else {
        Some(es[choose|i: int| is_first_path(es, path, i)])
    }
}

/// `o` after switching to the loading screen with `message`.
pub open spec fn loading(o: FileBrowserApp, message: Seq<char>, n: FileBrowserApp) -> bool {
    &&& n == (FileBrowserApp { progress: None, progress_message: n.progress_message, state: AppState::Loading, ..o })
    &&& n.progress_message@ == message
}

/// `o` after a vault operation ended: home screen, dialog sender and progress
/// channel closed, progress cleared.
pub open spec fn reset_after_task(o: FileBrowserApp, n: FileBrowserApp) -> bool {
    &&& n == (FileBrowserApp {
        state: AppState::Home,
        has_dialog_tx: false,
        has_progress_tx: false,
        has_progress_rx: false,
        progress: None,
        progress_message: n.progress_message,
        toast_manager: n.toast_manager,
        ..o
    })
    &&& n.progress_message@.len() == 0
}

/// What a browser event does to `o`, giving `n` and the effect `r`.
pub open spec fn browser_event_done(o: FileBrowserApp, ev: BrowserEvent, pointer_available: bool, n: FileBrowserApp, r: Option<AppEffect>) -> bool {
    match ev {
        BrowserEvent::CloseVault => n == (FileBrowserApp { container_index: None, state: AppState::Home, ..o }) && r == Some(
            AppEffect::Send(WorkerCommand::CloseVault),
        ),
        BrowserEvent::NavigateTo(dir) => n == (FileBrowserApp { current_vfs_dir: dir, selected_file: None, ..o }) && r is None,
        BrowserEvent::SelectFile(file) => n == (FileBrowserApp { selected_file: Some(file), ..o }) && r is None,
        BrowserEvent::OpenFile(file) => n == o && r == Some(AppEffect::Send(WorkerCommand::ReadFile { entry: file })),
        BrowserEvent::ContextMenu(file) => n == (FileBrowserApp {
            context_menu: if pointer_available {
                Some(file)
            } else {
                None
            },
            ..o
        }) && r is None,
        BrowserEvent::RenameCancel => n == (FileBrowserApp { rename_path: None, ..o }) && r is None,
        BrowserEvent::RenameSubmit { old_path, new_path } => n == (FileBrowserApp { rename_path: None, ..o }) && r == Some(
            AppEffect::Send(WorkerCommand::RenameFile { old_path, new_path }),
        ),
        BrowserEvent::DeleteFile(file) => n == (FileBrowserApp { context_menu: None, ..o }) && r == Some(
            AppEffect::Send(WorkerCommand::DeleteFile { entry: file }),
        ),
    }
}

/// What a home screen event does to `o`: open the channel to the file
/// dialogs, and for encryption the progress channel, where they are not open,
/// and ask for the dialog.
pub open spec fn home_event_done(o: FileBrowserApp, ev: HomeEvent, n: FileBrowserApp, r: Option<AppEffect>) -> bool {
    match ev {
        HomeEvent::EncryptFolder => n == (FileBrowserApp {
            has_dialog_tx: true,
            has_dialog_rx: o.has_dialog_tx ==> o.has_dialog_rx,
            has_progress_tx: true,
            has_progress_rx: o.has_progress_tx ==> o.has_progress_rx,
            ..o
        }) && r == Some(AppEffect::PickFolderAndSaveLocation),
        HomeEvent::OpenVault => n == (FileBrowserApp { has_dialog_tx: true, has_dialog_rx: o.has_dialog_tx ==> o.has_dialog_rx, ..o })
            && r == Some(AppEffect::PickVaultFile),
    }
}

/// What submitting `password` to encrypt does to `o`: with a folder and a
/// save location picked, the client shows the loading screen and, where the
/// progress channel is open, sends the folder to the worker; both picks are
/// used up either way.
pub open spec fn encryption_submitted(o: FileBrowserApp, password: String, n: FileBrowserApp, r: Option<AppEffect>) -> bool {
    let o2 = FileBrowserApp { pending_directory: None, pending_save_path: None, ..o };
    match (o.pending_directory, o.pending_save_path) {
        (Some(dir), Some(save)) => loading(o2, "Creating container..."@, n) && r == (if o.has_progress_tx {
            Some(AppEffect::Send(WorkerCommand::EncryptFolder { source_dir: dir, output_path: save, password }))
        } else {
            None
        }),
        _ => n == o2 && r is None,
    }
}

/// What submitting `password` to open `file` does to `o`.
pub open spec fn decryption_submitted(o: FileBrowserApp, file: String, password: String, n: FileBrowserApp, r: Option<AppEffect>) -> bool {
    loading(o, "Opening vault..."@, n) && r == Some(AppEffect::Send(WorkerCommand::OpenVault { path: file, password }))
}

/// What a password event does to `o`: a submitted password opens the vault
/// picked to open, or else encrypts the folder picked; a cancel forgets the
/// picks and clears the typed password.
pub open spec fn password_event_done(o: FileBrowserApp, ev: PasswordEvent, n: FileBrowserApp, r: Option<AppEffect>) -> bool {
    match ev {
        PasswordEvent::Submitted(password) => match o.pending_open_path {
            Some(file) => decryption_submitted(FileBrowserApp { pending_open_path: None, ..o }, file, password, n, r),
            None => encryption_submitted(o, password, n, r),
        },
        PasswordEvent::Cancelled => {
            &&& n == (FileBrowserApp {
                pending_directory: None,
                pending_save_path: None,
                pending_open_path: None,
                password_buffer: n.password_buffer,
                ..o
            })
            &&& n.password_buffer@.len() == 0
            &&& r is None
        },
    }
}

/// The first position in `entries` of an entry at `path`.
pub(crate) fn find_path(entries: &Vec<FileEntry>, path: &String) -> (r: Option<usize>)
    ensures
        r matches Some(i) ==> is_first_path(entries@, path@, i as int),
        r is None ==> no_path(entries@, path@),
{
    let n = entries.len();
    for i in 0..n
        invariant
            n == entries@.len(),
            forall|j: int| 0 <= j < i ==> entries@[j].path@ != path@,
    {
        if entries[i].path == *path {
            return Some(i);
        }
    }
    None
}

proof fn lemma_first_at(es: Seq<FileEntry>, path: Seq<char>, i: int)
    requires
        is_first_path(es, path, i),
    ensures
        first_at(es, path) == Some(es[i]),
{
    assert(!no_path(es, path));
    let k = choose|k: int| is_first_path(es, path, k);
    if k < i {
        assert(es[k].path@ != path);
    } else if k > i {
        assert(es[i].path@ != path);
    }
}

/// Handles an event of the client's screens. Where the browser asks for the
/// context menu, `pointer_available` tells whether the pointer is known, for
/// the menu opens there.
pub fn handle_event(app: &mut FileBrowserApp, event: AppEvent, pointer_available: bool) -> (r: Option<AppEffect>)
    ensures
        match event {
            AppEvent::Browser(ev) => browser_event_done(*old(app), ev, pointer_available, *final(app), r),
            AppEvent::Home(ev) => home_event_done(*old(app), ev, *final(app), r),
            AppEvent::Password(ev) => password_event_done(*old(app), ev, *final(app), r),
        },
        browsing_ok(old(app)) ==> browsing_ok(final(app)),
{
    match event {
        AppEvent::Browser(ev) => handle_browser_event(app, ev, pointer_available),
        AppEvent::Home(ev) => handle_home_event(app, ev),
        AppEvent::Password(ev) => handle_password_event(app, ev),
    }
}

fn handle_browser_event(app: &mut FileBrowserApp, ev: BrowserEvent, pointer_available: bool) -> (r: Option<AppEffect>)
    ensures
        browser_event_done(*old(app), ev, pointer_available, *final(app), r),
        browsing_ok(old(app)) ==> browsing_ok(final(app)),
{
    match ev {
        BrowserEvent::CloseVault => {
            app.container_index = None;
            app.state = AppState::Home;
            Some(AppEffect::Send(WorkerCommand::CloseVault))
        },
        BrowserEvent::NavigateTo(dir) => {
            app.current_vfs_dir = dir;
            app.selected_file = None;
            None
        },
        BrowserEvent::SelectFile(file) => {
            app.selected_file = Some(file);
            None
        },
        BrowserEvent::OpenFile(file) => Some(AppEffect::Send(WorkerCommand::ReadFile { entry: file })),
        BrowserEvent::ContextMenu(file) => {
            app.context_menu = if pointer_available {
                Some(file)
            } else {
                None
            };
            None
        },
        BrowserEvent::RenameCancel => {
            app.rename_path = None;
            None
        },
        BrowserEvent::RenameSubmit { old_path, new_path } => {
            app.rename_path = None;
            Some(AppEffect::Send(WorkerCommand::RenameFile { old_path, new_path }))
        },
        BrowserEvent::DeleteFile(file) => {
            app.context_menu = None;
            Some(AppEffect::Send(WorkerCommand::DeleteFile { entry: file }))
        },
    }
}

fn handle_home_event(app: &mut FileBrowserApp, ev: HomeEvent) -> (r: Option<AppEffect>)
    ensures
        home_event_done(*old(app), ev, *final(app), r),
        browsing_ok(old(app)) ==> browsing_ok(final(app)),
{
    match ev {
        HomeEvent::EncryptFolder => {
            if !app.has_dialog_tx {
                app.has_dialog_tx = true;
                app.has_dialog_rx = true;
            }
            if !app.has_progress_tx {
                app.has_progress_tx = true;
                app.has_progress_rx = true;
            }
            Some(AppEffect::PickFolderAndSaveLocation)
        },
        HomeEvent::OpenVault => {
            if !app.has_dialog_tx {
                app.has_dialog_tx = true;
                app.has_dialog_rx = true;
            }
            Some(AppEffect::PickVaultFile)
        },
    }
}

/// Handles a password prompt's event: a submitted password opens the vault
/// picked to open, or else encrypts the folder picked; a cancel forgets the
/// picks and clears the typed password.
pub fn handle_password_event(app: &mut FileBrowserApp, ev: PasswordEvent) -> (r: Option<AppEffect>)
    ensures
        password_event_done(*old(app), ev, *final(app), r),
        browsing_ok(old(app)) ==> browsing_ok(final(app)),
{
    match ev {
        PasswordEvent::Submitted(password) => match app.pending_open_path.take() {
            Some(file) => submit_decryption_task(app, file, password),
            None => submit_encryption_task(app, password),
        },
        PasswordEvent::Cancelled => {
            app.pending_directory = None;
            app.pending_save_path = None;
            app.pending_open_path = None;
            zeroize_string(&mut app.password_buffer);
            None
        },
    }
}

/// Takes in what a file dialog picked.
pub fn apply_dialog_message(app: &mut FileBrowserApp, msg: DialogMessage)
    ensures
        *final(app) == dialog_applied(*old(app), msg),
        browsing_ok(old(app)) ==> browsing_ok(final(app)),
{
    match msg {
        DialogMessage::FolderPicked(dir) => {
            app.pending_directory = Some(dir);
        },
        DialogMessage::SaveLocationPicked(save_path) => {
            app.pending_save_path = Some(save_path);
        },
        DialogMessage::OpenLocationPicked(open_path) => {
            app.pending_open_path = Some(open_path);
        },
    }
}

/// Takes in a progress report: the fraction done, and a line with the
/// message and the counts.
pub fn apply_progress_message(app: &mut FileBrowserApp, msg: ProgressMessage)
    ensures
        progress_applied(*old(app), msg, *final(app)),
        browsing_ok(old(app)) ==> browsing_ok(final(app)),
{
    match msg {
        ProgressMessage::Progress { current, total, message } => {
            app.progress = Some((current, total));
            app.progress_message = progress_text(message.as_str(), current, total);
        },
    }
}

/// What a dialog's pick does to `o`: the picked folder, save location or
/// vault to open is kept.
pub open spec fn dialog_applied(o: FileBrowserApp, msg: DialogMessage) -> FileBrowserApp {
    match msg {
        DialogMessage::FolderPicked(dir) => FileBrowserApp { pending_directory: Some(dir), ..o },
        DialogMessage::SaveLocationPicked(save_path) => FileBrowserApp { pending_save_path: Some(save_path), ..o },
        DialogMessage::OpenLocationPicked(open_path) => FileBrowserApp { pending_open_path: Some(open_path), ..o },
    }
}

/// What the picks `msgs` do to `o`, one after the other.
pub open spec fn dialogs_applied(o: FileBrowserApp, msgs: Seq<DialogMessage>) -> FileBrowserApp
    decreases msgs.len(),
{
    if msgs.len() == 0 {
        o
    } else {
        dialog_applied(dialogs_applied(o, msgs.drop_last()), msgs.last())
    }
}

/// What a progress report does to `o`, giving `n`: the count done and the
/// total are kept, with the line that shows them.
pub open spec fn progress_applied(o: FileBrowserApp, msg: ProgressMessage, n: FileBrowserApp) -> bool {
    msg matches ProgressMessage::Progress { current, total, message } && n == (FileBrowserApp {
        progress: Some((current, total)),
        progress_message: n.progress_message,
        ..o
    }) && n.progress_message@ == progress_line(message@, current as nat, total as nat)
}

/// Whether `states` are the states the reports `msgs` lead through, one
/// after the other, from the first state to the last.
pub open spec fn progress_chain(msgs: Seq<ProgressMessage>, states: Seq<FileBrowserApp>) -> bool {
    &&& states.len() == msgs.len() + 1
    &&& forall|i: int| 0 <= i < msgs.len() ==> progress_applied(#[trigger] states[i], msgs[i], states[i + 1])
}

/// Whether `states` are the states the worker's answers `msgs` lead through,
/// one after the other, and `rs` the effect of each answer.
pub open spec fn response_chain(msgs: Seq<WorkerResponse>, states: Seq<FileBrowserApp>, rs: Seq<Option<AppEffect>>) -> bool {
    &&& states.len() == msgs.len() + 1
    &&& rs.len() == msgs.len()
    &&& forall|i: int| 0 <= i < msgs.len() ==> response_done(#[trigger] states[i], msgs[i], states[i + 1], rs[i])
}

/// What taking in the worker's answer `msg` does to `o`, giving `n` and the
/// effect `r`.
pub open spec fn response_done(o: FileBrowserApp, msg: WorkerResponse, n: FileBrowserApp, r: Option<AppEffect>) -> bool {
    match msg {
        WorkerResponse::VaultOpened { index } => {
            &&& n == (FileBrowserApp {
                container_index: Some(index),
                current_vfs_dir: n.current_vfs_dir,
                selected_file: None,
                state: AppState::Browser,
                has_dialog_tx: false,
                has_progress_tx: false,
                has_progress_rx: false,
                progress: None,
                progress_message: n.progress_message,
                toast_manager: n.toast_manager,
                ..o
            })
            &&& n.current_vfs_dir@.len() == 0
            &&& n.progress_message@.len() == 0
            &&& notices(n.toast_manager.toasts@) == notices(o.toast_manager.toasts@).push(
                (ToastType::Info, "Vault opened successfully"@),
            )
            &&& r is None
        },
        WorkerResponse::EncryptionDone => {
            &&& reset_after_task(o, n)
            &&& notices(n.toast_manager.toasts@) == notices(o.toast_manager.toasts@).push(
                (ToastType::Info, "Encryption completed successfully"@),
            )
            &&& r is None
        },
        WorkerResponse::Error { message } => {
            &&& reset_after_task(o, n)
            &&& notices(n.toast_manager.toasts@) == (if message@ != "Cancelled"@ {
                notices(o.toast_manager.toasts@).push((ToastType::Error, message@))
            } else {
                notices(o.toast_manager.toasts@)
            })
            &&& r is None
        },
        WorkerResponse::FileDecryptedToTemp { temp_path } => n == o && r == Some(AppEffect::OpenInSystem(temp_path)),
        WorkerResponse::GarbageCollected => {
            &&& n == (FileBrowserApp { toast_manager: n.toast_manager, ..o })
            &&& notices(n.toast_manager.toasts@) == notices(o.toast_manager.toasts@).push(
                (ToastType::Info, "Vault garbage collected successfully"@),
            )
            &&& r is None
        },
        WorkerResponse::FileUpdated { entry } => {
            &&& n == (FileBrowserApp { container_index: n.container_index, ..o })
            &&& match o.container_index {
                None => n.container_index is None,
                Some(idx) => n.container_index matches Some(nidx) && (if no_path(idx.entries@, entry.path@) {
                    nidx.entries@ == idx.entries@
                } else {
                    exists|i: int| is_first_path(idx.entries@, entry.path@, i) && nidx.entries@ == idx.entries@.update(i, entry)
                }),
            }
            &&& r is None
        },
        WorkerResponse::FileRenamed { old_path, new_path } => {
            &&& n == (FileBrowserApp {
                container_index: n.container_index,
                selected_file: n.selected_file,
                toast_manager: n.toast_manager,
                ..o
            })
            &&& match o.container_index {
                None => n.container_index is None && n.selected_file == o.selected_file,
                Some(idx) => n.container_index matches Some(nidx) && nidx.entries@.len() == idx.entries@.len() && (if no_path(
                    idx.entries@,
                    old_path@,
                ) {
                    nidx.entries@ == idx.entries@
                } else {
                    exists|i: int|
                        is_first_path(idx.entries@, old_path@, i) && (forall|j: int| 0 <= j < idx.entries@.len() && j != i ==> nidx.entries@[j] == idx.entries@[j])
                            && nidx.entries@[i]@ == (FileEntry { path: nidx.entries@[i].path, ..idx.entries@[i] })@ && nidx.entries@[i].path@ == new_path@
                }) && n.selected_file == (match o.selected_file {
                    Some(s) => if s.path@ == old_path@ {
                        first_at(nidx.entries@, new_path@)
                    } else {
                        Some(s)
                    },
                    None => None,
                }),
            }
            &&& notices(n.toast_manager.toasts@) == notices(o.toast_manager.toasts@).push((ToastType::Info, "File renamed"@))
            &&& r is None
        },
        WorkerResponse::FileDeleted { path } => {
            &&& n == (FileBrowserApp {
                container_index: n.container_index,
                selected_file: n.selected_file,
                toast_manager: n.toast_manager,
                ..o
            })
            &&& match o.container_index {
                None => n.container_index is None,
                Some(idx) => n.container_index matches Some(nidx) && nidx.entries@ == without_path(idx.entries@, path@),
            }
            &&& n.selected_file == (match o.selected_file {
                Some(s) => if s.path@ == path@ {
                    None
                } else {
                    Some(s)
                },
                None => None,
            })
            &&& notices(n.toast_manager.toasts@) == notices(o.toast_manager.toasts@).push(
                (ToastType::Info, "File deleted from vault"@),
            )
            &&& r is None
        },
    }
}

/// Takes in what the vault worker answered.
pub fn process_worker_response(app: &mut FileBrowserApp, msg: WorkerResponse) -> (r: Option<AppEffect>)
    ensures
        browsing_ok(old(app)) ==> browsing_ok(final(app)),
        response_done(*old(app), msg, *final(app), r),
{
    match msg {
        WorkerResponse::VaultOpened { index } => {
            app.container_index = Some(index);
            app.current_vfs_dir = String::new();
            app.selected_file = None;
            app.state = AppState::Browser;
            app.has_dialog_tx = false;
            app.has_progress_tx = false;
            app.has_progress_rx = false;
            app.progress = None;
            app.progress_message = String::new();
            app.toast_manager.info(String::from_str("Vault opened successfully"));
            None
        },
        WorkerResponse::EncryptionDone => {
            reset_after(app);
            app.toast_manager.info(String::from_str("Encryption completed successfully"));
            None
        },
        WorkerResponse::FileDecryptedToTemp { temp_path } => Some(AppEffect::OpenInSystem(temp_path)),
        WorkerResponse::FileUpdated { entry } => {
            match app.container_index.take() {
                Some(mut idx) => {
                    match find_path(&idx.entries, &entry.path) {
                        Some(i) => {
                            idx.entries.set(i, entry);
                        },
                        None => {},
                    }
                    app.container_index = Some(idx);
                },
                None => {},
            }
            None
        },
        WorkerResponse::GarbageCollected => {
            app.toast_manager.info(String::from_str("Vault garbage collected successfully"));
            None
        },
        WorkerResponse::FileRenamed { old_path, new_path } => {
            let ghost old_sel = app.selected_file;
            match app.container_index.take() {
                Some(mut idx) => {
                    let ghost before = idx.entries@;
                    match find_path(&idx.entries, &old_path) {
                        Some(i) => {
                            let mut e = idx.entries[i].clone();
                            e.path = new_path.clone();
                            idx.entries.set(i, e);
                        },
                        None => {},
                    }
                    let was_selected = match &app.selected_file {
                        Some(s) => s.path == old_path,
                        None => false,
                    };
                    if was_selected {
                        app.selected_file = match find_path(&idx.entries, &new_path) {
                            Some(k) => {
                                proof {
                                    lemma_first_at(idx.entries@, new_path@, k as int);
                                }
                                Some(idx.entries[k].clone())
                            },
                            None => None,
                        };
                    }
                    app.container_index = Some(idx);
                },
                None => {},
            }
            app.toast_manager.info(String::from_str("File renamed"));
            None
        },
        WorkerResponse::FileDeleted { path } => {
            match app.container_index.take() {
                Some(idx) => {
                    let kept = remove_path(&idx.entries, &path);
                    app.container_index = Some(ContainerIndex { entries: kept });
                },
                None => {},
            }
            let was_selected = match &app.selected_file {
                Some(s) => s.path == path,
                None => false,
            };
            if was_selected {
                app.selected_file = None;
            }
            app.toast_manager.info(String::from_str("File deleted from vault"));
            None
        },
        WorkerResponse::Error { message } => {
            let cancelled = String::from_str("Cancelled");
            if message != cancelled {
                app.toast_manager.error(message);
            }
            reset_after(app);
            None
        },
    }
}

/// The entries of `entries` not at `path`, in order.
pub(crate) fn remove_path(entries: &Vec<FileEntry>, path: &String) -> (r: Vec<FileEntry>)
    ensures
        r@ == without_path(entries@, path@),
{
    let mut out: Vec<FileEntry> = Vec::new();
    let n = entries.len();
    for i in 0..n
        invariant
            n == entries@.len(),
            out@ == without_path(entries@.take(i as int), path@),
    {
        assert(entries@.take(i + 1).drop_last() =~= entries@.take(i as int));
        if entries[i].path != *path {
            out.push(entries[i].clone());
        }
    }
    assert(entries@.take(n as int) =~= entries@);
    out
}

fn reset_after(app: &mut FileBrowserApp)
    ensures
        reset_after_task(*old(app), *final(app)),
        final(app).toast_manager == old(app).toast_manager,
{
    app.state = AppState::Home;
    app.has_dialog_tx = false;
    app.has_progress_tx = false;
    app.has_progress_rx = false;
    app.progress = None;
    app.progress_message = String::new();
}

/// Starts creating a vault with `password`, when a folder and a save location
/// were picked.
pub fn submit_encryption_task(app: &mut FileBrowserApp, password: String) -> (r: Option<AppEffect>)
    ensures
        encryption_submitted(*old(app), password, *final(app), r),
        browsing_ok(old(app)) ==> browsing_ok(final(app)),
{
    let dir = app.pending_directory.take();
    let save = app.pending_save_path.take();
    match (dir, save) {
        (Some(dir), Some(save_path)) => {
            switch_to_loading(app, "Creating container...");
            if app.has_progress_tx {
                Some(AppEffect::Send(WorkerCommand::EncryptFolder { source_dir: dir, output_path: save_path, password }))
            } else {
                None
            }
        },
        _ => None,
    }
}

/// Starts opening the vault at `file` with `password`.
pub fn submit_decryption_task(app: &mut FileBrowserApp, file: String, password: String) -> (r: Option<AppEffect>)
    ensures
        decryption_submitted(*old(app), file, password, *final(app), r),
        browsing_ok(old(app)) ==> browsing_ok(final(app)),
{
    switch_to_loading(app, "Opening vault...");
    Some(AppEffect::Send(WorkerCommand::OpenVault { path: file, password }))
}

fn switch_to_loading(app: &mut FileBrowserApp, message: &str)
    ensures
        loading(*old(app), message@, *final(app)),
{
    app.progress = None;
    app.progress_message = String::from_str(message);
    app.state = AppState::Loading;
}

/// What the client does with the item chosen in the context menu of a file,
/// and with a click elsewhere, which closes the menu.
pub fn apply_context_menu_action(app: &mut FileBrowserApp, action: ContextMenuAction, clicked_elsewhere: bool) -> (r: Option<AppEffect>)
    ensures
        browsing_ok(old(app)) ==> browsing_ok(final(app)),
        match action {
            ContextMenuAction::NoAction => *final(app) == (FileBrowserApp {
                context_menu: if clicked_elsewhere {
                    None
                } else {
                    old(app).context_menu
                },
                ..*old(app)
            }) && r is None,
            ContextMenuAction::Open(file) => *final(app) == (FileBrowserApp { context_menu: None, ..*old(app) }) && r == Some(
                AppEffect::Send(WorkerCommand::ReadFile { entry: file }),
            ),
            ContextMenuAction::Delete(file) => *final(app) == (FileBrowserApp { context_menu: None, ..*old(app) }) && r == Some(
                AppEffect::Send(WorkerCommand::DeleteFile { entry: file }),
            ),
            ContextMenuAction::Properties(file) => {
                &&& *final(app) == (FileBrowserApp { context_menu: None, properties_dialog: final(app).properties_dialog, ..*old(app) })
                &&& final(app).properties_dialog.spec_file() == Some(file)
                &&& final(app).properties_dialog.spec_tab() == crate::ui::properties::Tab::General
                &&& r is None
            },
            ContextMenuAction::Rename(file) => {
                &&& *final(app) == (FileBrowserApp {
                    context_menu: None,
                    rename_buffer: final(app).rename_buffer,
                    rename_path: final(app).rename_path,
                    ..*old(app)
                })
                &&& final(app).rename_buffer@ == (match file_name_of(file.path@) {
                    Some(n) => n,
                    None => Seq::empty(),
                })
                &&& final(app).rename_path matches Some(p) && p@ == file.path@
                &&& r is None
            },
        },
{
    let r = match action {
        ContextMenuAction::Open(file) => {
            app.context_menu = None;
            handle_browser_event(app, BrowserEvent::OpenFile(file), false)
        },
        ContextMenuAction::Properties(file) => {
            app.context_menu = None;
            app.properties_dialog.open(file);
            None
        },
        ContextMenuAction::Rename(file) => {
            app.context_menu = None;
            let name = match file_name_opt(file.path.as_str()) {
                Some(n) => String::from_str(n),
                None => String::new(),
            };
            app.rename_buffer = name;
            app.rename_path = Some(file.path.clone());
            None
        },
        ContextMenuAction::Delete(file) => {
            app.context_menu = None;
            handle_browser_event(app, BrowserEvent::DeleteFile(file), false)
        },
        ContextMenuAction::NoAction => None,
    };
    if clicked_elsewhere {
        app.context_menu = None;
    }
    r
}

/// A submitted password opens the vault picked to open, if one was: the pick
/// is forgotten, the client shows the loading screen with no progress and
/// "Opening vault...", and the worker is asked to open that vault with the
/// password. With no vault picked, it is what submitting the password to
/// encrypt the picked folder does.
pub proof fn lemma_password_submitted(o: FileBrowserApp, password: String, n: FileBrowserApp, r: Option<AppEffect>)
    requires
        password_event_done(o, PasswordEvent::Submitted(password), n, r),
    ensures
        o.pending_open_path matches Some(p) ==> {
            &&& n.pending_open_path is None
            &&& n.state == AppState::Loading
            &&& n.progress is None
            &&& n.progress_message@ == "Opening vault..."@
            &&& r == Some(AppEffect::Send(WorkerCommand::OpenVault { path: p, password }))
            &&& n.pending_directory == o.pending_directory && n.pending_save_path == o.pending_save_path
        },
        o.pending_open_path is None ==> encryption_submitted(o, password, n, r),
{
}

/// A cancelled password prompt forgets every pick, clears the typed password
/// and asks nothing of the worker.
pub proof fn lemma_password_cancelled(o: FileBrowserApp, n: FileBrowserApp, r: Option<AppEffect>)
    requires
        password_event_done(o, PasswordEvent::Cancelled, n, r),
    ensures
        n.pending_open_path is None && n.pending_directory is None && n.pending_save_path is None,
        n.password_buffer@.len() == 0,
        n.state == o.state,
        r is None,
{
}

/// Takes in what arrived since the last frame: first the dialogs' picks,
/// then the progress reports, then the vault worker's answers, each in the
/// order it came. Gives the effect of each answer, in the same order.
#[verifier::rlimit(60)]
#[verifier::spinoff_prover]
pub fn check_progress(
    app: &mut FileBrowserApp,
    dialogs: Vec<DialogMessage>,
    progress: Vec<ProgressMessage>,
    responses: Vec<WorkerResponse>,
) -> (r: Vec<Option<AppEffect>>)
    ensures
        exists|ps: Seq<FileBrowserApp>, ws: Seq<FileBrowserApp>|
            #![trigger progress_chain(progress@, ps), response_chain(responses@, ws, r@)]
            {
                &&& progress_chain(progress@, ps)
                &&& ps[0] == dialogs_applied(*old(app), dialogs@)
                &&& response_chain(responses@, ws, r@)
                &&& ws[0] == ps.last()
                &&& ws.last() == *final(app)
            },
        browsing_ok(old(app)) ==> browsing_ok(final(app)),
{
    let ghost d = dialogs@;
    let ghost pm = progress@;
    let ghost wm = responses@;
    let ghost start = *app;
    let mut dialogs = dialogs;
    let n_d = dialogs.len();
    let mut i: usize = 0;
    assert(d.take(0) =~= Seq::<DialogMessage>::empty());
    while dialogs.len() > 0
        invariant
            dialogs@ == d.skip(i as int),
            i <= d.len(),
            d.len() == n_d,
            *app == dialogs_applied(start, d.take(i as int)),
            browsing_ok(&start) ==> browsing_ok(app),
        decreases dialogs@.len(),
    {
        let msg = dialogs.remove(0);
        proof {
            assert(msg == d[i as int]);
            assert(d.take(i + 1).drop_last() =~= d.take(i as int));
        }
        apply_dialog_message(app, msg);
        i = i + 1;
        proof {
            assert(dialogs@ =~= d.skip(i as int));
        }
    }
    assert(d.take(i as int) =~= d);
    let ghost mut ps: Seq<FileBrowserApp> = seq![*app];
    let mut progress = progress;
    let n_p = progress.len();
    let mut j: usize = 0;
    while progress.len() > 0
        invariant
            progress@ == pm.skip(j as int),
            j <= pm.len(),
            pm.len() == n_p,
            progress_chain(pm.take(j as int), ps),
            ps[0] == dialogs_applied(start, d),
            ps.last() == *app,
            browsing_ok(&start) ==> browsing_ok(app),
        decreases progress@.len(),
    {
        let msg = progress.remove(0);
        let ghost before = *app;
        proof {
            assert(msg == pm[j as int]);
        }
        apply_progress_message(app, msg);
        proof {
            let old_ps = ps;
            ps = ps.push(*app);
            assert forall|t: int| 0 <= t < pm.take(j + 1).len() implies progress_applied(#[trigger] ps[t], pm.take(j + 1)[t], ps[t + 1]) by {
                if t < j {
                    assert(ps[t] == old_ps[t] && ps[t + 1] == old_ps[t + 1]);
                    assert(pm.take(j + 1)[t] == pm.take(j as int)[t]);
                }
            }
        }
        j = j + 1;
        proof {
            assert(progress@ =~= pm.skip(j as int));
        }
    }
    assert(pm.take(j as int) =~= pm);
    let ghost mut ws: Seq<FileBrowserApp> = seq![*app];
    let mut responses = responses;
    let n_w = responses.len();
    let mut effects: Vec<Option<AppEffect>> = Vec::new();
    let mut k: usize = 0;
    while responses.len() > 0
        invariant
            responses@ == wm.skip(k as int),
            k <= wm.len(),
            wm.len() == n_w,
            response_chain(wm.take(k as int), ws, effects@),
            ws[0] == ps.last(),
            ws.last() == *app,
            browsing_ok(&start) ==> browsing_ok(app),
        decreases responses@.len(),
    {
        let msg = responses.remove(0);
        let ghost before_effects = effects@;
        proof {
            assert(msg == wm[k as int]);
        }
        let e = process_worker_response(app, msg);
        effects.push(e);
        proof {
            let old_ws = ws;
            ws = ws.push(*app);
            assert forall|t: int| 0 <= t < wm.take(k + 1).len() implies response_done(#[trigger] ws[t], wm.take(k + 1)[t], ws[t + 1], effects@[t]) by {
                if t < k {
                    assert(ws[t] == old_ws[t] && ws[t + 1] == old_ws[t + 1]);
                    assert(wm.take(k + 1)[t] == wm.take(k as int)[t]);
                    assert(effects@[t] == before_effects[t]);
                }
            }
        }
        k = k + 1;
        proof {
            assert(responses@ =~= wm.skip(k as int));
        }
    }
    assert(wm.take(k as int) =~= wm);
    assert(progress_chain(pm, ps) && response_chain(wm, ws, effects@));
    effects
}

/// Deleting a path from an index keeps exactly the entries whose full path
/// differs from it, in their order: every entry at another path stays, even
/// one with the same file name in another folder, and none at the path does.
pub proof fn lemma_delete_keeps_other_paths(es: Seq<FileEntry>, path: Seq<char>)
    ensures
        without_path(es, path) == es.filter(|e: FileEntry| e.path@ != path),
        forall|i: int| 0 <= i < es.len() && es[i].path@ != path ==> without_path(es, path).contains(#[trigger] es[i]),
        forall|e: FileEntry| #[trigger] without_path(es, path).contains(e) ==> e.path@ != path && es.contains(e),
    decreases es.len(),
{
    reveal(Seq::filter);
    if es.len() > 0 {
        let init = es.drop_last();
        lemma_delete_keeps_other_paths(init, path);
        let r = without_path(es, path);
        let ri = without_path(init, path);
        assert forall|i: int| 0 <= i < es.len() && es[i].path@ != path implies r.contains(#[trigger] es[i]) by {
            if i < es.len() - 1 {
                assert(init[i] == es[i]);
                assert(ri.contains(init[i]));
                let k = choose|k: int| 0 <= k < ri.len() && ri[k] == init[i];
                if es.last().path@ != path {
                    assert(r[k] == ri[k]);
                }
            } else {
                assert(r[r.len() - 1] == es[i]);
            }
        }
        assert forall|e: FileEntry| #[trigger] r.contains(e) implies e.path@ != path && es.contains(e) by {
            let k = choose|k: int| 0 <= k < r.len() && r[k] == e;
            if es.last().path@ != path && k == r.len() - 1 {
                assert(es[es.len() - 1] == e);
            } else {
                assert(ri[k] == e);
                assert(ri.contains(e));
                let j = choose|j: int| 0 <= j < init.len() && init[j] == e;
                assert(es[j] == e);
            }
        }
    }
}

} // verus!
