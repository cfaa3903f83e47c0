use evfs::deflate::{ContainerIndex, FileEntry};
use evfs::gui::{AppEffect, FileBrowserApp};
use evfs::handler::{apply_context_menu_action, apply_dialog_message, apply_progress_message, check_progress, handle_event, handle_password_event, process_worker_response};
use evfs::ui::context_menu::ContextMenuAction;
use evfs::ui::properties::Tab;
use evfs::ui::toast::ToastType;
use evfs::ui::types::{AppEvent, AppState, BrowserEvent, DialogMessage, HomeEvent, PasswordEvent, ProgressMessage};
use evfs::worker::{WorkerCommand, WorkerResponse};

fn entry(path: &str, offset: u64) -> FileEntry {
    FileEntry { id: [offset as u8; 16], path: path.to_string(), offset, stored_size: 10, original_size: 3, compressed: false }
}

fn browsing() -> FileBrowserApp {
    let mut app = FileBrowserApp::new(None);
    let index = ContainerIndex { entries: vec![entry("a.txt", 37), entry("d/b.txt", 47), entry("a.txt", 57)] };
    process_worker_response(&mut app, WorkerResponse::VaultOpened { index });
    app
}

fn notices(app: &FileBrowserApp) -> Vec<(ToastType, String)> {
    app.toast_manager.toasts.iter().map(|t| (t.toast_type, t.message.clone())).collect()
}

#[test]
fn starts_home() {
    let app = FileBrowserApp::new(Some("v.enc".to_string()));
    assert_eq!(app.state, AppState::Home);
    assert_eq!(app.pending_open_path.as_deref(), Some("v.enc"));
    assert!(app.container_index.is_none());
}

#[test]
fn vault_opened_shows_browser() {
    let app = browsing();
    assert_eq!(app.state, AppState::Browser);
    assert_eq!(app.container_index.as_ref().unwrap().entries.len(), 3);
    assert_eq!(notices(&app), vec![(ToastType::Info, "Vault opened successfully".to_string())]);
}

#[test]
fn close_vault_goes_home() {
    let mut app = browsing();
    let r = handle_event(&mut app, AppEvent::Browser(BrowserEvent::CloseVault), true);
    assert!(matches!(r, Some(AppEffect::Send(WorkerCommand::CloseVault))));
    assert_eq!(app.state, AppState::Home);
    assert!(app.container_index.is_none());
}

#[test]
fn navigate_clears_selection() {
    let mut app = browsing();
    handle_event(&mut app, AppEvent::Browser(BrowserEvent::SelectFile(entry("a.txt", 37))), true);
    assert!(app.selected_file.is_some());
    handle_event(&mut app, AppEvent::Browser(BrowserEvent::NavigateTo("d".to_string())), true);
    assert_eq!(app.current_vfs_dir, "d");
    assert!(app.selected_file.is_none());
}

#[test]
fn context_menu_needs_pointer() {
    let mut app = browsing();
    handle_event(&mut app, AppEvent::Browser(BrowserEvent::ContextMenu(entry("a.txt", 37))), false);
    assert!(app.context_menu.is_none());
    handle_event(&mut app, AppEvent::Browser(BrowserEvent::ContextMenu(entry("a.txt", 37))), true);
    assert_eq!(app.context_menu.as_ref().unwrap().offset, 37);
}

#[test]
fn encrypt_folder_opens_channels_once() {
    let mut app = FileBrowserApp::new(None);
    let r = handle_event(&mut app, AppEvent::Home(HomeEvent::EncryptFolder), true);
    assert!(matches!(r, Some(AppEffect::PickFolderAndSaveLocation)));
    assert!(app.has_dialog_tx && app.has_dialog_rx && app.has_progress_tx && app.has_progress_rx);
    let r = handle_event(&mut app, AppEvent::Home(HomeEvent::OpenVault), true);
    assert!(matches!(r, Some(AppEffect::PickVaultFile)));
}

#[test]
fn password_submits_encryption_when_folder_picked() {
    let mut app = FileBrowserApp::new(None);
    handle_event(&mut app, AppEvent::Home(HomeEvent::EncryptFolder), true);
    apply_dialog_message(&mut app, DialogMessage::FolderPicked("/src".to_string()));
    apply_dialog_message(&mut app, DialogMessage::SaveLocationPicked("/out.enc".to_string()));
    let r = handle_event(&mut app, AppEvent::Password(PasswordEvent::Submitted("pw".to_string())), true);
    match r {
        Some(AppEffect::Send(WorkerCommand::EncryptFolder { source_dir, output_path, password })) => {
            assert_eq!((source_dir.as_str(), output_path.as_str(), password.as_str()), ("/src", "/out.enc", "pw"));
        }
        other => panic!("unexpected {:?}", other),
    }
    assert_eq!(app.state, AppState::Loading);
    assert_eq!(app.progress_message, "Creating container...");
    assert!(app.pending_directory.is_none() && app.pending_save_path.is_none());
}

#[test]
fn password_without_progress_channel_sends_nothing() {
    let mut app = FileBrowserApp::new(None);
    apply_dialog_message(&mut app, DialogMessage::FolderPicked("/src".to_string()));
    apply_dialog_message(&mut app, DialogMessage::SaveLocationPicked("/out.enc".to_string()));
    let r = handle_event(&mut app, AppEvent::Password(PasswordEvent::Submitted("pw".to_string())), true);
    assert!(r.is_none());
    assert_eq!(app.state, AppState::Loading);
}

#[test]
fn password_opens_pending_vault() {
    let mut app = FileBrowserApp::new(Some("v.enc".to_string()));
    let r = handle_event(&mut app, AppEvent::Password(PasswordEvent::Submitted("pw".to_string())), true);
    match r {
        Some(AppEffect::Send(WorkerCommand::OpenVault { path, password })) => {
            assert_eq!((path.as_str(), password.as_str()), ("v.enc", "pw"));
        }
        other => panic!("unexpected {:?}", other),
    }
    assert_eq!(app.progress_message, "Opening vault...");
    assert!(app.pending_open_path.is_none());
}

#[test]
fn password_cancel_forgets_everything() {
    let mut app = FileBrowserApp::new(Some("v.enc".to_string()));
    app.password_buffer = "secret".to_string();
    let r = handle_event(&mut app, AppEvent::Password(PasswordEvent::Cancelled), true);
    assert!(r.is_none());
    assert!(app.password_buffer.is_empty());
    assert!(app.pending_open_path.is_none());
}

#[test]
fn progress_line_has_counts() {
    let mut app = FileBrowserApp::new(None);
    apply_progress_message(&mut app, ProgressMessage::Progress { current: 3, total: 120, message: "Writing file: x".to_string() });
    assert_eq!(app.progress, Some((3, 120)));
    assert_eq!(app.progress_message, "Writing file: x (3/120)");
    apply_progress_message(&mut app, ProgressMessage::Progress { current: 0, total: 0, message: String::new() });
    assert_eq!(app.progress_message, " (0/0)");
}

#[test]
fn rename_updates_first_match_and_selection() {
    let mut app = browsing();
    handle_event(&mut app, AppEvent::Browser(BrowserEvent::SelectFile(entry("a.txt", 37))), true);
    process_worker_response(&mut app, WorkerResponse::FileRenamed { old_path: "a.txt".to_string(), new_path: "z.txt".to_string() });
    let paths: Vec<_> = app.container_index.as_ref().unwrap().entries.iter().map(|e| e.path.clone()).collect();
    assert_eq!(paths, vec!["z.txt", "d/b.txt", "a.txt"]);
    assert_eq!(app.selected_file.as_ref().unwrap().path, "z.txt");
    assert_eq!(app.selected_file.as_ref().unwrap().offset, 37);
    assert_eq!(notices(&app).last().unwrap().1, "File renamed");
}

#[test]
fn delete_removes_every_match() {
    let mut app = browsing();
    handle_event(&mut app, AppEvent::Browser(BrowserEvent::SelectFile(entry("a.txt", 57))), true);
    process_worker_response(&mut app, WorkerResponse::FileDeleted { path: "a.txt".to_string() });
    let paths: Vec<_> = app.container_index.as_ref().unwrap().entries.iter().map(|e| e.path.clone()).collect();
    assert_eq!(paths, vec!["d/b.txt"]);
    assert!(app.selected_file.is_none());
    assert_eq!(notices(&app).last().unwrap().1, "File deleted from vault");
}

#[test]
fn update_replaces_first_match() {
    let mut app = browsing();
    let mut e = entry("a.txt", 99);
    e.stored_size = 1234;
    process_worker_response(&mut app, WorkerResponse::FileUpdated { entry: e });
    let es = &app.container_index.as_ref().unwrap().entries;
    assert_eq!((es[0].offset, es[0].stored_size), (99, 1234));
    assert_eq!(es[2].offset, 57);
}

#[test]
fn errors_go_home_and_notify_unless_cancelled() {
    let mut app = browsing();
    process_worker_response(&mut app, WorkerResponse::Error { message: "Cancelled".to_string() });
    assert_eq!(app.state, AppState::Home);
    assert_eq!(notices(&app).len(), 1);
    process_worker_response(&mut app, WorkerResponse::Error { message: "Failed to open vault: x".to_string() });
    assert_eq!(notices(&app).last().unwrap(), &(ToastType::Error, "Failed to open vault: x".to_string()));
}

#[test]
fn encryption_done_notifies() {
    let mut app = FileBrowserApp::new(None);
    handle_event(&mut app, AppEvent::Home(HomeEvent::EncryptFolder), true);
    process_worker_response(&mut app, WorkerResponse::EncryptionDone);
    assert_eq!(app.state, AppState::Home);
    assert!(!app.has_dialog_tx && !app.has_progress_tx && !app.has_progress_rx);
    assert!(app.has_dialog_rx);
    assert_eq!(notices(&app), vec![(ToastType::Info, "Encryption completed successfully".to_string())]);
}

#[test]
fn decrypted_file_is_opened() {
    let mut app = browsing();
    let r = process_worker_response(&mut app, WorkerResponse::FileDecryptedToTemp { temp_path: "/tmp/evfs_a.txt".to_string() });
    assert!(matches!(r, Some(AppEffect::OpenInSystem(p)) if p == "/tmp/evfs_a.txt"));
}

#[test]
fn context_menu_rename_fills_buffer() {
    let mut app = browsing();
    app.context_menu = Some(entry("d/b.txt", 47));
    let r = apply_context_menu_action(&mut app, ContextMenuAction::Rename(entry("d/b.txt", 47)), false);
    assert!(r.is_none());
    assert!(app.context_menu.is_none());
    assert_eq!(app.rename_buffer, "b.txt");
    assert_eq!(app.rename_path.as_deref(), Some("d/b.txt"));
}

#[test]
fn context_menu_properties_and_delete() {
    let mut app = browsing();
    apply_context_menu_action(&mut app, ContextMenuAction::Properties(entry("d/b.txt", 47)), false);
    assert_eq!(app.properties_dialog.file.as_ref().unwrap().offset, 47);
    assert_eq!(app.properties_dialog.tab(), Tab::General);
    let r = apply_context_menu_action(&mut app, ContextMenuAction::Delete(entry("d/b.txt", 47)), false);
    assert!(matches!(r, Some(AppEffect::Send(WorkerCommand::DeleteFile { entry })) if entry.offset == 47));
    app.context_menu = Some(entry("a.txt", 37));
    apply_context_menu_action(&mut app, ContextMenuAction::NoAction, true);
    assert!(app.context_menu.is_none());
}

#[test]
fn browser_without_vault_goes_home() {
    let mut app = FileBrowserApp::new(None);
    app.state = AppState::Browser;
    app.check_browser();
    assert_eq!(app.state, AppState::Home);
}

#[test]
fn check_progress_applies_in_order() {
    let mut app = FileBrowserApp::new(None);
    let effects = check_progress(
        &mut app,
        vec![DialogMessage::FolderPicked("a".to_string()), DialogMessage::FolderPicked("b".to_string()), DialogMessage::SaveLocationPicked("s".to_string())],
        vec![
            ProgressMessage::Progress { current: 1, total: 4, message: "x".to_string() },
            ProgressMessage::Progress { current: 2, total: 4, message: "y".to_string() },
        ],
        vec![
            WorkerResponse::FileDecryptedToTemp { temp_path: "/t1".to_string() },
            WorkerResponse::FileDecryptedToTemp { temp_path: "/t2".to_string() },
        ],
    );
    assert_eq!(app.pending_directory, Some("b".to_string()));
    assert_eq!(app.pending_save_path, Some("s".to_string()));
    assert_eq!(app.progress, Some((2, 4)));
    assert_eq!(app.progress_message, "y (2/4)");
    assert_eq!(effects.len(), 2);
    assert!(matches!(&effects[0], Some(AppEffect::OpenInSystem(p)) if p == "/t1"));
    assert!(matches!(&effects[1], Some(AppEffect::OpenInSystem(p)) if p == "/t2"));
    let none = check_progress(&mut app, vec![], vec![], vec![]);
    assert!(none.is_empty());
    assert_eq!(app.progress_message, "y (2/4)");
}

#[test]
fn password_submit_opens_the_picked_vault() {
    let mut app = FileBrowserApp::new(None);
    app.pending_open_path = Some("v.evfs".to_string());
    let r = handle_password_event(&mut app, PasswordEvent::Submitted("pw".to_string()));
    assert!(app.pending_open_path.is_none());
    assert_eq!(app.state, AppState::Loading);
    assert_eq!(app.progress_message, "Opening vault...");
    assert!(matches!(r, Some(AppEffect::Send(WorkerCommand::OpenVault { path, password })) if path == "v.evfs" && password == "pw"));
}
