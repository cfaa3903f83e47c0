use evfs::deflate::FileEntry;
use evfs::ui::browser::breadcrumbs::{crumbs, BreadcrumbAction, BreadcrumbBar};
use evfs::ui::browser::file_details::{FileDetailsAction, FileDetailsView};
use evfs::ui::browser::file_row::{rename_action, rename_selection_end, FileRow, RenameAction};
use evfs::ui::browser::file_tree::{categorize_entries, tree_action, DirectoryTreeAction, FileRowInput, FileTree};
use evfs::ui::browser::folder_row::FolderRow;
use evfs::ui::browser_screen::screen_event;
use evfs::ui::context_menu::{ContextMenu, ContextMenuAction};
use evfs::ui::home_screen::{home_event, Typewriter};
use evfs::ui::loading::loading_visible;
use evfs::ui::password::{password_prompt_event, PasswordModal, PasswordPopup};
use evfs::ui::properties::{PropertiesDialog, Tab};
use evfs::ui::title_bar::{CustomTitleBar, TitleBarCommand};
use evfs::ui::toast::{ToastManager, ToastType};
use evfs::ui::types::{AppState, BrowserEvent, HomeEvent, PasswordEvent};

fn entry(path: &str, offset: u64) -> FileEntry {
    FileEntry { id: [1; 16], path: path.to_string(), offset, stored_size: 5, original_size: 5, compressed: false }
}

fn no_input() -> FileRowInput {
    FileRowInput { clicked: false, double_clicked: false, secondary_clicked: false, rename: None }
}

#[test]
fn crumbs_join_segments() {
    let c = crumbs("a//b/c/");
    let expected: Vec<(String, String)> =
        vec![("a".into(), "a".into()), ("b".into(), "a/b".into()), ("c".into(), "a/b/c".into())];
    assert_eq!(c, expected);
    assert!(crumbs("").is_empty());
    assert!(crumbs("///").is_empty());
}

#[test]
fn breadcrumb_later_button_wins() {
    let bar = BreadcrumbBar::new("x/y");
    assert_eq!(bar.action(true, Some(1), true), BreadcrumbAction::Exit);
    assert_eq!(bar.action(true, Some(1), false), BreadcrumbAction::NavigateTo("x/y".into()));
    assert_eq!(bar.action(true, Some(0), false), BreadcrumbAction::NavigateTo("x".into()));
    assert_eq!(bar.action(true, Some(7), false), BreadcrumbAction::NavigateTo(String::new()));
    assert_eq!(bar.action(false, None, false), BreadcrumbAction::NoAction);
    assert_eq!(bar.dir(), "x/y");
}

#[test]
fn categorize_sorts_and_dedups_dirs() {
    let es = vec![entry("z/1", 1), entry("top.txt", 2), entry("a/2", 3), entry("z/3/4", 4), entry("other.bin", 5)];
    let (dirs, files) = categorize_entries("", &es);
    assert_eq!(dirs, vec!["a".to_string(), "z".to_string()]);
    let offs: Vec<u64> = files.iter().map(|f| f.offset).collect();
    assert_eq!(offs, vec![2, 5]);
    let (dirs, files) = categorize_entries("z", &es);
    assert_eq!(dirs, vec!["3".to_string()]);
    assert_eq!(files.len(), 1);
    assert_eq!(files[0].offset, 1);
}

#[test]
fn tree_listing_adds_directory_paths() {
    let es = vec![entry("b/f", 1)];
    let ds = vec!["c/d".to_string(), "a".to_string(), "b".to_string()];
    let mut buf = String::new();
    let tree = FileTree::new(&es, &ds, "", &mut buf);
    let (dirs, files) = tree.listing();
    assert_eq!(dirs, vec!["a".to_string(), "b".to_string(), "c".to_string()]);
    assert!(files.is_empty());
}

#[test]
fn tree_rows() {
    let es = vec![entry("d/f.txt", 1), entry("d/g.txt", 2)];
    let mut buf = String::new();
    let tree = FileTree::new(&es, &[], "d", &mut buf).selected(Some(&es[1])).renaming(Some("d/f.txt"));
    assert_eq!(tree.file_row(&es[0]), ("f.txt".to_string(), false, true));
    assert_eq!(tree.file_row(&es[1]), ("g.txt".to_string(), true, false));
    assert!(!tree.folder_selected("x"));
    let tree = tree.directories_first(false).show_icons(false).allow_double_click(false);
    tree.into_rename_buffer().push('q');
    assert_eq!(buf, "q");
}

#[test]
fn tree_action_last_row_wins() {
    let dirs = vec!["a".to_string(), "b".to_string()];
    let files = vec![entry("d/f.txt", 1), entry("d/g.txt", 2)];
    let mut inputs = vec![no_input(), no_input()];
    inputs[0].clicked = true;
    let r = tree_action("d", true, None, &dirs, &files, &vec![false, true], &inputs);
    assert!(matches!(r, DirectoryTreeAction::SelectFile(f) if f.offset == 1));
    let r = tree_action("d", true, None, &dirs, &files, &vec![true, false], &vec![no_input(), no_input()]);
    assert!(matches!(r, DirectoryTreeAction::SelectFolder(p) if p == "d/a"));
    let r = tree_action("", true, None, &dirs, &files, &vec![true, false], &vec![no_input(), no_input()]);
    assert!(matches!(r, DirectoryTreeAction::SelectFolder(p) if p == "a"));
    let r = tree_action("d", true, None, &dirs, &files, &vec![false, false], &vec![no_input(), no_input()]);
    assert!(matches!(r, DirectoryTreeAction::NoAction));
}

#[test]
fn tree_action_clicks_and_renames() {
    let files = vec![entry("d/f.txt", 1)];
    let mut i = no_input();
    i.double_clicked = true;
    let r = tree_action("d", true, None, &vec![], &files, &vec![], &vec![i]);
    assert!(matches!(r, DirectoryTreeAction::ExecuteFile(_)));
    let mut i = no_input();
    i.double_clicked = true;
    let r = tree_action("d", false, None, &vec![], &files, &vec![], &vec![i]);
    assert!(matches!(r, DirectoryTreeAction::NoAction));
    let mut i = no_input();
    i.secondary_clicked = true;
    let r = tree_action("d", true, None, &vec![], &files, &vec![], &vec![i]);
    assert!(matches!(r, DirectoryTreeAction::ContextMenu(_)));
    let mut i = no_input();
    i.rename = Some(RenameAction::Submit("new.md".to_string()));
    i.clicked = true;
    let r = tree_action("d", true, Some("d/f.txt"), &vec![], &files, &vec![], &vec![i]);
    assert!(matches!(r, DirectoryTreeAction::RenameSubmit { old_path, new_path } if old_path == "d/f.txt" && new_path == "d/new.md"));
    let mut i = no_input();
    i.rename = Some(RenameAction::Submit("f.txt".to_string()));
    let r = tree_action("d", true, Some("d/f.txt"), &vec![], &files, &vec![], &vec![i]);
    assert!(matches!(r, DirectoryTreeAction::NoAction));
    let mut i = no_input();
    i.rename = Some(RenameAction::Cancel);
    let r = tree_action("d", true, Some("d/f.txt"), &vec![], &files, &vec![], &vec![i]);
    assert!(matches!(r, DirectoryTreeAction::RenameCancel));
    let top = vec![entry("top.txt", 3)];
    let mut i = no_input();
    i.rename = Some(RenameAction::Submit("n.txt".to_string()));
    let r = tree_action("", true, Some("top.txt"), &vec![], &top, &vec![], &vec![i]);
    assert!(matches!(r, DirectoryTreeAction::RenameSubmit { new_path, .. } if new_path == "n.txt"));
}

#[test]
fn tree_action_ignores_rename_of_other_rows() {
    let files = vec![entry("d/f.txt", 1), entry("d/g.txt", 2)];
    let mut i = no_input();
    i.rename = Some(RenameAction::Submit("new.md".to_string()));
    i.clicked = true;
    let r = tree_action("d", true, Some("d/g.txt"), &vec![], &files, &vec![], &vec![i, no_input()]);
    assert!(matches!(r, DirectoryTreeAction::SelectFile(f) if f.offset == 1));
    let mut i = no_input();
    i.rename = Some(RenameAction::Cancel);
    let r = tree_action("d", true, None, &vec![], &files, &vec![], &vec![i, no_input()]);
    assert!(matches!(r, DirectoryTreeAction::NoAction));
}

#[test]
fn rename_box_decides_only_while_renaming() {
    let other = "b.txt".to_string();
    assert_eq!(rename_action(false, "a.txt", &other, true, false, false), None);
    assert_eq!(rename_action(false, "a.txt", &other, false, true, true), None);
}

#[test]
fn rename_box_decisions() {
    let same = "a.txt".to_string();
    let other = "b.txt".to_string();
    assert_eq!(rename_action(true, "a.txt", &same, true, false, false), Some(RenameAction::Cancel));
    assert_eq!(rename_action(true, "a.txt", &other, true, true, true), Some(RenameAction::Submit("b.txt".into())));
    assert_eq!(rename_action(true, "a.txt", &other, false, true, false), Some(RenameAction::Cancel));
    assert_eq!(rename_action(true, "a.txt", &other, false, false, true), Some(RenameAction::Cancel));
    assert_eq!(rename_action(true, "a.txt", &other, false, false, false), None);
}

#[test]
fn rename_selects_the_stem() {
    assert_eq!(rename_selection_end("report.final.pdf"), 12);
    assert_eq!(rename_selection_end(".bashrc"), 7);
    assert_eq!(rename_selection_end("noext"), 5);
    assert_eq!(rename_selection_end(""), 0);
    assert_eq!(rename_selection_end("é.txt"), 2);
}

#[test]
fn rows_build() {
    let mut buf = String::from("x");
    let (name, sel, icon, ren, b) = FileRow::new("f", &mut buf).selected(true).show_icon(false).renaming(true).into_parts();
    assert_eq!((name, sel, icon, ren), ("f", true, false, true));
    b.push('y');
    assert_eq!(buf, "xy");
    let (n, s, i) = FolderRow::new("dir").selected(true).show_icon(false).into_parts();
    assert_eq!((n, s, i), ("dir", true, false));
}

#[test]
fn details_panel() {
    let e = entry("a/b.txt", 9);
    let v = FileDetailsView::new(Some(&e));
    assert_eq!(v.lines(), Some(("Virtual Path: a/b.txt".to_string(), "Size: 5 bytes".to_string())));
    assert!(matches!(v.action(true), FileDetailsAction::Open(f) if f.offset == 9));
    assert!(matches!(v.action(false), FileDetailsAction::NoAction));
    let none = FileDetailsView::new(None);
    assert_eq!(none.lines(), None);
    assert!(matches!(none.action(true), FileDetailsAction::NoAction));
}

#[test]
fn screen_event_order() {
    let r = screen_event(BreadcrumbAction::Exit, DirectoryTreeAction::SelectFile(entry("a", 1)), FileDetailsAction::NoAction);
    assert!(matches!(r, Some(BrowserEvent::CloseVault)));
    let r = screen_event(BreadcrumbAction::NoAction, DirectoryTreeAction::SelectFolder("x".into()), FileDetailsAction::Open(entry("a", 1)));
    assert!(matches!(r, Some(BrowserEvent::NavigateTo(p)) if p == "x"));
    let r = screen_event(BreadcrumbAction::NoAction, DirectoryTreeAction::ContextMenu(entry("a", 1)), FileDetailsAction::Open(entry("b", 2)));
    assert!(matches!(r, Some(BrowserEvent::OpenFile(f)) if f.offset == 2));
    let r = screen_event(BreadcrumbAction::NoAction, DirectoryTreeAction::RenameCancel, FileDetailsAction::NoAction);
    assert!(matches!(r, Some(BrowserEvent::RenameCancel)));
    let r = screen_event(BreadcrumbAction::NoAction, DirectoryTreeAction::NoAction, FileDetailsAction::NoAction);
    assert!(r.is_none());
}

#[test]
fn context_menu_items() {
    let m = ContextMenu::new(entry("a", 4));
    assert!(matches!(m.action(true, true, false, false, false), ContextMenuAction::Properties(_)));
    assert!(matches!(m.action(true, false, false, true, false), ContextMenuAction::Delete(_)));
    assert!(matches!(m.action(true, false, false, false, false), ContextMenuAction::Open(_)));
    assert!(matches!(m.action(false, false, true, false, false), ContextMenuAction::Rename(_)));
    assert!(matches!(m.action(true, true, true, true, true), ContextMenuAction::NoAction));
    assert!(matches!(ContextMenuAction::default(), ContextMenuAction::NoAction));
    assert_eq!(m.file().offset, 4);
}

#[test]
fn properties_dialog_frames() {
    let mut d = PropertiesDialog::new();
    assert!(d.file().is_none());
    d.frame(false, Some(Tab::Storage), false);
    assert_eq!(d.tab(), Tab::General);
    d.open(entry("a", 1));
    d.frame(false, Some(Tab::Security), false);
    assert_eq!(d.tab(), Tab::Security);
    assert!(d.file().is_some());
    d.frame(false, None, true);
    assert!(d.file().is_none());
    d.open(entry("a", 1));
    assert_eq!(d.tab(), Tab::General);
    d.frame(true, Some(Tab::Advanced), false);
    assert!(d.file().is_none());
    assert_eq!(d.tab(), Tab::General);
}

#[test]
fn password_prompt_decisions() {
    let mut b = "pw".to_string();
    assert!(matches!(password_prompt_event(&mut b, false, true, true), Some(PasswordEvent::Submitted(p)) if p == "pw"));
    assert!(b.is_empty());
    assert!(password_prompt_event(&mut b, false, true, false).is_none());
    let mut b = "pw".to_string();
    assert!(matches!(password_prompt_event(&mut b, true, true, false), Some(PasswordEvent::Cancelled)));
    assert!(b.is_empty());
    let mut b = "pw".to_string();
    assert!(matches!(password_prompt_event(&mut b, false, false, true), Some(PasswordEvent::Cancelled)));
    assert!(b.is_empty());
    let mut b = "pw".to_string();
    assert!(password_prompt_event(&mut b, false, false, false).is_none());
    assert_eq!(b, "pw");
}

#[test]
fn password_popup_shows_when_pending() {
    let mut buf = String::new();
    let save = "s".to_string();
    let open = "o".to_string();
    assert!(PasswordPopup::new(None, None, &mut buf).modal().is_none());
    let m = PasswordPopup::new(Some(&save), None, &mut buf).modal().unwrap();
    assert_eq!(m.title(), "\u{1f512} Set Encryption Password");
    let m = PasswordPopup::new(Some(&save), Some(&open), &mut buf).modal().unwrap();
    assert_eq!(m.title(), "\u{1f510} Enter Password to Decrypt");
    PasswordModal::new(false, &mut buf).into_buffer().push('k');
    assert_eq!(buf, "k");
}

#[test]
fn title_bar_commands() {
    assert_eq!(CustomTitleBar::commands(true, true), vec![TitleBarCommand::StartDrag, TitleBarCommand::Close]);
    assert!(CustomTitleBar::commands(false, false).is_empty());
    assert_eq!(CustomTitleBar::title(), "XOR-evfs");
}

#[test]
fn toasts_keep_order() {
    let mut t = ToastManager::new();
    t.info("one".to_string());
    t.error("two".to_string());
    let all = t.take_all();
    assert!(t.toasts.is_empty());
    let v: Vec<_> = all.iter().map(|x| (x.toast_type, x.message.as_str())).collect();
    assert_eq!(v, vec![(ToastType::Info, "one"), (ToastType::Error, "two")]);
}

#[test]
fn home_buttons() {
    assert_eq!(home_event(AppState::Home, true, false), Some(HomeEvent::EncryptFolder));
    assert_eq!(home_event(AppState::Home, true, true), Some(HomeEvent::OpenVault));
    assert_eq!(home_event(AppState::Loading, true, true), None);
    assert!(loading_visible(AppState::Loading));
    assert!(!loading_visible(AppState::Browser));
    assert_eq!(AppState::default(), AppState::Home);
}

#[test]
fn typewriter_types_out() {
    let mut t = Typewriter::new("EVFS");
    assert_eq!(t.text(), "|");
    t.advance(2, 4);
    assert_eq!(t.text(), "EV|");
    t.advance(1, 3);
    assert_eq!(t.text(), "EVF&|");
    t.advance(1, 5);
    assert_eq!(t.text(), "EVFS|");
    assert!(t.is_finished());
    t.advance(5, 6);
    assert_eq!(t.text(), "EVFS|");
    let mut t = Typewriter::new("ab");
    t.advance(9, 0);
    assert_eq!(t.text(), "ab&|");
}

#[test]
fn tree_asks_only_for_what_it_lists() {
    let es = vec![entry("d/x/1.txt", 1), entry("d/f.txt", 2), entry("e/g.txt", 3)];
    let dirs_extra = vec!["d/y".to_string()];
    let mut buf = String::new();
    let tree = FileTree::new(&es, &dirs_extra, "d", &mut buf).renaming(Some("d/f.txt"));
    let (sub_dirs, files) = tree.listing();
    assert_eq!(sub_dirs, vec!["x".to_string(), "y".to_string()]);
    assert_eq!(files.len(), 1);
    let r = tree_action("d", true, Some("d/f.txt"), &sub_dirs, &files, &vec![false, true], &vec![no_input()]);
    assert!(matches!(r, DirectoryTreeAction::SelectFolder(p) if p == "d/y"));
    let mut i = no_input();
    i.rename = Some(RenameAction::Submit("h.txt".to_string()));
    let r = tree_action("d", true, Some("d/f.txt"), &sub_dirs, &files, &vec![false, false], &vec![i]);
    assert!(matches!(r, DirectoryTreeAction::RenameSubmit { old_path, new_path } if old_path == "d/f.txt" && new_path == "d/h.txt"));
}

#[test]
fn file_row_keeps_its_buffer() {
    let mut buf = "draft.txt".to_string();
    let row = FileRow::new("a.txt", &mut buf).selected(true).show_icon(false).renaming(true);
    let (name, selected, icon, renaming, b) = row.into_parts();
    assert_eq!((name, selected, icon, renaming), ("a.txt", true, false, true));
    assert_eq!(b.as_str(), "draft.txt");
    b.push('!');
    assert_eq!(buf, "draft.txt!");
}

#[test]
fn typewriter_glitches_only_with_its_characters() {
    let mut t = Typewriter::new("EVFS TITLE");
    let mut glitches = 0;
    for ms in 0..30usize {
        t.advance(1, ms);
        let text = t.text();
        let body = text.strip_suffix('|').unwrap();
        if !"EVFS TITLE".starts_with(body) {
            let last = body.chars().last().unwrap();
            assert!(last == '&' || last == '<' || last == '/');
            assert!("EVFS TITLE".starts_with(&body[..body.len() - 1]));
            glitches += 1;
        }
    }
    assert!(glitches > 0);
}
