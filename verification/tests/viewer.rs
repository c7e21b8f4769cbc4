use kpdf::desktop::{open_directory_command, reveal_path_command, zoom_or_restore_window, WindowZoom};
use kpdf::dialogs::{summarize_updater_error, NoteSave};
use kpdf::keys::KeyCommand;
use kpdf::platform::Platform;
use kpdf::popups::BookmarkOpen;
use kpdf::tab_actions::RecentOpen;
use kpdf::tab::PageSummary;
use kpdf::types::{
    BookmarkEntry, BookmarkScope, LanguagePreference, MacTabContextMenuAction, MarkdownNoteEntry,
    RecentPopupAnchor, ThemeMode, TitleBarVisibilityPreferences, UpdaterUiState,
};
use kpdf::updater::{UpdateCheck, UpdateInfo};
use kpdf::viewer::{bookmark_note_preview_text, PdfViewer, Preferences};

fn prefs() -> Preferences {
    Preferences {
        titlebar: TitleBarVisibilityPreferences::default(),
        theme_mode: ThemeMode::Light,
        light_theme_name: None,
        dark_theme_name: None,
        language: LanguagePreference::System,
    }
}

/// A viewer showing `/a.pdf` (read, five pages) and, when `second`, `/b.pdf`.
fn viewer(second: bool) -> PdfViewer {
    let mut saved = vec!["/a.pdf".to_string()];
    if second {
        saved.push("/b.pdf".to_string());
    }
    let exists = vec![true; saved.len()];
    let (mut v, to_load) = PdfViewer::new(Vec::new(), Vec::new(), Vec::new(), saved, exists, Some(0), prefs());
    assert_eq!(to_load, Some((1, "/a.pdf".to_string())));
    let restored: Vec<(usize, String)> =
        v.tab_bar.tabs().iter().map(|t| (t.id, t.path.clone().expect("restored tabs show a file"))).collect();
    for (id, path) in restored {
        let pages: Vec<PageSummary> = (0..5).map(PageSummary::new).collect();
        v.finish_tab_load(id, &path, Some(pages), None, false);
    }
    v
}

fn note(id: u64, page: usize, updated: u64, text: &str) -> MarkdownNoteEntry {
    MarkdownNoteEntry {
        id,
        path: "/a.pdf".to_string(),
        page_index: page,
        markdown: text.to_string(),
        created_at_unix_secs: 1,
        updated_at_unix_secs: updated,
        selected_text: String::new(),
    }
}

fn bookmark(path: &str, page: usize) -> BookmarkEntry {
    BookmarkEntry { path: path.to_string(), page_index: page, created_at_unix_secs: 5 }
}

#[test]
fn recent_files_put_the_latest_first_once_and_keep_twelve() {
    let mut v = viewer(false);
    for i in 0..13 {
        v.remember_recent_file(&format!("/f{i}.pdf"));
    }
    assert_eq!(v.recent_files.len(), 12);
    assert_eq!(v.recent_files[0], "/f12.pdf");
    assert_eq!(v.recent_files[11], "/f1.pdf");
    v.remember_recent_file(&"/f5.pdf".to_string());
    assert_eq!(v.recent_files[0], "/f5.pdf");
    assert_eq!(v.recent_files.iter().filter(|p| p.as_str() == "/f5.pdf").count(), 1);
    let before = v.recent_files.clone();
    v.remember_recent_file(&"/f5.pdf".to_string());
    assert_eq!(v.recent_files, before);
    v.forget_recent_file(&"/f5.pdf".to_string());
    assert!(!v.recent_files.contains(&"/f5.pdf".to_string()));
}

#[test]
fn bookmarking_a_page_twice_keeps_one_bookmark() {
    let mut v = viewer(false);
    v.insert_bookmark(bookmark("/a.pdf", 1));
    v.insert_bookmark(bookmark("/a.pdf", 2));
    v.insert_bookmark(bookmark("/a.pdf", 1));
    let pages: Vec<usize> = v.bookmarks.iter().map(|b| b.page_index).collect();
    assert_eq!(pages, vec![1, 2]);
    assert!(v.active_tab_page_bookmarked(1));
    assert!(!v.active_tab_page_bookmarked(3));
    assert!(v.delete_bookmark(&bookmark("/a.pdf", 1)));
    assert!(!v.delete_bookmark(&bookmark("/a.pdf", 1)));
    assert_eq!(v.bookmarks.len(), 1);
}

#[test]
fn bookmark_scopes_and_file_removal() {
    let mut v = viewer(false);
    v.insert_bookmark(bookmark("/a.pdf", 0));
    v.insert_bookmark(bookmark("/b.pdf", 4));
    assert_eq!(v.bookmarks_for_scope(BookmarkScope::All).len(), 2);
    let current = v.bookmarks_for_scope(BookmarkScope::CurrentPdf);
    assert_eq!(current.len(), 1);
    assert_eq!(current[0].path, "/a.pdf");
    assert!(v.remove_bookmarks_of_file(&"/b.pdf".to_string()));
    assert!(!v.remove_bookmarks_of_file(&"/b.pdf".to_string()));
    assert_eq!(v.bookmarks.len(), 1);
}

#[test]
fn current_page_bookmark_is_stamped() {
    let v = viewer(false);
    let b = v.current_bookmark_entry(99).expect("a file with pages is open");
    assert_eq!(b.path, "/a.pdf");
    assert_eq!(b.page_index, 0);
    assert_eq!(b.created_at_unix_secs, 99);
}

#[test]
fn adding_a_bookmark_opens_the_popup_for_this_file() {
    let mut v = viewer(false);
    assert!(v.add_current_page_bookmark_and_open(7));
    assert_eq!(v.bookmarks.len(), 1);
    assert!(v.bookmark_popup.open);
    assert_eq!(v.bookmark_popup.scope, BookmarkScope::CurrentPdf);
}

#[test]
fn notes_are_listed_most_recently_updated_first() {
    let mut v = viewer(false);
    v.upsert_markdown_note(note(1, 0, 10, "old"));
    v.upsert_markdown_note(note(2, 0, 30, "new"));
    v.upsert_markdown_note(note(3, 1, 20, "middle"));
    let ids: Vec<u64> = v.markdown_notes.iter().map(|n| n.id).collect();
    assert_eq!(ids, vec![2, 3, 1]);
    v.upsert_markdown_note(note(1, 0, 40, "edited"));
    let ids: Vec<u64> = v.markdown_notes.iter().map(|n| n.id).collect();
    assert_eq!(ids, vec![1, 2, 3]);
    assert_eq!(v.markdown_note_by_id(1).map(|n| n.markdown.clone()), Some("edited".to_string()));
    let on_page_0: Vec<u64> = v.active_tab_markdown_notes_for_page(0).iter().map(|n| n.id).collect();
    assert_eq!(on_page_0, vec![1, 2]);
    assert!(v.delete_markdown_note_by_id(2));
    assert!(!v.delete_markdown_note_by_id(2));
    assert_eq!(v.markdown_notes.len(), 2);
}

#[test]
fn new_note_ids_skip_taken_ones() {
    let mut v = viewer(false);
    assert_eq!(v.next_markdown_note_id(5), 5000);
    v.upsert_markdown_note(note(5000, 0, 1, "a"));
    v.upsert_markdown_note(note(5001, 0, 1, "b"));
    assert_eq!(v.next_markdown_note_id(5), 5002);
}

#[test]
fn note_editor_saves_new_and_edited_notes() {
    let mut v = viewer(false);
    let session = v.open_markdown_note_editor_for_new(3);
    assert!(matches!(
        v.save_markdown_note_from_editor_window(session, "   ", 100, 1),
        NoteSave::Rejected
    ));
    assert!(matches!(
        v.save_markdown_note_from_editor_window(session + 1, "text", 100, 1),
        NoteSave::Ignored
    ));
    let saved = match v.save_markdown_note_from_editor_window(session, "  # Title\n", 100, 1) {
        NoteSave::Saved(n) => n,
        _ => panic!("the note was expected to be saved"),
    };
    assert_eq!(saved.id, 1000);
    assert_eq!(saved.page_index, 3);
    assert_eq!(saved.markdown, "# Title");
    assert_eq!(saved.path, "/a.pdf");
    assert!(!v.dialogs.note_editor.open);

    let (session, text) = v.open_markdown_note_editor_for_edit(1000).expect("the note exists");
    assert_eq!(text, "# Title");
    match v.save_markdown_note_from_editor_window(session, "changed", 200, 2) {
        NoteSave::Saved(n) => {
            assert_eq!(n.id, 1000);
            assert_eq!(n.created_at_unix_secs, 100);
            assert_eq!(n.updated_at_unix_secs, 200);
        }
        _ => panic!("the edit was expected to be saved"),
    }
    assert_eq!(v.markdown_notes.len(), 1);
    assert!(v.open_markdown_note_editor_for_edit(77).is_none());
}

#[test]
fn note_previews_use_the_first_nonblank_line() {
    assert_eq!(bookmark_note_preview_text("\n   \n  Hello world  \nmore"), "Hello world");
    assert_eq!(bookmark_note_preview_text("   "), "");
}

#[test]
fn dialogs_open_once_and_close_by_session() {
    let mut v = viewer(false);
    v.dialogs.command_panel_open = true;
    let session = v.open_settings_dialog().expect("it was closed");
    assert!(!v.dialogs.command_panel_open);
    assert!(v.open_settings_dialog().is_none());
    assert_eq!(v.handle_key_down("escape", false, false), KeyCommand::CloseSettingsDialog);
    assert!(!v.on_settings_dialog_window_closed(session + 1));
    assert!(v.on_settings_dialog_window_closed(session));
    assert!(!v.dialogs.settings.open);
    assert!(!v.close_settings_dialog());
    let about = v.open_about_dialog().expect("it was closed");
    assert!(v.close_about_dialog());
    assert!(!v.on_about_dialog_window_closed(about));
    assert!(v.open_keymap_dialog().is_some());
    assert!(v.close_keymap_dialog());
}

#[test]
fn key_commands_follow_the_open_dialogs() {
    let mut v = viewer(false);
    assert_eq!(v.handle_key_down("c", true, false), KeyCommand::CopySelection);
    assert_eq!(v.handle_key_down("w", true, false), KeyCommand::CloseCurrentTab);
    assert_eq!(v.handle_key_down("]", true, true), KeyCommand::SwitchTabByOffset(1));
    assert_eq!(v.handle_key_down("[", true, true), KeyCommand::SwitchTabByOffset(-1));
    assert_eq!(v.handle_key_down("escape", false, false), KeyCommand::ClearTextSelection);
    v.dialogs.command_panel_open = true;
    assert_eq!(v.handle_key_down("down", false, false), KeyCommand::MoveCommandPanelSelection(1));
    assert_eq!(v.handle_key_down("c", true, false), KeyCommand::Ignored);
    v.dialogs.command_panel_open = false;
    v.open_markdown_note_editor_for_new(0);
    assert_eq!(v.handle_key_down("enter", true, false), KeyCommand::SaveNoteEditor);
    assert_eq!(v.handle_key_down("enter", false, false), KeyCommand::Ignored);
}

#[test]
fn preferences_report_changes() {
    let mut v = viewer(false);
    assert!(!v.set_titlebar_navigation_visible(true));
    assert!(v.set_titlebar_zoom_visible(false));
    assert!(!v.preferences.titlebar.show_zoom);
    assert!(v.set_theme_mode(ThemeMode::Dark));
    assert!(!v.set_theme_mode(ThemeMode::Dark));
    assert!(v.set_theme_color_by_name(ThemeMode::Dark, "Nord"));
    assert_eq!(v.preferences.dark_theme_name, Some("Nord".to_string()));
    assert!(!v.set_theme_color_by_name(ThemeMode::Dark, "Nord"));
    assert!(v.set_language_preference(LanguagePreference::ZhCn));
    assert_eq!(v.preferences.language, LanguagePreference::ZhCn);
}

#[test]
fn update_check_states() {
    let mut v = viewer(false);
    assert!(v.begin_update_check());
    assert!(!v.begin_update_check());
    v.finish_update_check(Ok(UpdateCheck::UpdateAvailable(UpdateInfo {
        latest_version: "1.0.0".to_string(),
        download_url: "https://example.com/d".to_string(),
    })));
    assert!(matches!(&v.updater_state, UpdaterUiState::Available { latest_version, .. } if latest_version == "1.0.0"));
    v.finish_update_check(Err("\n  network down  \nsecond".to_string()));
    assert!(matches!(&v.updater_state, UpdaterUiState::Error { message } if message == "network down"));
}

#[test]
fn long_update_errors_are_cut() {
    let long = "x".repeat(100);
    let summary = summarize_updater_error(&long);
    assert_eq!(summary, format!("{}...", "x".repeat(85)));
    assert_eq!(summarize_updater_error("   "), "unknown error");
    let exact = "y".repeat(88);
    assert_eq!(summarize_updater_error(&exact), exact);
    let awkward = format!("{}é{}", "a".repeat(84), "b".repeat(10));
    assert_eq!(summarize_updater_error(&awkward), format!("{}...", "a".repeat(84)));
    let mut v = viewer(false);
    v.finish_update_check(Err(awkward));
    assert!(matches!(&v.updater_state, UpdaterUiState::Error { message } if message.len() == 87));
}

#[test]
fn recent_popup_follows_the_pointer() {
    let mut v = viewer(false);
    let update = v.set_recent_popup_trigger_hovered(RecentPopupAnchor::TabAddButton, true);
    assert!(update.redraw);
    assert!(v.recent_popup_open_for(RecentPopupAnchor::TabAddButton));
    let leave = v.set_recent_popup_trigger_hovered(RecentPopupAnchor::TabAddButton, false);
    let epoch = leave.close_check_epoch.expect("a close check is due");
    v.set_recent_popup_panel_hovered(true);
    assert!(!v.recent_popup_close_check(epoch));
    let leave = v.set_recent_popup_panel_hovered(false);
    let epoch = leave.close_check_epoch.expect("a close check is due");
    assert!(v.recent_popup_close_check(epoch));
    assert!(!v.recent_popup.open);
}

#[test]
fn menu_codes_round_trip() {
    for action in [
        MacTabContextMenuAction::CloseAllTabs,
        MacTabContextMenuAction::CloseOtherTabs,
        MacTabContextMenuAction::RevealInFinder,
    ] {
        assert_eq!(MacTabContextMenuAction::from_code(action.code()), Some(action));
    }
    assert_eq!(MacTabContextMenuAction::from_code(0), None);
    assert_eq!(MacTabContextMenuAction::CloseOtherTabs.code(), 2);
}

#[test]
fn desktop_commands_per_platform() {
    let mac = reveal_path_command(Platform::MacOs, "/a.pdf", "/").expect("macOS can reveal");
    assert_eq!(mac.program, "open");
    assert_eq!(mac.args, vec!["-R".to_string(), "/a.pdf".to_string()]);
    let win = reveal_path_command(Platform::Windows, "C:\\a.pdf", "C:\\").expect("Windows can reveal");
    assert_eq!(win.program, "explorer");
    assert_eq!(win.args, vec!["/select,C:\\a.pdf".to_string()]);
    let unix = reveal_path_command(Platform::Linux, "/docs/a.pdf", "/docs").expect("Unix can reveal");
    assert_eq!(unix.program, "xdg-open");
    assert_eq!(unix.args, vec!["/docs".to_string()]);
    assert!(reveal_path_command(Platform::Other, "/a.pdf", "/").is_none());
    let dir = open_directory_command(Platform::Windows, "C:\\logs").expect("Windows can open folders");
    assert_eq!(dir.program, "explorer");
    assert!(open_directory_command(Platform::Other, "/logs").is_none());
    assert_eq!(zoom_or_restore_window(Platform::Windows, true), WindowZoom::RestoreNativelyElseZoom);
    assert_eq!(zoom_or_restore_window(Platform::Windows, false), WindowZoom::Zoom);
    assert_eq!(zoom_or_restore_window(Platform::MacOs, true), WindowZoom::Zoom);
}

#[test]
fn pages_with_notes_stand_in_for_bookmarks_sorted_by_file() {
    let v = viewer(false);
    let mut on_b = note(1, 4, 1, "b4");
    on_b.path = "/b.pdf".to_string();
    let mut also_b = note(2, 1, 1, "b1");
    also_b.path = "/b.pdf".to_string();
    let notes = vec![on_b, note(3, 2, 1, "a2"), also_b, note(4, 2, 1, "a2 again")];
    let all: Vec<(String, usize)> = v
        .bookmarks_from_notes(BookmarkScope::All, &notes)
        .iter()
        .map(|b| (b.path.clone(), b.page_index))
        .collect();
    assert_eq!(
        all,
        vec![
            ("/a.pdf".to_string(), 2),
            ("/b.pdf".to_string(), 1),
            ("/b.pdf".to_string(), 4)
        ]
    );
    let current = v.bookmarks_from_notes(BookmarkScope::CurrentPdf, &notes);
    assert_eq!(current.len(), 1);
    assert_eq!(current[0].page_index, 2);
    assert_eq!(current[0].created_at_unix_secs, 0);
}

#[test]
fn opening_bookmarks() {
    let mut v = viewer(false);
    v.insert_bookmark(bookmark("/gone.pdf", 1));
    v.insert_bookmark(bookmark("/a.pdf", 3));
    match v.open_bookmark(&bookmark("/gone.pdf", 1), false) {
        BookmarkOpen::Forgotten { changed } => assert!(changed),
        _ => panic!("the file is gone"),
    }
    assert_eq!(v.bookmarks.len(), 1);
    match v.open_bookmark(&bookmark("/a.pdf", 9), true) {
        BookmarkOpen::Switched { bookmark_position, load, selected, position } => {
            assert_eq!(bookmark_position, ("/a.pdf".to_string(), 9));
            assert!(load.is_none());
            assert!(selected);
            assert_eq!(position, Some(("/a.pdf".to_string(), 4)));
        }
        _ => panic!("the file is open"),
    }
    assert_eq!(v.status_page_numbers(), (5, 5));
    match v.open_bookmark(&bookmark("/c.pdf", 2), true) {
        BookmarkOpen::Opened { bookmark_position, open: RecentOpen::Opened(load) } => {
            assert_eq!(bookmark_position, ("/c.pdf".to_string(), 2));
            assert_eq!(load.path, "/c.pdf");
        }
        _ => panic!("the file is read into a new tab"),
    }
    assert!(!v.bookmark_popup.open);
}

#[test]
fn bookmark_popup_scope_and_notes_list() {
    let mut v = viewer(false);
    assert!(v.set_bookmark_scope(BookmarkScope::All));
    assert!(!v.set_bookmark_scope(BookmarkScope::All));
    let update = v.set_bookmark_popup_trigger_hovered(true);
    assert!(update.redraw);
    assert!(v.bookmark_popup.open);
    let leave = v.set_bookmark_popup_trigger_hovered(false);
    let epoch = leave.close_check_epoch.expect("a close check is due");
    assert!(v.bookmark_popup_close_check(epoch));
    assert!(!v.bookmark_popup.open);
    v.toggle_bookmark_notes_list(&bookmark("/a.pdf", 2));
    assert_eq!(v.bookmark_popup.expanded_notes, Some(("/a.pdf".to_string(), 2)));
    v.toggle_bookmark_notes_list(&bookmark("/a.pdf", 2));
    assert_eq!(v.bookmark_popup.expanded_notes, None);
}

#[test]
fn free_note_ids_and_the_end_of_the_range() {
    let mut v = viewer(false);
    assert_eq!(v.free_markdown_note_id(5), Some(5000));
    v.upsert_markdown_note(note(5000, 0, 1, "a"));
    assert_eq!(v.free_markdown_note_id(5), Some(5001));
    v.upsert_markdown_note(note(u64::MAX, 0, 1, "last"));
    assert_eq!(v.free_markdown_note_id(u64::MAX / 1000 + 1), None);
    assert_eq!(v.free_markdown_note_id(u64::MAX / 1000), Some(u64::MAX / 1000 * 1000));
}

#[test]
fn pages_with_notes_compare_paths_by_component() {
    let v = viewer(false);
    let mut first = note(1, 3, 1, "x");
    first.path = "/docs/b.pdf".to_string();
    let mut second = note(2, 3, 1, "y");
    second.path = "/docs//b.pdf/".to_string();
    let mut third = note(3, 1, 1, "z");
    third.path = "/docs/./b.pdf".to_string();
    let pages: Vec<(String, usize)> = v
        .bookmarks_from_notes(BookmarkScope::All, &[first, second, third])
        .iter()
        .map(|b| (b.path.clone(), b.page_index))
        .collect();
    assert_eq!(pages, vec![("/docs/./b.pdf".to_string(), 1), ("/docs/b.pdf".to_string(), 3)]);
}
