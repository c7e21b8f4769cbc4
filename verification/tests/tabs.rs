use kpdf::keys::KeyCommand;
use kpdf::store::{load_open_tabs_from_store, open_tabs_store_record};
use kpdf::tab::{normalize_paths, sort_pages_by_index, PageSummary, TabBar};
use kpdf::platform::Platform;
use kpdf::tab_actions::{RecentOpen, TabLoadOutcome, TabMenu, TabMenuEffect};
use kpdf::types::MacTabContextMenuAction;
use kpdf::types::{LanguagePreference, ThemeMode, TitleBarVisibilityPreferences};
use kpdf::viewer::{PdfViewer, Preferences};

fn prefs() -> Preferences {
    Preferences {
        titlebar: TitleBarVisibilityPreferences::default(),
        theme_mode: ThemeMode::Light,
        light_theme_name: None,
        dark_theme_name: None,
        language: LanguagePreference::System,
    }
}

fn viewer_with(paths: &[&str], active: Option<usize>) -> PdfViewer {
    let saved: Vec<String> = paths.iter().map(|p| p.to_string()).collect();
    let exists = vec![true; saved.len()];
    PdfViewer::new(Vec::new(), Vec::new(), Vec::new(), saved, exists, active, prefs()).0
}

fn pages(n: usize) -> Vec<PageSummary> {
    (0..n).map(PageSummary::new).collect()
}

fn tab_paths(v: &PdfViewer) -> Vec<Option<String>> {
    v.tab_bar.tabs().iter().map(|t| t.path.clone()).collect()
}

fn active_path(v: &PdfViewer) -> Option<String> {
    let id = v.tab_bar.active_tab_id()?;
    v.tab_bar.tabs().iter().find(|t| t.id == id).and_then(|t| t.path.clone())
}

/// Reads the document of every restored tab with `n` pages.
fn load_all(v: &mut PdfViewer, n: usize) {
    let ids: Vec<(usize, String)> = v
        .tab_bar
        .tabs()
        .iter()
        .filter_map(|t| t.path.clone().map(|p| (t.id, p)))
        .collect();
    for (id, path) in ids {
        let outcome = v.finish_tab_load(id, &path, Some(pages(n)), None, false);
        assert!(matches!(outcome, TabLoadOutcome::Loaded { initial_page: 0 }));
    }
}

#[test]
fn tab_bar_creates_tabs_with_fresh_ids() {
    let mut bar = TabBar::new();
    assert!(!bar.has_tabs());
    assert_eq!(bar.create_tab(), 1);
    assert_eq!(bar.create_tab_with_path("/docs/a.pdf".to_string(), pages(2)), 2);
    assert_eq!(bar.tab_count(), 2);
    assert_eq!(bar.active_tab_id(), Some(2));
    assert_eq!(bar.next_tab_id(), 3);
    assert_eq!(bar.get_tab_index_by_id(2), Some(1));
    assert_eq!(bar.get_tab_index_by_id(7), None);
}

#[test]
fn closing_the_active_tab_activates_its_neighbour() {
    let mut bar = TabBar::new();
    bar.create_tab();
    bar.create_tab();
    bar.create_tab();
    assert!(bar.switch_to_tab(2));
    assert!(bar.close_tab(2));
    assert_eq!(bar.active_tab_id(), Some(3));
    assert!(bar.close_tab(3));
    assert_eq!(bar.active_tab_id(), Some(1));
    assert!(!bar.close_tab(3));
    assert!(bar.close_tab(1));
    assert_eq!(bar.active_tab_id(), None);
    assert!(!bar.switch_to_tab(1));
}

#[test]
fn closing_an_inactive_tab_keeps_the_active_one() {
    let mut bar = TabBar::new();
    bar.create_tab();
    bar.create_tab();
    bar.create_tab();
    assert!(bar.close_tab(1));
    assert_eq!(bar.active_tab_id(), Some(3));
}

#[test]
fn moving_a_tab_and_back_restores_the_order() {
    let mut bar = TabBar::new();
    for _ in 0..4 {
        bar.create_tab();
    }
    bar.move_tab(0, 2);
    let ids: Vec<usize> = bar.tabs().iter().map(|t| t.id).collect();
    assert_eq!(ids, vec![2, 3, 1, 4]);
    assert_eq!(bar.active_tab_id(), Some(4));
    bar.move_tab(2, 0);
    let ids: Vec<usize> = bar.tabs().iter().map(|t| t.id).collect();
    assert_eq!(ids, vec![1, 2, 3, 4]);
}

#[test]
fn file_names_and_page_order() {
    let label = |path: &str| {
        let mut bar = TabBar::new();
        bar.create_tab_with_path(path.to_string(), Vec::new());
        bar.tabs()[0].file_name()
    };
    assert_eq!(label("/docs/reports/a.pdf"), "a.pdf");
    assert_eq!(label("/docs/dir/"), "dir");
    assert_eq!(label("/docs/b.pdf/."), "b.pdf");
    assert_eq!(label("/docs/.."), "Unknown");
    assert_eq!(label("plain.pdf"), "plain.pdf");
    let mut bar = TabBar::new();
    bar.create_tab();
    assert_eq!(bar.tabs()[0].file_name(), "Untitled");
    let shuffled = vec![PageSummary::new(2), PageSummary::new(0), PageSummary::new(1)];
    let sorted: Vec<usize> = sort_pages_by_index(shuffled).iter().map(|p| p.index).collect();
    assert_eq!(sorted, vec![0, 1, 2]);
}

#[test]
fn session_restores_saved_tabs_and_active_one() {
    let saved = vec!["/a.pdf".to_string(), "/b.pdf".to_string(), "/c.pdf".to_string()];
    let (v, to_load) =
        PdfViewer::new(Vec::new(), Vec::new(), Vec::new(), saved.clone(), vec![true; 3], Some(1), prefs());
    assert_eq!(tab_paths(&v), saved.iter().cloned().map(Some).collect::<Vec<_>>());
    assert_eq!(active_path(&v), Some("/b.pdf".to_string()));
    assert_eq!(to_load, Some((2, "/b.pdf".to_string())));

    let clamped = viewer_with(&["/a.pdf", "/b.pdf"], Some(9));
    assert_eq!(active_path(&clamped), Some("/b.pdf".to_string()));
    let unsaved = viewer_with(&["/a.pdf", "/b.pdf"], None);
    assert_eq!(active_path(&unsaved), Some("/b.pdf".to_string()));
    let empty = viewer_with(&[], None);
    assert_eq!(empty.tab_bar.tab_count(), 1);
    assert_eq!(tab_paths(&empty), vec![None]);
}

#[test]
fn stored_open_tabs_come_back_after_restart() {
    let v = viewer_with(&["/a.pdf", "/b.pdf", "/c.pdf"], Some(2));
    let record = open_tabs_store_record(&v.tab_bar);
    let (paths, active) = load_open_tabs_from_store(
        &record.entries,
        record.active_index.as_ref().map(|b| b.as_slice()),
    );
    assert_eq!(paths, vec!["/a.pdf".to_string(), "/b.pdf".to_string(), "/c.pdf".to_string()]);
    assert_eq!(active, Some(2));
    let restored = viewer_with(&["/a.pdf", "/b.pdf", "/c.pdf"], active);
    assert_eq!(active_path(&restored), Some("/c.pdf".to_string()));
}

#[test]
fn closing_the_last_tab_leaves_an_empty_one() {
    let mut v = viewer_with(&["/a.pdf"], None);
    load_all(&mut v, 3);
    let closed = v.close_current_tab().expect("a tab was active");
    assert_eq!(closed.saved_positions, vec![("/a.pdf".to_string(), 0)]);
    assert!(closed.load.is_none());
    assert_eq!(v.tab_bar.tab_count(), 1);
    assert_eq!(tab_paths(&v), vec![None]);
    assert_eq!(v.tab_bar.active_tab_id(), Some(2));
}

#[test]
fn closing_all_and_other_tabs() {
    let mut v = viewer_with(&["/a.pdf", "/b.pdf", "/c.pdf"], Some(0));
    load_all(&mut v, 2);
    let closed = v.close_other_tabs(2).expect("tab 2 is open");
    assert_eq!(closed.saved_positions.len(), 2);
    assert_eq!(tab_paths(&v), vec![Some("/b.pdf".to_string())]);
    assert_eq!(v.tab_bar.active_tab_id(), Some(2));
    assert!(v.close_other_tabs(9).is_none());

    let closed = v.close_all_tabs().expect("there were tabs");
    assert_eq!(closed.saved_positions, vec![("/b.pdf".to_string(), 0)]);
    assert_eq!(tab_paths(&v), vec![None]);
}

#[test]
fn closing_a_tab_starts_reading_the_next_active_one() {
    let mut v = viewer_with(&["/a.pdf", "/b.pdf"], Some(0));
    let closed = v.close_current_tab().expect("a tab was active");
    let load = closed.load.expect("the next tab still has to be read");
    assert_eq!(load.tab_id, 2);
    assert_eq!(load.path, "/b.pdf");
}

#[test]
fn switching_by_offset_wraps_and_comes_back() {
    let mut v = viewer_with(&["/a.pdf", "/b.pdf", "/c.pdf"], Some(2));
    load_all(&mut v, 1);
    let (switched, load) = v.switch_visible_tab_by_offset(1);
    assert!(switched);
    assert!(load.is_none());
    assert_eq!(active_path(&v), Some("/a.pdf".to_string()));
    v.switch_visible_tab_by_offset(-1);
    assert_eq!(active_path(&v), Some("/c.pdf".to_string()));
    v.switch_visible_tab_by_offset(-4);
    assert_eq!(active_path(&v), Some("/b.pdf".to_string()));
}

#[test]
fn switching_by_offset_needs_two_tabs() {
    let mut v = viewer_with(&["/a.pdf"], None);
    let (switched, load) = v.switch_visible_tab_by_offset(1);
    assert!(!switched);
    assert!(load.is_none());
}

#[test]
fn digit_keys_pick_shown_tabs_and_nine_the_last() {
    let mut v = viewer_with(&["/a.pdf", "/b.pdf", "/c.pdf"], Some(0));
    load_all(&mut v, 1);
    let nine = v.handle_key_down("9", true, false);
    assert_eq!(nine, KeyCommand::SwitchToVisibleTab(usize::MAX));
    if let KeyCommand::SwitchToVisibleTab(i) = nine {
        assert!(v.switch_to_visible_tab_by_index(i).0);
    }
    assert_eq!(active_path(&v), Some("/c.pdf".to_string()));
    assert_eq!(v.handle_key_down("2", true, false), KeyCommand::SwitchToVisibleTab(1));
    assert!(v.switch_to_visible_tab_by_index(1).0);
    assert_eq!(active_path(&v), Some("/b.pdf".to_string()));
    assert_eq!(v.handle_key_down("2", false, false), KeyCommand::Ignored);
}

#[test]
fn empty_start_tab_is_hidden_once_a_file_is_open() {
    let mut v = viewer_with(&[], None);
    assert_eq!(v.visible_tab_ids(), vec![1]);
    let load = v.open_pdf_path_in_new_tab("/a.pdf".to_string());
    assert_eq!(load.tab_id, 2);
    assert!(load.remember_recent_file);
    assert_eq!(v.visible_tab_ids(), vec![2]);
}

#[test]
fn finishing_a_read_restores_the_saved_page() {
    let mut v = viewer_with(&["/a.pdf"], None);
    let outcome = v.finish_tab_load(1, &"/a.pdf".to_string(), Some(pages(5)), Some(3), true);
    assert!(matches!(outcome, TabLoadOutcome::Loaded { initial_page: 3 }));
    assert_eq!(v.recent_files, vec!["/a.pdf".to_string()]);
    let past_end = v.finish_tab_load(1, &"/a.pdf".to_string(), Some(pages(2)), Some(7), false);
    assert!(matches!(past_end, TabLoadOutcome::Loaded { initial_page: 1 }));
    let other = v.finish_tab_load(1, &"/b.pdf".to_string(), Some(pages(2)), None, false);
    assert!(matches!(other, TabLoadOutcome::Superseded));
    let gone = v.finish_tab_load(9, &"/a.pdf".to_string(), None, None, false);
    assert!(matches!(gone, TabLoadOutcome::TabClosed));
    let failed = v.finish_tab_load(1, &"/a.pdf".to_string(), None, None, false);
    assert!(matches!(failed, TabLoadOutcome::Failed));
}

#[test]
fn opening_a_recent_file_that_is_gone_forgets_it() {
    let mut v = viewer_with(&["/a.pdf"], None);
    v.recent_files = vec!["/gone.pdf".to_string(), "/a.pdf".to_string()];
    assert!(matches!(v.open_recent_pdf("/gone.pdf".to_string(), false), RecentOpen::Forgotten));
    assert_eq!(v.recent_files, vec!["/a.pdf".to_string()]);
    assert!(matches!(
        v.open_recent_pdf("/a.pdf".to_string(), true),
        RecentOpen::Switched { .. }
    ));
    assert!(matches!(v.open_recent_pdf("/z.pdf".to_string(), true), RecentOpen::Opened(_)));
    assert_eq!(v.tab_bar.tab_count(), 2);
}

#[test]
fn the_last_page_read_comes_back_when_the_file_is_read_again() {
    let mut v = viewer_with(&["/a.pdf"], None);
    load_all(&mut v, 6);
    assert!(v.select_page(4).0);
    let saved = v.save_tab_position_if_needed(1).expect("the tab shows a read file");
    assert_eq!(saved, ("/a.pdf".to_string(), 4));
    let stored = kpdf::store::encode_file_position(saved.1);
    let restored = kpdf::store::decode_file_position(&stored);
    let mut again = viewer_with(&["/a.pdf"], None);
    let outcome = again.finish_tab_load(1, &"/a.pdf".to_string(), Some(pages(6)), restored, false);
    assert!(matches!(outcome, TabLoadOutcome::Loaded { initial_page: 4 }));
    assert_eq!(again.status_page_numbers(), (6, 5));
}

#[test]
fn dragging_a_tab_onto_another_moves_it_there() {
    let mut v = viewer_with(&["/a.pdf", "/b.pdf", "/c.pdf"], Some(0));
    load_all(&mut v, 1);
    assert!(v.press_tab(1));
    assert!(!v.maybe_start_pending_tab_drag(false));
    let moved = v.update_drag_mouse_position(true, true);
    assert!(moved.started);
    assert_eq!(moved.source_tab_id, Some(1));
    assert!(v.drag_in_progress());
    assert!(v.drag_over_tab(3));
    assert!(!v.drag_over_tab(3));
    assert_eq!(v.drag_insertion_index(), Some(2));
    assert_eq!(v.finish_tab_drag(), (true, true));
    assert!(!v.drag_in_progress());
    assert_eq!(tab_paths(&v), vec![Some("/b.pdf".to_string()), Some("/c.pdf".to_string()), Some("/a.pdf".to_string())]);
    assert_eq!(active_path(&v), Some("/a.pdf".to_string()));
}

#[test]
fn leaving_the_tab_bar_drops_the_drop_target() {
    let mut v = viewer_with(&["/a.pdf", "/b.pdf"], Some(0));
    v.press_tab(1);
    v.update_drag_mouse_position(true, true);
    v.drag_over_tab(2);
    let left = v.update_drag_mouse_position(true, false);
    assert!(left.target_cleared);
    assert_eq!(v.finish_tab_drag(), (true, false));
    assert_eq!(tab_paths(&v), vec![Some("/a.pdf".to_string()), Some("/b.pdf".to_string())]);
    assert!(!v.press_tab(9));
}

#[test]
fn tab_bar_items_describe_the_shown_tabs() {
    let mut v = viewer_with(&["/docs/a.pdf", "/docs/b.pdf"], Some(1));
    v.set_tab_hovered(1, true);
    let items = v.tab_bar_items();
    assert_eq!(items.len(), 2);
    assert_eq!(items[0].label, "a.pdf");
    assert!(!items[0].is_active && items[0].show_close_button);
    assert!(items[1].is_active && items[1].show_close_button);
    assert!(!items[0].is_home);
    let empty = viewer_with(&[], None);
    let items = empty.tab_bar_items();
    assert_eq!(items[0].label, "Untitled");
    assert!(items[0].is_home);
}

#[test]
fn tab_context_menus_per_platform() {
    let mut v = viewer_with(&["/a.pdf", "/b.pdf"], Some(0));
    assert!(matches!(
        v.open_tab_context_menu(1, Platform::MacOs),
        TabMenu::Native { can_close_others: true, can_reveal: true }
    ));
    assert!(matches!(v.open_tab_context_menu(1, Platform::Linux), TabMenu::InWindow));
    assert!(v.context_menu.open);
    assert_eq!(v.context_menu.tab_id, Some(1));
    assert!(v.close_context_menu());
    assert!(!v.close_context_menu());
    assert!(matches!(v.open_tab_context_menu(9, Platform::Linux), TabMenu::Ignored));
    match v.apply_tab_menu_action(2, MacTabContextMenuAction::RevealInFinder) {
        TabMenuEffect::Reveal(p) => assert_eq!(p, Some("/b.pdf".to_string())),
        TabMenuEffect::Closed(_) => panic!("revealing closes nothing"),
    }
    assert!(matches!(
        v.apply_tab_menu_action(2, MacTabContextMenuAction::CloseOtherTabs),
        TabMenuEffect::Closed(Some(_))
    ));
    assert_eq!(tab_paths(&v), vec![Some("/b.pdf".to_string())]);
    assert!(matches!(
        v.apply_tab_menu_action(2, MacTabContextMenuAction::CloseAllTabs),
        TabMenuEffect::Closed(Some(_))
    ));
    assert_eq!(tab_paths(&v), vec![None]);
}

#[test]
fn the_saved_active_tab_comes_back_when_an_earlier_file_is_gone() {
    let saved = vec!["/gone.pdf".to_string(), "/a.pdf".to_string(), "/b.pdf".to_string()];
    let (v, to_load) = PdfViewer::new(
        Vec::new(),
        Vec::new(),
        Vec::new(),
        saved.clone(),
        vec![false, true, true],
        Some(1),
        prefs(),
    );
    assert_eq!(tab_paths(&v), vec![Some("/a.pdf".to_string()), Some("/b.pdf".to_string())]);
    assert_eq!(active_path(&v), Some("/a.pdf".to_string()));
    assert_eq!(to_load, Some((1, "/a.pdf".to_string())));
    let (gone_active, to_load) =
        PdfViewer::new(Vec::new(), Vec::new(), Vec::new(), saved.clone(), vec![false, true, true], Some(0), prefs());
    assert_eq!(active_path(&gone_active), Some("/a.pdf".to_string()));
    assert_eq!(to_load, Some((1, "/a.pdf".to_string())));
    let (gone_last, _) =
        PdfViewer::new(Vec::new(), Vec::new(), Vec::new(), saved.clone(), vec![true, true, false], Some(2), prefs());
    assert_eq!(active_path(&gone_last), Some("/a.pdf".to_string()));
    let (short_flags, _) =
        PdfViewer::new(Vec::new(), Vec::new(), Vec::new(), saved, vec![true], Some(2), prefs());
    assert_eq!(tab_paths(&short_flags), vec![Some("/gone.pdf".to_string())]);
    let (none_left, to_load) =
        PdfViewer::new(Vec::new(), Vec::new(), Vec::new(), vec!["/x.pdf".to_string()], vec![false], None, prefs());
    assert_eq!(tab_paths(&none_left), vec![None]);
    assert!(to_load.is_none());
}

#[test]
fn new_tab_ids_count_up_from_one_and_never_come_back() {
    let mut bar = TabBar::new();
    assert_eq!(bar.create_tab(), 1);
    assert_eq!(bar.create_tab(), 2);
    assert_eq!(bar.create_tab(), 3);
    assert_eq!(bar.active_tab_id(), Some(3));
    assert_eq!(bar.tab_count(), 3);
    assert!(bar.close_tab(3));
    let ids: Vec<usize> = bar.tabs().iter().map(|t| t.id).collect();
    assert_eq!(ids, vec![1, 2]);
    assert_eq!(bar.create_tab(), 4);
    let ids: Vec<usize> = bar.tabs().iter().map(|t| t.id).collect();
    assert_eq!(ids, vec![1, 2, 4]);
    assert!(bar.tabs()[2].path.is_none());
}

#[test]
fn paths_are_rebuilt_from_their_components() {
    let raw = vec!["a/b/".to_string(), "a//b".to_string(), "a/./b".to_string(), "/x/y.pdf".to_string()];
    assert_eq!(normalize_paths(&raw), vec!["a/b", "a/b", "a/b", "/x/y.pdf"]);
}
