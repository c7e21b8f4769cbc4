use kpdf::rendering::RenderKind;
use kpdf::tab::PageSummary;
use kpdf::types::{LanguagePreference, ThemeMode, TitleBarVisibilityPreferences};
use kpdf::viewer::{PdfViewer, Preferences};

fn prefs() -> Preferences {
    Preferences {
        titlebar: TitleBarVisibilityPreferences::default(),
        theme_mode: ThemeMode::Light,
        light_theme_name: None,
        dark_theme_name: None,
        language: LanguagePreference::System,
    }
}

/// A viewer showing `/a.pdf`, read, with `n` pages.
fn viewer(n: usize) -> PdfViewer {
    let (mut v, _) = PdfViewer::new(
        Vec::new(),
        Vec::new(),
        Vec::new(),
        vec!["/a.pdf".to_string()],
        vec![true],
        None,
        prefs(),
    );
    let pages: Vec<PageSummary> = (0..n).map(PageSummary::new).collect();
    v.finish_tab_load(1, &"/a.pdf".to_string(), Some(pages), None, false);
    v
}

fn active_pages(v: &PdfViewer) -> Vec<PageSummary> {
    v.tab_bar.get_active_tab().expect("a tab is active").pages.clone()
}

#[test]
fn batches_take_needed_pages_once_up_to_the_size() {
    let mut v = viewer(6);
    let req = v
        .request_render_load_from_candidates(RenderKind::Display, vec![4, 4, 9, 1, 2, 3], 300, 2, 2)
        .expect("pages need rendering");
    assert_eq!(req.pages, vec![4, 1]);
    assert_eq!(req.tab_id, 1);
    assert_eq!(req.path, "/a.pdf");
    assert_eq!(req.target_width, 300);
    let t = v.tab_bar.get_active_tab().expect("a tab is active");
    assert_eq!(t.display_inflight_tasks, 1);
    assert!(t.display_loading.contains(&4) && t.display_loading.contains(&1));
}

#[test]
fn no_batch_while_too_many_are_in_flight() {
    let mut v = viewer(4);
    assert!(v.request_render_load_from_candidates(RenderKind::Thumbnail, vec![0], 100, 1, 4).is_some());
    assert!(v.request_render_load_from_candidates(RenderKind::Thumbnail, vec![1], 100, 1, 4).is_none());
    assert!(v.request_render_load_from_candidates(RenderKind::Thumbnail, vec![], 100, 8, 4).is_none());
}

#[test]
fn finished_batches_mark_pages_rendered_or_failed() {
    let mut v = viewer(4);
    let req = v
        .request_render_load_from_candidates(RenderKind::Display, vec![0, 1, 2], 300, 2, 8)
        .expect("pages need rendering");
    assert!(v.finish_render_load(
        RenderKind::Display,
        req.tab_id,
        req.epoch,
        req.pages.clone(),
        300,
        Some(vec![0, 2]),
    ));
    let pages = active_pages(&v);
    assert!(pages[0].display_ready && pages[0].display_render_width == 300);
    assert!(pages[1].display_failed && !pages[1].display_ready);
    assert!(pages[2].display_ready);
    assert!(!pages[3].display_ready && !pages[3].display_failed);
    let t = v.tab_bar.get_active_tab().expect("a tab is active");
    assert_eq!(t.display_inflight_tasks, 0);
    assert!(t.display_loading.is_empty());
    let again = v.request_render_load_from_candidates(RenderKind::Display, vec![0, 1, 2, 3], 300, 2, 8);
    assert_eq!(again.expect("page 3 still needs rendering").pages, vec![3]);
    let wider = v.request_render_load_from_candidates(RenderKind::Display, vec![0], 600, 4, 8);
    assert_eq!(wider.expect("a wider image is needed").pages, vec![0]);
}

#[test]
fn stale_batches_are_ignored() {
    let mut v = viewer(3);
    let req = v
        .request_render_load_from_candidates(RenderKind::Thumbnail, vec![0], 100, 2, 8)
        .expect("pages need rendering");
    assert!(!v.finish_render_load(RenderKind::Thumbnail, req.tab_id, req.epoch + 1, req.pages.clone(), 100, Some(vec![0])));
    assert!(!v.finish_render_load(RenderKind::Thumbnail, 99, req.epoch, req.pages.clone(), 100, Some(vec![0])));
    assert!(!active_pages(&v)[0].thumbnail_ready);
}

#[test]
fn visible_range_requests_its_rows() {
    let mut v = viewer(10);
    let req = v
        .request_render_load_for_visible_range(RenderKind::Display, 3, 6, 200, 2, 8)
        .expect("rows need rendering");
    assert_eq!(req.pages, vec![3, 4, 5]);
    let t = v.tab_bar.get_active_tab().expect("a tab is active");
    assert_eq!(t.last_display_visible_range, Some((3, 6)));
    assert!(v.request_render_load_for_visible_range(RenderKind::Display, 5, 5, 200, 2, 8).is_none());
}

#[test]
fn page_navigation_stays_in_the_document() {
    let mut v = viewer(3);
    assert_eq!(v.status_page_numbers(), (3, 1));
    assert!(!v.prev_page().0);
    let (moved, save) = v.next_page();
    assert!(moved);
    assert_eq!(save, Some(("/a.pdf".to_string(), 1)));
    assert!(v.next_page().0);
    assert!(!v.next_page().0);
    assert_eq!(v.status_page_numbers(), (3, 3));
    assert!(v.prev_page().0);
    assert_eq!(v.status_page_numbers(), (3, 2));
    assert!(!v.select_page(3).0);
    let (moved, save) = v.select_page(0);
    assert!(moved);
    assert_eq!(save, Some(("/a.pdf".to_string(), 0)));
    assert!(v.show_thumbnail_panel());
}

#[test]
fn an_empty_viewer_has_no_page_numbers() {
    let (v, _) = PdfViewer::new(Vec::new(), Vec::new(), Vec::new(), Vec::new(), Vec::new(), None, prefs());
    assert_eq!(v.status_page_numbers(), (0, 0));
    assert!(!v.show_thumbnail_panel());
}

#[test]
fn scroll_sync_settles_on_the_first_row_seen() {
    let mut v = viewer(10);
    assert_eq!(v.on_display_scroll_offset_changed(false), None);
    // The scroll to the first page after reading the document is passed over.
    assert_eq!(v.on_display_scroll_offset_changed(true), None);
    let (tab_id, epoch) = v.on_display_scroll_offset_changed(true).expect("a sync is scheduled");
    v.request_render_load_for_visible_range(RenderKind::Display, 6, 9, 200, 2, 8);
    let (save, page) = v.display_scroll_sync_fired(tab_id, epoch).expect("the sync is current");
    assert_eq!(page, 6);
    assert_eq!(save, Some(("/a.pdf".to_string(), 6)));
    assert_eq!(v.status_page_numbers(), (10, 7));
    assert_eq!(v.display_scroll_sync_fired(tab_id, epoch + 1), None);
}

#[test]
fn a_sync_is_voided_by_a_newer_one() {
    let mut v = viewer(4);
    let (tab_id, first) = v.schedule_thumbnail_sync_after_display_scroll().expect("a tab is active");
    let (_, second) = v.schedule_thumbnail_sync_after_display_scroll().expect("a tab is active");
    assert_ne!(first, second);
    assert_eq!(v.display_scroll_sync_fired(tab_id, first), None);
    assert!(v.display_scroll_sync_fired(tab_id, second).is_some());
}

#[test]
fn scrolling_to_a_selected_page_is_not_synced_back() {
    let mut v = viewer(4);
    assert!(v.select_page(2).0);
    assert_eq!(v.on_display_scroll_offset_changed(true), None);
    assert!(v.on_display_scroll_offset_changed(true).is_some());
}
