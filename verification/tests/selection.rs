use kpdf::interactions::{CursorStyle, TextPointer};
use kpdf::platform::Platform;
use kpdf::tab::PageSummary;
use kpdf::text_selection::{
    copy_to_clipboard, ClipboardError, ClipboardPlan, PageTextCache, TextSelection,
    TextSelectionManager,
};
use kpdf::types::{LanguagePreference, ThemeMode, TitleBarVisibilityPreferences};
use kpdf::viewer::{PdfViewer, Preferences};

fn prefs() -> Preferences {
    Preferences {
        titlebar: TitleBarVisibilityPreferences::default(),
        theme_mode: ThemeMode::Light,
        light_theme_name: None,
        dark_theme_name: None,
        language: LanguagePreference::System,
    }
}

fn chars(text: &str) -> Vec<String> {
    text.chars().map(|c| c.to_string()).collect()
}

/// A viewer with one file of three pages, read, and the text of page 0 known.
fn viewer_with_text(text: &str) -> PdfViewer {
    let (mut v, _) = PdfViewer::new(
        Vec::new(),
        Vec::new(),
        Vec::new(),
        vec!["/a.pdf".to_string()],
        vec![true],
        None,
        prefs(),
    );
    let pages: Vec<PageSummary> = (0..3).map(PageSummary::new).collect();
    v.finish_tab_load(1, &"/a.pdf".to_string(), Some(pages), None, false);
    let tab = v.tab_bar.get_active_tab_mut().expect("a tab is active");
    tab.text_selection_manager.load_cached_text(0, chars(text));
    v
}

#[test]
fn selection_orders_its_ends() {
    let s = TextSelection::new(2, 9, 4);
    assert_eq!(s.page_index, 2);
    assert_eq!(s.start_char_index, 4);
    assert_eq!(s.end_char_index, 9);
    assert_eq!(s.char_count(), 5);
    assert!(!s.is_empty());
    assert!(TextSelection::new(0, 3, 3).is_empty());
    let backwards = TextSelection { page_index: 0, start_char_index: 5, end_char_index: 2 };
    assert_eq!(backwards.char_count(), 0);
}

#[test]
fn page_text_is_joined_and_clamped() {
    let cache = PageTextCache { page_index: 0, chars: chars("hello") };
    assert_eq!(cache.get_text(&TextSelection::new(0, 1, 4)), "ell");
    assert_eq!(cache.get_text(&TextSelection::new(0, 3, 40)), "lo");
    assert_eq!(cache.get_text(&TextSelection::new(0, 10, 20)), "");
}

#[test]
fn manager_selects_by_dragging() {
    let mut m = TextSelectionManager::new();
    m.load_cached_text(1, chars("abcdef"));
    m.start_selection(1, 4);
    assert!(m.is_selecting());
    m.update_selection(1, 1);
    assert_eq!(m.get_current_selection(), Some(&TextSelection::new(1, 1, 4)));
    m.update_selection(2, 0);
    assert_eq!(m.get_current_selection(), Some(&TextSelection::new(1, 1, 4)));
    m.end_selection();
    assert!(!m.is_selecting());
    assert_eq!(m.get_selected_text(), Some("bcd".to_string()));
    m.clear_selection();
    assert_eq!(m.get_selected_text(), None);
}

#[test]
fn manager_gives_no_text_for_uncached_or_empty_selection() {
    let mut m = TextSelectionManager::new();
    m.start_selection(0, 0);
    m.update_selection(0, 3);
    assert_eq!(m.get_selected_text(), None);
    m.load_cached_text(0, chars("xyz"));
    assert_eq!(m.get_selected_text(), Some("xyz".to_string()));
    m.start_selection(0, 2);
    assert_eq!(m.get_selected_text(), None);
    m.clear_cache();
    assert!(m.get_page_cache(0).is_none());
}

#[test]
fn select_all_copies_the_whole_page() {
    let mut v = viewer_with_text("Hello PDF");
    assert!(!v.has_text_selection());
    assert!(v.select_all_text());
    assert!(v.has_text_selection());
    assert_eq!(v.copy_selected_text(), Some("Hello PDF".to_string()));
    v.clear_text_selection();
    assert_eq!(v.copy_selected_text(), None);
}

#[test]
fn select_all_needs_known_text() {
    let mut v = viewer_with_text("");
    assert!(!v.select_all_text());
    let (mut fresh, _) =
        PdfViewer::new(Vec::new(), Vec::new(), Vec::new(), Vec::new(), Vec::new(), None, prefs());
    assert!(!fresh.select_all_text());
}

#[test]
fn mouse_drag_selects_text() {
    let mut v = viewer_with_text("abcdef");
    let down = TextPointer { over_text: true, nearest_char: Some(1), char_under: Some(1) };
    v.handle_text_mouse_down(0, Some(down));
    let moved = TextPointer { over_text: true, nearest_char: Some(4), char_under: Some(4) };
    v.handle_text_mouse_move(0, None, Some(moved));
    v.handle_text_mouse_up();
    assert_eq!(v.copy_selected_text(), Some("bcd".to_string()));
    assert!(v.page_text_loaded(0));
    assert!(!v.page_text_loaded(1));
}

#[test]
fn cursor_shows_text_under_the_pointer() {
    let mut v = viewer_with_text("abc");
    assert_eq!(v.text_cursor_style_for_page(0), CursorStyle::Arrow);
    assert!(v.set_text_hover_hit(0, true));
    assert_eq!(v.text_cursor_style_for_page(0), CursorStyle::IBeam);
    assert_eq!(v.text_cursor_style_for_page(1), CursorStyle::Arrow);
    assert!(!v.set_text_hover_hit(0, true));
}

fn program_and_args(plan_cmd: &kpdf::text_selection::ShellCommand) -> (String, Vec<String>) {
    (plan_cmd.program.clone(), plan_cmd.args.clone())
}

#[test]
fn clipboard_plans_per_platform() {
    match copy_to_clipboard(Platform::MacOs, "hi") {
        Ok(ClipboardPlan::Piped { source, sinks }) => {
            assert_eq!(program_and_args(&source), ("printf".to_string(), vec!["%s".to_string(), "hi".to_string()]));
            assert_eq!(sinks.len(), 1);
            assert_eq!(sinks[0].program, "pbcopy");
        }
        _ => panic!("a pipe into pbcopy was expected"),
    }
    match copy_to_clipboard(Platform::Linux, "hi") {
        Ok(ClipboardPlan::Piped { sinks, .. }) => {
            assert_eq!(
                program_and_args(&sinks[0]),
                ("xclip".to_string(), vec!["-selection".to_string(), "clipboard".to_string()])
            );
            assert_eq!(sinks[1].program, "wl-copy");
        }
        _ => panic!("a pipe into xclip was expected"),
    }
    match copy_to_clipboard(Platform::Windows, "it's") {
        Ok(ClipboardPlan::Single(c)) => {
            assert_eq!(c.program, "powershell");
            assert_eq!(c.args, vec!["-command".to_string(), "Set-Clipboard -Value 'it''s'".to_string()]);
        }
        _ => panic!("a PowerShell command was expected"),
    }
    assert!(matches!(copy_to_clipboard(Platform::Other, "hi"), Err(ClipboardError::Unsupported)));
}

#[test]
fn clipboard_text_that_looks_like_an_option_is_copied_as_it_is() {
    match copy_to_clipboard(Platform::Linux, "-e") {
        Ok(ClipboardPlan::Piped { source, .. }) => {
            assert_eq!(program_and_args(&source), ("printf".to_string(), vec!["%s".to_string(), "-e".to_string()]));
        }
        _ => panic!("a pipe was expected"),
    }
}

#[test]
fn clipboard_is_unsupported_on_other_unixes() {
    match copy_to_clipboard(Platform::OtherUnix, "hi") {
        Err(e) => {
            assert_eq!(e, ClipboardError::Unsupported);
            assert_eq!(e.message(), "Clipboard not supported on this platform");
        }
        Ok(_) => panic!("no clipboard tool is known there"),
    }
}
