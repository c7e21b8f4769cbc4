//! Plain data of the viewer session: drag state, popups, bookmarks, notes,
//! preferences.

use vstd::prelude::*;

verus! {

/// Where a tab drag stands.
#[derive(Clone, Copy, Debug, PartialEq, Eq, Structural)]
pub enum DragState {
    /// No tab is being dragged.
    Idle,
    Started { source_tab_id: usize },
    Over { source_tab_id: usize, target_tab_id: usize },
}

/// The button that the recent-files popup hangs from.
#[derive(Clone, Copy, Debug, PartialEq, Eq, Structural)]
pub enum RecentPopupAnchor {
    OpenButton,
    TabAddButton,
}

/// A choice in the native tab menu.
#[derive(Clone, Copy, Debug, PartialEq, Eq, Structural)]
pub enum MacTabContextMenuAction {
    CloseAllTabs,
    CloseOtherTabs,
    RevealInFinder,
}

/// The number by which the native menu reports a choice.
pub open spec fn menu_action_code(action: MacTabContextMenuAction) -> i32 {
    match action {
        MacTabContextMenuAction::CloseAllTabs => 1,
        MacTabContextMenuAction::CloseOtherTabs => 2,
        MacTabContextMenuAction::RevealInFinder => 3,
    }
}

impl MacTabContextMenuAction {
    /// The number the native menu reports for this choice.
    pub fn code(self) -> (r: i32)
        ensures
            r == menu_action_code(self),
    {
        match self {
            MacTabContextMenuAction::CloseAllTabs => 1,
            MacTabContextMenuAction::CloseOtherTabs => 2,
            MacTabContextMenuAction::RevealInFinder => 3,
        }
    }

    /// The choice a reported number stands for; none for any other number
    /// (0 means the menu was dismissed).
    pub fn from_code(code: i32) -> (r: Option<MacTabContextMenuAction>)
        ensures
            match r {
                Some(a) => menu_action_code(a) == code,
                None => code != 1 && code != 2 && code != 3,
            },
    {
        if code == 1 {
            Some(MacTabContextMenuAction::CloseAllTabs)
        } else if code == 2 {
            Some(MacTabContextMenuAction::CloseOtherTabs)
        } else if code == 3 {
            Some(MacTabContextMenuAction::RevealInFinder)
        } else {
            None
        }
    }
}

/// A choice survives being reported as a number.
pub proof fn lemma_menu_action_code_round_trip(action: MacTabContextMenuAction)
    ensures
        menu_action_code(action) == 1 || menu_action_code(action) == 2 || menu_action_code(action)
            == 3,
        forall|b: MacTabContextMenuAction| menu_action_code(b) == menu_action_code(action) ==> b
            == action,
{
}

/// A bookmarked page of a file.
#[derive(Debug)]
pub struct BookmarkEntry {
    pub path: String,
    pub page_index: usize,
    pub created_at_unix_secs: u64,
}

impl Clone for BookmarkEntry {
    fn clone(&self) -> (r: Self)
        ensures
            r == *self,
    {
        BookmarkEntry {
            path: self.path.clone(),
            page_index: self.page_index,
            created_at_unix_secs: self.created_at_unix_secs,
        }
    }
}

/// A bookmark as plain values.
pub struct BookmarkView {
    pub path: Seq<char>,
    pub page_index: usize,
    pub created_at_unix_secs: u64,
}

impl View for BookmarkEntry {
    type V = BookmarkView;

    open spec fn view(&self) -> BookmarkView {
        BookmarkView {
            path: self.path@,
            page_index: self.page_index,
            created_at_unix_secs: self.created_at_unix_secs,
        }
    }
}

/// Which bookmarks the popup lists.
#[derive(Clone, Copy, Debug, PartialEq, Eq, Structural)]
pub enum BookmarkScope {
    CurrentPdf,
    All,
}

/// The interface language chosen in the settings.
#[derive(Clone, Copy, Debug, PartialEq, Eq, Structural)]
pub enum LanguagePreference {
    System,
    ZhCn,
    EnUs,
}

impl Default for LanguagePreference {
    fn default() -> (r: Self)
        ensures
            r == LanguagePreference::System,
    {
        LanguagePreference::System
    }
}

/// Light or dark appearance.
#[derive(Clone, Copy, Debug, PartialEq, Eq, Structural)]
pub enum ThemeMode {
    Light,
    Dark,
}

/// A note attached to a position on a page. Its anchor position and any
/// highlighted rectangles stay with the caller, filed under the note's id.
#[derive(Debug)]
pub struct MarkdownNoteEntry {
    pub id: u64,
    pub path: String,
    pub page_index: usize,
    pub markdown: String,
    pub created_at_unix_secs: u64,
    pub updated_at_unix_secs: u64,
    pub selected_text: String,
}

impl Clone for MarkdownNoteEntry {
    fn clone(&self) -> (r: Self)
        ensures
            r == *self,
    {
        MarkdownNoteEntry {
            id: self.id,
            path: self.path.clone(),
            page_index: self.page_index,
            markdown: self.markdown.clone(),
            created_at_unix_secs: self.created_at_unix_secs,
            updated_at_unix_secs: self.updated_at_unix_secs,
            selected_text: self.selected_text.clone(),
        }
    }
}

/// How selected text is marked up.
#[derive(Clone, Copy, Debug, PartialEq, Eq, Structural)]
pub enum TextMarkupKind {
    Highlight,
    Underline,
}

/// Colour of a text markup.
#[derive(Clone, Copy, Debug, PartialEq, Eq, Structural)]
pub enum TextMarkupColor {
    Yellow,
    Green,
    Blue,
    Pink,
}

impl Default for TextMarkupColor {
    fn default() -> (r: Self)
        ensures
            r == TextMarkupColor::Yellow,
    {
        TextMarkupColor::Yellow
    }
}

/// Selected text marked up on a page. The rectangles it covers stay with the
/// caller, filed under the markup's id; the library keeps how many there are.
#[derive(Debug)]
pub struct TextMarkupEntry {
    pub id: u64,
    pub path: String,
    pub page_index: usize,
    pub kind: TextMarkupKind,
    pub color: TextMarkupColor,
    pub selected_text: String,
    pub rect_count: usize,
    pub created_at_unix_secs: u64,
    pub updated_at_unix_secs: u64,
}

impl Clone for TextMarkupEntry {
    fn clone(&self) -> (r: Self)
        ensures
            r == *self,
    {
        TextMarkupEntry {
            id: self.id,
            path: self.path.clone(),
            page_index: self.page_index,
            kind: self.kind,
            color: self.color,
            selected_text: self.selected_text.clone(),
            rect_count: self.rect_count,
            created_at_unix_secs: self.created_at_unix_secs,
            updated_at_unix_secs: self.updated_at_unix_secs,
        }
    }
}

/// What the update check shows.
#[derive(Clone, Debug)]
pub enum UpdaterUiState {
    Idle,
    Checking,
    UpToDate { latest_version: String },
    Available { latest_version: String, download_url: String },
    Error { message: String },
}

/// Which groups of controls the title bar shows.
#[derive(Clone, Copy, Debug, PartialEq, Eq, Structural)]
pub struct TitleBarVisibilityPreferences {
    pub show_navigation: bool,
    pub show_zoom: bool,
}

impl Default for TitleBarVisibilityPreferences {
    fn default() -> (r: Self)
        ensures
            r.show_navigation,
            r.show_zoom,
    {
        TitleBarVisibilityPreferences { show_navigation: true, show_zoom: true }
    }
}

/// Whether tabs run along the top or down the side.
#[derive(Clone, Copy, Debug, PartialEq, Eq, Structural)]
pub enum TabLayoutMode {
    Horizontal,
    Vertical,
}

impl Default for TabLayoutMode {
    fn default() -> (r: Self)
        ensures
            r == TabLayoutMode::Horizontal,
    {
        TabLayoutMode::Horizontal
    }
}

} // verus!
