//! The viewer's session state and the decisions it makes: which tabs are open
//! and active, recent files, bookmarks and notes, popups, menus, dragging and
//! keyboard shortcuts. Drawing, timers, dialogs and storage happen around it:
//! each operation here says what changed, and the caller redraws, persists or
//! schedules accordingly.

use vstd::prelude::*;

use crate::store::{first_n, MAX_RECENT_FILES};
use crate::tab::{has_tab_id, index_of_id, lemma_index_of_id, PdfTab, TabBar};
use crate::types::{
    BookmarkEntry, BookmarkScope, BookmarkView, DragState, LanguagePreference, MarkdownNoteEntry,
    RecentPopupAnchor, ThemeMode, TitleBarVisibilityPreferences, UpdaterUiState,
};

verus! {

broadcast use vstd::string::group_string_axioms;

/// Paths as plain character sequences.
pub open spec fn paths_view(v: Seq<String>) -> Seq<Seq<char>> {
    v.map_values(|p: String| p@)
}

/// The predicate "is not `x`".
pub open spec fn differs_from(x: Seq<char>) -> spec_fn(Seq<char>) -> bool {
    |p: Seq<char>| p != x
}

/// The recent-files list after opening `path`: it moves to the front, appears
/// once, and the list keeps at most twelve entries.
pub open spec fn recent_after_open(recent: Seq<Seq<char>>, path: Seq<char>) -> Seq<Seq<char>> {
    first_n(seq![path] + recent.filter(differs_from(path)), MAX_RECENT_FILES as int)
}

/// The bookmarks after adding `entry`: it comes first, replacing any bookmark
/// of the same page of the same file.
pub open spec fn bookmarks_after_insert(bookmarks: Seq<BookmarkView>, entry: BookmarkView) -> Seq<
    BookmarkView,
> {
    seq![entry] + bookmarks.filter(other_page(entry.path, entry.page_index))
}

pub open spec fn bookmarks_view(v: Seq<BookmarkEntry>) -> Seq<BookmarkView> {
    v.map_values(|b: BookmarkEntry| b@)
}

/// The predicate "is not a bookmark of page `page` of `path`".
pub open spec fn other_page(path: Seq<char>, page: usize) -> spec_fn(BookmarkView) -> bool {
    |b: BookmarkView| !(b.path == path && b.page_index == page)
}

/// The predicate "is a bookmark of a page of `path`".
pub open spec fn on_file(path: Seq<char>) -> spec_fn(BookmarkView) -> bool {
    |b: BookmarkView| b.path == path
}

/// The predicate "is not a bookmark of a page of `path`".
pub open spec fn not_on_file(path: Seq<char>) -> spec_fn(BookmarkView) -> bool {
    |b: BookmarkView| b.path != path
}

/// The bookmarks a scope lists: all of them, or those of the file in the
/// active tab (none when it shows no file).
pub open spec fn bookmarks_in_scope(
    bookmarks: Seq<BookmarkView>,
    scope: BookmarkScope,
    current: Option<Seq<char>>,
) -> Seq<BookmarkView> {
    match scope {
        BookmarkScope::All => bookmarks,
        BookmarkScope::CurrentPdf => match current {
            Some(p) => bookmarks.filter(on_file(p)),
            None => Seq::empty(),
        },
    }
}

/// The predicate "is a note on page `page` of `path`".
pub open spec fn note_on_page(path: Seq<char>, page: usize) -> spec_fn(MarkdownNoteEntry) -> bool {
    |n: MarkdownNoteEntry| n.path@ == path && n.page_index == page
}

/// The predicate "is not the note with id `id`".
pub open spec fn note_not_id(id: u64) -> spec_fn(MarkdownNoteEntry) -> bool {
    |n: MarkdownNoteEntry| n.id != id
}

/// Whether note `a` may stay before note `b`: notes run from the most
/// recently updated, ties broken by the larger id.
pub open spec fn note_ranks_before_or_with(a: MarkdownNoteEntry, b: MarkdownNoteEntry) -> bool {
    a.updated_at_unix_secs > b.updated_at_unix_secs || (a.updated_at_unix_secs
        == b.updated_at_unix_secs && a.id >= b.id)
}

/// `s` with `x` placed after every note that ranks before or with it.
pub open spec fn insert_note(s: Seq<MarkdownNoteEntry>, x: MarkdownNoteEntry) -> Seq<MarkdownNoteEntry>
    decreases s.len(),
{
    if s.len() == 0 {
        seq![x]
    } else if note_ranks_before_or_with(s.last(), x) {
        s.push(x)
    } else {
        insert_note(s.drop_last(), x).push(s.last())
    }
}

/// The notes ordered most recently updated first (larger id first on ties);
/// notes that compare equal keep their order.
pub open spec fn sort_notes(s: Seq<MarkdownNoteEntry>) -> Seq<MarkdownNoteEntry>
    decreases s.len(),
{
    if s.len() == 0 {
        s
    } else {
        insert_note(sort_notes(s.drop_last()), s.last())
    }
}

/// The note list after saving `note`: it replaces the note with its id (or is
/// added), and the list is ordered most recently updated first.
pub open spec fn notes_after_upsert(notes: Seq<MarkdownNoteEntry>, note: MarkdownNoteEntry) -> Seq<
    MarkdownNoteEntry,
> {
    sort_notes(seq![note] + notes.filter(note_not_id(note.id)))
}

/// The first id a new note may get: the time in milliseconds times a thousand
/// (saturating).
pub open spec fn note_id_start(now_unix_millis: u64) -> u64 {
    if now_unix_millis * 1000 > u64::MAX {
        u64::MAX
    } else {
        (now_unix_millis * 1000) as u64
    }
}

pub open spec fn note_ids(notes: Seq<MarkdownNoteEntry>) -> Seq<u64> {
    notes.map_values(|n: MarkdownNoteEntry| n.id)
}

/// Index of the first `\n`, or the length when there is none.
pub open spec fn newline_index(s: Seq<char>) -> int
    decreases s.len(),
{
    if s.len() == 0 {
        0
    } else if s[0] == '\n' {
        0
    } else {
        1 + newline_index(s.drop_first())
    }
}

/// The first line of the text that is not blank, trimmed; empty when every
/// line is blank.
pub open spec fn first_nonblank_line(s: Seq<char>) -> Seq<char>
    decreases s.len(),
{
    let k = newline_index(s);
    let line = crate::strings::trim(s.take(k));
    if line.len() > 0 {
        line
    } else if k >= s.len() {
        Seq::empty()
    } else {
        proof {
            lemma_newline_index_bounds(s);
        }
        first_nonblank_line(s.skip(k + 1))
    }
}

/// The recent-files popup: whether it is open, what the pointer is over, and
/// the button it hangs from. Each hover change moves the epoch on, so a
/// delayed close that finds another epoch does nothing.
#[derive(Clone, Copy, Debug, PartialEq, Eq, Structural)]
pub struct RecentPopupState {
    pub open: bool,
    pub trigger_hovered: bool,
    pub tab_trigger_hovered: bool,
    pub panel_hovered: bool,
    pub hover_epoch: u64,
    pub anchor: Option<RecentPopupAnchor>,
}

/// The bookmark popup: whether it is open, which bookmarks it lists, what the
/// pointer is over, and the bookmarked page whose notes are unfolded.
#[derive(Debug)]
pub struct BookmarkPopupState {
    pub open: bool,
    pub scope: BookmarkScope,
    pub trigger_hovered: bool,
    pub panel_hovered: bool,
    pub hover_epoch: u64,
    pub expanded_notes: Option<(String, usize)>,
}

/// A dialog shown in a window of its own. Each opening starts a new
/// session, so a close notice from an older window does nothing.
#[derive(Clone, Copy, Debug, PartialEq, Eq, Structural)]
pub struct DialogWindow {
    pub open: bool,
    pub session: u64,
}

/// Which dialogs and panels are open; for the note editor also the page the
/// new note goes on or the note being edited.
#[derive(Clone, Copy, Debug)]
pub struct DialogState {
    pub note_editor: DialogWindow,
    pub note_anchor_page: Option<usize>,
    pub note_edit_id: Option<u64>,
    pub about: DialogWindow,
    pub settings: DialogWindow,
    pub keymap: DialogWindow,
    pub command_panel_open: bool,
}

/// The in-window context menu: whether it is open, and the tab or note it is
/// for (neither for the page menu).
#[derive(Clone, Copy, Debug, PartialEq, Eq, Structural)]
pub struct ContextMenuState {
    pub open: bool,
    pub tab_id: Option<usize>,
    pub note_id: Option<u64>,
}

/// What the pointer is doing: the hovered tab, a tab drag, the tab pressed
/// and not yet dragged far enough to start one, and the `(tab id, page)`
/// whose text it is over.
#[derive(Clone, Copy, Debug)]
pub struct PointerState {
    pub hovered_tab_id: Option<usize>,
    pub drag_state: DragState,
    pub pending_drag_tab_id: Option<usize>,
    pub text_hover_target: Option<(usize, usize)>,
}

/// The user's settings.
#[derive(Debug)]
pub struct Preferences {
    pub titlebar: TitleBarVisibilityPreferences,
    pub theme_mode: ThemeMode,
    /// The chosen light and dark colour themes, by name.
    pub light_theme_name: Option<String>,
    pub dark_theme_name: Option<String>,
    pub language: LanguagePreference,
}

/// The viewer's session state.
pub struct PdfViewer {
    pub tab_bar: TabBar,
    pub recent_files: Vec<String>,
    pub bookmarks: Vec<BookmarkEntry>,
    pub markdown_notes: Vec<MarkdownNoteEntry>,
    pub recent_popup: RecentPopupState,
    pub bookmark_popup: BookmarkPopupState,
    pub dialogs: DialogState,
    pub context_menu: ContextMenuState,
    pub hovered_markdown_note_id: Option<u64>,
    pub pointer: PointerState,
    pub updater_state: UpdaterUiState,
    pub preferences: Preferences,
    /// Moves on with each layout change, so a delayed page restore that
    /// finds another value does nothing.
    pub resize_restore_epoch: u64,
}

impl PdfViewer {
    /// Nothing differs from `other`.
    pub open spec fn unchanged_from(&self, other: &PdfViewer) -> bool {
        &&& self.tab_bar.spec_tabs() == other.tab_bar.spec_tabs()
        &&& self.tab_bar.spec_active_tab_id() == other.tab_bar.spec_active_tab_id()
        &&& self.tab_bar.spec_next_tab_id() == other.tab_bar.spec_next_tab_id()
        &&& self.hovered_markdown_note_id == other.hovered_markdown_note_id
        &&& self.same_besides_tab_bar(other)
    }

    /// The tabs, the session's files, bookmarks and notes, and the hovered
    /// note are as in `other`.
    pub open spec fn same_session(&self, other: &PdfViewer) -> bool {
        &&& self.tab_bar.spec_tabs() == other.tab_bar.spec_tabs()
        &&& self.tab_bar.spec_active_tab_id() == other.tab_bar.spec_active_tab_id()
        &&& self.tab_bar.spec_next_tab_id() == other.tab_bar.spec_next_tab_id()
        &&& self.recent_files == other.recent_files
        &&& self.bookmarks == other.bookmarks
        &&& self.markdown_notes == other.markdown_notes
        &&& self.hovered_markdown_note_id == other.hovered_markdown_note_id
    }

    /// The popups, menus, dialogs and update state are as in `other`.
    pub open spec fn same_ui_state_but_pointer(&self, other: &PdfViewer) -> bool {
        &&& self.recent_popup == other.recent_popup
        &&& self.bookmark_popup == other.bookmark_popup
        &&& self.dialogs == other.dialogs
        &&& self.context_menu == other.context_menu
        &&& self.updater_state == other.updater_state
        &&& self.preferences == other.preferences
        &&& self.resize_restore_epoch == other.resize_restore_epoch
    }

    /// The popups, menus, dialogs, pointer and update state are as in
    /// `other`.
    pub open spec fn same_ui_state_but_epoch(&self, other: &PdfViewer) -> bool {
        &&& self.recent_popup == other.recent_popup
        &&& self.bookmark_popup == other.bookmark_popup
        &&& self.dialogs == other.dialogs
        &&& self.context_menu == other.context_menu
        &&& self.pointer == other.pointer
        &&& self.updater_state == other.updater_state
        &&& self.preferences == other.preferences
    }

    /// Everything but the recent-files popup is as in `other`.
    pub open spec fn same_but_recent_popup(&self, other: &PdfViewer) -> bool {
        &&& self.tab_bar == other.tab_bar
        &&& self.recent_files == other.recent_files
        &&& self.bookmarks == other.bookmarks
        &&& self.markdown_notes == other.markdown_notes
        &&& self.hovered_markdown_note_id == other.hovered_markdown_note_id
        &&& self.bookmark_popup == other.bookmark_popup
        &&& self.dialogs == other.dialogs
        &&& self.context_menu == other.context_menu
        &&& self.pointer == other.pointer
        &&& self.updater_state == other.updater_state
        &&& self.preferences == other.preferences
        &&& self.resize_restore_epoch == other.resize_restore_epoch
    }

    /// Everything but the bookmark popup is as in `other`.
    pub open spec fn same_but_bookmark_popup(&self, other: &PdfViewer) -> bool {
        &&& self.tab_bar == other.tab_bar
        &&& self.recent_files == other.recent_files
        &&& self.bookmarks == other.bookmarks
        &&& self.markdown_notes == other.markdown_notes
        &&& self.hovered_markdown_note_id == other.hovered_markdown_note_id
        &&& self.recent_popup == other.recent_popup
        &&& self.dialogs == other.dialogs
        &&& self.context_menu == other.context_menu
        &&& self.pointer == other.pointer
        &&& self.updater_state == other.updater_state
        &&& self.preferences == other.preferences
        &&& self.resize_restore_epoch == other.resize_restore_epoch
    }

    /// Everything but the bookmarks is as in `other`.
    pub open spec fn same_but_bookmarks(&self, other: &PdfViewer) -> bool {
        &&& self.same_but_bookmark_data(other)
        &&& self.bookmark_popup == other.bookmark_popup
    }

    /// Everything but the bookmarks and the bookmark popup is as in `other`.
    pub open spec fn same_but_bookmark_data(&self, other: &PdfViewer) -> bool {
        &&& self.tab_bar == other.tab_bar
        &&& self.recent_files == other.recent_files
        &&& self.markdown_notes == other.markdown_notes
        &&& self.hovered_markdown_note_id == other.hovered_markdown_note_id
        &&& self.recent_popup == other.recent_popup
        &&& self.dialogs == other.dialogs
        &&& self.context_menu == other.context_menu
        &&& self.pointer == other.pointer
        &&& self.updater_state == other.updater_state
        &&& self.preferences == other.preferences
        &&& self.resize_restore_epoch == other.resize_restore_epoch
    }

    /// Everything but the notes and the hovered note is as in `other`.
    pub open spec fn same_but_notes(&self, other: &PdfViewer) -> bool {
        &&& self.tab_bar == other.tab_bar
        &&& self.recent_files == other.recent_files
        &&& self.bookmarks == other.bookmarks
        &&& self.recent_popup == other.recent_popup
        &&& self.bookmark_popup == other.bookmark_popup
        &&& self.dialogs == other.dialogs
        &&& self.context_menu == other.context_menu
        &&& self.pointer == other.pointer
        &&& self.updater_state == other.updater_state
        &&& self.preferences == other.preferences
        &&& self.resize_restore_epoch == other.resize_restore_epoch
    }

    /// Everything but the dialogs is as in `other`.
    pub open spec fn same_but_dialogs(&self, other: &PdfViewer) -> bool {
        &&& self.tab_bar == other.tab_bar
        &&& self.recent_files == other.recent_files
        &&& self.bookmarks == other.bookmarks
        &&& self.markdown_notes == other.markdown_notes
        &&& self.hovered_markdown_note_id == other.hovered_markdown_note_id
        &&& self.same_ui_state_but_dialogs(other)
    }

    /// The popups, menus, pointer, update state, preferences and layout
    /// epoch are as in `other`.
    pub open spec fn same_ui_state_but_dialogs(&self, other: &PdfViewer) -> bool {
        &&& self.recent_popup == other.recent_popup
        &&& self.bookmark_popup == other.bookmark_popup
        &&& self.context_menu == other.context_menu
        &&& self.pointer == other.pointer
        &&& self.updater_state == other.updater_state
        &&& self.preferences == other.preferences
        &&& self.resize_restore_epoch == other.resize_restore_epoch
    }

    /// Everything but the preferences is as in `other`.
    pub open spec fn same_but_preferences(&self, other: &PdfViewer) -> bool {
        &&& self.tab_bar == other.tab_bar
        &&& self.recent_files == other.recent_files
        &&& self.bookmarks == other.bookmarks
        &&& self.markdown_notes == other.markdown_notes
        &&& self.hovered_markdown_note_id == other.hovered_markdown_note_id
        &&& self.recent_popup == other.recent_popup
        &&& self.bookmark_popup == other.bookmark_popup
        &&& self.dialogs == other.dialogs
        &&& self.context_menu == other.context_menu
        &&& self.pointer == other.pointer
        &&& self.updater_state == other.updater_state
        &&& self.resize_restore_epoch == other.resize_restore_epoch
    }

    /// Everything but the update state is as in `other`.
    pub open spec fn same_but_updater(&self, other: &PdfViewer) -> bool {
        &&& self.tab_bar == other.tab_bar
        &&& self.recent_files == other.recent_files
        &&& self.bookmarks == other.bookmarks
        &&& self.markdown_notes == other.markdown_notes
        &&& self.hovered_markdown_note_id == other.hovered_markdown_note_id
        &&& self.recent_popup == other.recent_popup
        &&& self.bookmark_popup == other.bookmark_popup
        &&& self.dialogs == other.dialogs
        &&& self.context_menu == other.context_menu
        &&& self.pointer == other.pointer
        &&& self.preferences == other.preferences
        &&& self.resize_restore_epoch == other.resize_restore_epoch
    }

    /// Everything but the context menu is as in `other`.
    pub open spec fn same_but_context_menu(&self, other: &PdfViewer) -> bool {
        &&& self.same_session(other)
        &&& self.recent_popup == other.recent_popup
        &&& self.bookmark_popup == other.bookmark_popup
        &&& self.dialogs == other.dialogs
        &&& self.pointer == other.pointer
        &&& self.updater_state == other.updater_state
        &&& self.preferences == other.preferences
        &&& self.resize_restore_epoch == other.resize_restore_epoch
    }

    /// Everything but the pointer state is as in `other`.
    pub open spec fn same_but_pointer(&self, other: &PdfViewer) -> bool {
        &&& self.same_session(other)
        &&& self.recent_popup == other.recent_popup
        &&& self.bookmark_popup == other.bookmark_popup
        &&& self.dialogs == other.dialogs
        &&& self.context_menu == other.context_menu
        &&& self.updater_state == other.updater_state
        &&& self.preferences == other.preferences
        &&& self.resize_restore_epoch == other.resize_restore_epoch
    }

    /// Everything but the tabs and the hovered note is as in `other`.
    pub open spec fn same_besides_tab_bar(&self, other: &PdfViewer) -> bool {
        &&& self.recent_files == other.recent_files
        &&& self.bookmarks == other.bookmarks
        &&& self.markdown_notes == other.markdown_notes
        &&& self.same_ui_state(other)
    }

    /// The popups, menus, dialogs, drag and update state are as in `other`.
    pub open spec fn same_ui_state(&self, other: &PdfViewer) -> bool {
        &&& self.recent_popup == other.recent_popup
        &&& self.bookmark_popup == other.bookmark_popup
        &&& self.dialogs == other.dialogs
        &&& self.context_menu == other.context_menu
        &&& self.pointer == other.pointer
        &&& self.updater_state == other.updater_state
        &&& self.preferences == other.preferences
        &&& self.resize_restore_epoch == other.resize_restore_epoch
    }
}

/// Whether the file of the `k`-th stored path still exists.
pub open spec fn still_exists(exists: Seq<bool>, k: int) -> bool {
    0 <= k < exists.len() && exists[k]
}

/// The stored paths whose files still exist, in order.
pub open spec fn restored_paths(saved: Seq<Seq<char>>, exists: Seq<bool>) -> Seq<Seq<char>>
    decreases saved.len(),
{
    if saved.len() == 0 {
        Seq::empty()
    } else {
        let rest = restored_paths(saved.drop_last(), exists);
        if still_exists(exists, saved.len() - 1) {
            rest.push(saved.last())
        } else {
            rest
        }
    }
}

/// The place among the restored tabs of the one to make active: the stored
/// active tab's when its file still exists; else the stored active position
/// taken among the restored tabs (the last when it is past them); the last
/// when no active position was stored.
pub open spec fn restored_active_position(
    saved: Seq<Seq<char>>,
    exists: Seq<bool>,
    saved_active: Option<usize>,
) -> int {
    let last = restored_paths(saved, exists).len() - 1;
    match saved_active {
        Some(a) => if a < saved.len() && still_exists(exists, a as int) {
            restored_paths(saved.take(a as int), exists).len() as int
        } else if a < last {
            a as int
        } else {
            last
        },
        None => last,
    }
}

/// The tabs a restart brings back from the stored paths `saved`, whose files
/// still exist as `exists` says, and the stored active position
/// `saved_active` (a position among all of `saved`): one tab per path whose
/// file exists, in order, showing it and not yet read, with the stored
/// active one active when its file exists (see `restored_active_position`
/// otherwise); one empty tab when nothing is restored.
pub open spec fn restored_session(
    saved: Seq<Seq<char>>,
    exists: Seq<bool>,
    saved_active: Option<usize>,
    tabs: Seq<PdfTab>,
    active: Option<usize>,
) -> bool {
    let kept = restored_paths(saved, exists);
    if kept.len() == 0 {
        &&& tabs.len() == 1
        &&& tabs[0].is_new_tab(1)
        &&& active == Some(1usize)
    } else {
        &&& tabs.len() == kept.len()
        &&& forall|k: int|
            0 <= k < kept.len() ==> ((#[trigger] tabs[k]).path matches Some(p) && p@ == kept[k])
                && tabs[k].pages@.len() == 0
        &&& active == Some(tabs[restored_active_position(saved, exists, saved_active)].id)
    }
}

/// No more paths are restored than were stored.
proof fn lemma_restored_len(saved: Seq<Seq<char>>, exists: Seq<bool>)
    ensures
        restored_paths(saved, exists).len() <= saved.len(),
    decreases saved.len(),
{
    if saved.len() > 0 {
        lemma_restored_len(saved.drop_last(), exists);
    }
}

/// The restored paths of a prefix of the stored ones are a prefix of those
/// of all of them.
proof fn lemma_restored_prefix(saved: Seq<Seq<char>>, exists: Seq<bool>, j: int)
    requires
        0 <= j <= saved.len(),
    ensures
        restored_paths(saved.take(j), exists).len() <= restored_paths(saved, exists).len(),
        restored_paths(saved, exists).take(restored_paths(saved.take(j), exists).len() as int)
            == restored_paths(saved.take(j), exists),
    decreases saved.len(),
{
    let whole = restored_paths(saved, exists);
    if j == saved.len() {
        assert(saved.take(j) =~= saved);
        assert(whole.take(whole.len() as int) =~= whole);
    } else {
        let front = saved.drop_last();
        assert(saved.take(j) =~= front.take(j));
        lemma_restored_prefix(front, exists, j);
        let part = restored_paths(saved.take(j), exists);
        let mid = restored_paths(front, exists);
        assert(whole.take(part.len() as int) =~= mid.take(part.len() as int));
    }
}

/// When the file of the `a`-th stored path still exists, the restored tab at
/// its place shows it.
pub proof fn lemma_restored_active_path(saved: Seq<Seq<char>>, exists: Seq<bool>, a: int)
    requires
        0 <= a < saved.len(),
        still_exists(exists, a),
    ensures
        restored_paths(saved.take(a), exists).len() < restored_paths(saved, exists).len(),
        restored_paths(saved, exists)[restored_paths(saved.take(a), exists).len() as int]
            == saved[a],
{
    let upto = saved.take(a + 1);
    assert(upto.drop_last() =~= saved.take(a));
    assert(upto.last() == saved[a]);
    lemma_restored_prefix(saved, exists, a + 1);
    let p = restored_paths(saved.take(a), exists).len() as int;
    let whole = restored_paths(saved, exists);
    assert(whole.take(p + 1)[p] == whole[p]);
}

impl PdfViewer {
    /// A session restored from storage: one tab for each saved path whose
    /// file still exists (`saved_open_tab_exists`, one flag per path, read by
    /// the caller), the saved active one active when its file exists (else
    /// the last one), or a single empty tab when nothing is restored.
    /// `saved_active_open_tab_index` counts among all saved paths. Returns
    /// the session and the tabs whose documents are to be loaded, as
    /// `(tab id, path)`.
    pub fn new(
        recent_files: Vec<String>,
        bookmarks: Vec<BookmarkEntry>,
        markdown_notes: Vec<MarkdownNoteEntry>,
        saved_open_tab_paths: Vec<String>,
        saved_open_tab_exists: Vec<bool>,
        saved_active_open_tab_index: Option<usize>,
        preferences: Preferences,
    ) -> (r: (Self, Option<(usize, String)>))
        requires
            saved_open_tab_paths@.len() < usize::MAX - 1,
        ensures
            r.0.tab_bar.wf(),
            r.0.recent_files@ == recent_files@,
            r.0.bookmarks@ == bookmarks@,
            r.0.markdown_notes@ == markdown_notes@,
            r.0.preferences == preferences,
            restored_session(
                paths_view(saved_open_tab_paths@),
                saved_open_tab_exists@,
                saved_active_open_tab_index,
                r.0.tab_bar.spec_tabs(),
                r.0.tab_bar.spec_active_tab_id(),
            ),
            match saved_active_open_tab_index {
                Some(a) => a < saved_open_tab_paths@.len() && still_exists(
                    saved_open_tab_exists@,
                    a as int,
                ) ==> r.0.active_path() == Some(saved_open_tab_paths@[a as int]@),
                None => true,
            },
            ({
                let kept = restored_paths(paths_view(saved_open_tab_paths@), saved_open_tab_exists@);
                let pos = restored_active_position(
                    paths_view(saved_open_tab_paths@),
                    saved_open_tab_exists@,
                    saved_active_open_tab_index,
                );
                if kept.len() == 0 {
                    r.1 is None
                } else {
                    r.1 matches Some(t) && Some(t.0) == r.0.tab_bar.spec_active_tab_id()
                        && t.0 == r.0.tab_bar.spec_tabs()[pos].id && t.1@ == kept[pos]
                }
            }),
    {
        let ghost sv = paths_view(saved_open_tab_paths@);
        let ghost ex = saved_open_tab_exists@;
        let mut tab_bar = TabBar::new();
        let mut tabs_to_restore: Vec<(usize, String)> = Vec::new();
        let mut active_tab: Option<usize> = None;
        let n = saved_open_tab_paths.len();
        let mut i: usize = 0;
        while i < n
            invariant
                n == saved_open_tab_paths@.len(),
                n < usize::MAX - 1,
                i <= n,
                sv == paths_view(saved_open_tab_paths@),
                ex == saved_open_tab_exists@,
                tab_bar.wf(),
                tab_bar.spec_tabs().len() == restored_paths(sv.take(i as int), ex).len(),
                tab_bar.spec_tabs().len() <= i,
                tab_bar.spec_next_tab_id() == tab_bar.spec_tabs().len() + 1,
                tabs_to_restore@.len() == tab_bar.spec_tabs().len(),
                forall|k: int|
                    0 <= k < tab_bar.spec_tabs().len() ==> #[trigger] tab_bar.spec_tabs()[k].id == k
                        + 1 && (tab_bar.spec_tabs()[k].path matches Some(p) && p@ == restored_paths(
                        sv.take(i as int),
                        ex,
                    )[k]) && tab_bar.spec_tabs()[k].pages@.len() == 0 && tabs_to_restore@[k].0
                        == tab_bar.spec_tabs()[k].id && tabs_to_restore@[k].1@ == restored_paths(
                        sv.take(i as int),
                        ex,
                    )[k],
                active_tab == match saved_active_open_tab_index {
                    Some(a) => if (a as int) < i && still_exists(ex, a as int) {
                        Some((restored_paths(sv.take(a as int), ex).len() + 1) as usize)
                    } else {
                        None::<usize>
                    },
                    None => None::<usize>,
                },
            decreases n - i,
        {
            let ghost before = tab_bar.spec_tabs();
            let ghost before_restore = tabs_to_restore@;
            let ghost prev = restored_paths(sv.take(i as int), ex);
            assert(sv.take(i + 1).drop_last() =~= sv.take(i as int));
            assert(sv.take(i + 1).last() == sv[i as int]);
            let keep = i < saved_open_tab_exists.len() && saved_open_tab_exists[i];
            if keep {
                let path = saved_open_tab_paths[i].clone();
                let path_for_tab = path.clone();
                let tab_id = tab_bar.create_tab_with_path(path_for_tab, Vec::new());
                tabs_to_restore.push((tab_id, path));
                if saved_active_open_tab_index == Some(i) {
                    active_tab = Some(tab_id);
                }
                proof {
                    let tabs = tab_bar.spec_tabs();
                    let now = restored_paths(sv.take(i + 1), ex);
                    assert(now == prev.push(sv[i as int]));
                    assert(tabs.drop_last() == before);
                    assert forall|k: int| 0 <= k < tabs.len() implies #[trigger] tabs[k].id == k + 1 && (
                    tabs[k].path matches Some(p) && p@ == now[k]) && tabs[k].pages@.len() == 0
                        && tabs_to_restore@[k].0 == tabs[k].id && tabs_to_restore@[k].1@ == now[k] by {
                        if k < before.len() {
                            assert(tabs[k] == tabs.drop_last()[k]);
                            assert(tabs_to_restore@[k] == before_restore[k]);
                            assert(now[k] == prev[k]);
                        } else {
                            assert(tabs[k] == tabs.last());
                        }
                    }
                }
            } else {
                proof {
                    assert(restored_paths(sv.take(i + 1), ex) == prev);
                }
            }
            i += 1;
        }
        assert(sv.take(n as int) =~= sv);
        let mut to_load: Option<(usize, String)> = None;
        if !tab_bar.has_tabs() {
            tab_bar.create_tab();
            proof {
                assert(tab_bar.spec_tabs()[0] == tab_bar.spec_tabs().last());
                if let Some(a) = saved_active_open_tab_index {
                    if (a as int) < n && still_exists(ex, a as int) {
                        lemma_restored_active_path(sv, ex, a as int);
                    }
                }
            }
        } else {
            let count = tab_bar.tab_count();
            let tab_id = match active_tab {
                Some(id) => id,
                None => match saved_active_open_tab_index {
                    Some(a) => if a < count - 1 {
                        a + 1
                    } else {
                        count
                    },
                    None => count,
                },
            };

            proof {
                if let Some(a) = saved_active_open_tab_index {
                    if (a as int) < n && still_exists(ex, a as int) {
                        lemma_restored_active_path(sv, ex, a as int);
                        lemma_restored_len(sv.take(a as int), ex);
                    }
                }
                let pos = restored_active_position(sv, ex, saved_active_open_tab_index);
                assert(0 <= pos < count);
                assert(tab_bar.spec_tabs()[pos].id == tab_id);
                assert(has_tab_id(tab_bar.spec_tabs(), tab_id));
                assert(tab_id == pos + 1);
            }
            let restored = &tabs_to_restore[tab_id - 1];
            to_load = Some((restored.0, restored.1.clone()));
            tab_bar.switch_to_tab(tab_id);
            proof {
                if let Some(a) = saved_active_open_tab_index {
                    if (a as int) < n && still_exists(ex, a as int) {
                        lemma_restored_active_path(sv, ex, a as int);
                        let pos = restored_active_position(sv, ex, saved_active_open_tab_index);
                        lemma_index_of_id(tab_bar.spec_tabs(), tab_id);
                        assert(index_of_id(tab_bar.spec_tabs(), tab_id) == pos) by {
                            let q = index_of_id(tab_bar.spec_tabs(), tab_id);
                            assert(tab_bar.spec_tabs()[q].id == q + 1);
                        }
                        assert(sv[a as int] == saved_open_tab_paths@[a as int]@);
                        assert(tab_bar.active_index() == pos);
                        assert(tab_bar.spec_tabs()[pos].path matches Some(p) && p@ == sv[a as int]);
                    }
                }
            }
        }
        let viewer = PdfViewer {
            tab_bar,
            recent_files,
            bookmarks,
            markdown_notes,
            recent_popup: RecentPopupState {
                open: false,
                trigger_hovered: false,
                tab_trigger_hovered: false,
                panel_hovered: false,
                hover_epoch: 0,
                anchor: None,
            },
            bookmark_popup: BookmarkPopupState {
                open: false,
                scope: BookmarkScope::CurrentPdf,
                trigger_hovered: false,
                panel_hovered: false,
                hover_epoch: 0,
                expanded_notes: None,
            },
            dialogs: DialogState {
                note_editor: DialogWindow { open: false, session: 0 },
                note_anchor_page: None,
                note_edit_id: None,
                about: DialogWindow { open: false, session: 0 },
                settings: DialogWindow { open: false, session: 0 },
                keymap: DialogWindow { open: false, session: 0 },
                command_panel_open: false,
            },
            context_menu: ContextMenuState { open: false, tab_id: None, note_id: None },
            hovered_markdown_note_id: None,
            pointer: PointerState {
                hovered_tab_id: None,
                drag_state: DragState::Idle,
                pending_drag_tab_id: None,
                text_hover_target: None,
            },
            updater_state: UpdaterUiState::Idle,
            preferences,
            resize_restore_epoch: 0,
        };
        (viewer, to_load)
    }

    /// Puts a just-opened file first in the recent files (once), keeping at
    /// most twelve.
    pub fn remember_recent_file(&mut self, path: &String)
        ensures
            paths_view(final(self).recent_files@) == recent_after_open(
                paths_view(old(self).recent_files@),
                path@,
            ),
            final(self).tab_bar == old(self).tab_bar,
            final(self).bookmarks == old(self).bookmarks,
            final(self).markdown_notes == old(self).markdown_notes,
            final(self).hovered_markdown_note_id == old(self).hovered_markdown_note_id,
            final(self).same_ui_state(&*old(self)),
    {
        let ghost old_view = paths_view(self.recent_files@);
        let mut kept: Vec<String> = Vec::new();
        let mut i: usize = 0;
        while i < self.recent_files.len()
            invariant
                i <= self.recent_files@.len(),
                self.recent_files@ == old(self).recent_files@,
                old_view == paths_view(self.recent_files@),
                paths_view(kept@) == old_view.take(i as int).filter(differs_from(path@)),
            decreases self.recent_files@.len() - i,
        {
            assert(old_view.take(i + 1).drop_last() =~= old_view.take(i as int));
            assert(old_view.take(i + 1).last() == self.recent_files@[i as int]@);
            proof {
                reveal(Seq::filter);
            }
            let ghost before = kept@;
            if self.recent_files[i] != *path {
                kept.push(self.recent_files[i].clone());
                assert(paths_view(kept@) =~= paths_view(before).push(self.recent_files@[i as int]@));
            }
            i += 1;
        }
        assert(old_view.take(old_view.len() as int) =~= old_view);
        kept.insert(0, path.clone());
        assert(paths_view(kept@) =~= seq![path@] + old_view.filter(differs_from(path@)));
        kept.truncate(MAX_RECENT_FILES);
        proof {
            let full = seq![path@] + old_view.filter(differs_from(path@));
            assert(paths_view(kept@) =~= first_n(full, MAX_RECENT_FILES as int));
        }
        self.recent_files = kept;
    }
}

/// Opening a file leaves it first among the recent files, exactly once, and at
/// most twelve files are remembered.
pub proof fn lemma_recent_after_open(recent: Seq<Seq<char>>, path: Seq<char>)
    ensures
        recent_after_open(recent, path).len() <= MAX_RECENT_FILES,
        recent_after_open(recent, path)[0] == path,
        forall|i: int| 1 <= i < recent_after_open(recent, path).len() ==> #[trigger] recent_after_open(recent, path)[i] != path,
{
    let f = recent.filter(differs_from(path));
    let full = seq![path] + f;
    assert forall|i: int| 0 <= i < f.len() implies #[trigger] f[i] != path by {
        recent.lemma_filter_pred(differs_from(path), i);
    }
    let r = first_n(full, MAX_RECENT_FILES as int);
    assert forall|i: int| 1 <= i < r.len() implies #[trigger] r[i] != path by {
        assert(r[i] == full[i]);
        assert(full[i] == f[i - 1]);
    }
}

impl PdfViewer {
    /// The file shown in the active tab.
    pub open spec fn active_path(&self) -> Option<Seq<char>> {
        let i = self.tab_bar.active_index();
        if 0 <= i < self.tab_bar.spec_tabs().len() {
            match self.tab_bar.spec_tabs()[i].path {
                Some(p) => Some(p@),
                None => None,
            }
        } else {
            None
        }
    }

    pub fn active_tab_path(&self) -> (r: Option<&String>)
        requires
            self.tab_bar.wf(),
        ensures
            match r {
                Some(p) => self.active_path() == Some(p@),
                None => self.active_path() is None,
            },
    {
        proof {
            if let Some(id) = self.tab_bar.spec_active_tab_id() {
                crate::tab::lemma_index_of_id(self.tab_bar.spec_tabs(), id);
            }
        }
        match self.tab_bar.get_active_tab() {
            Some(tab) => match &tab.path {
                Some(p) => Some(p),
                None => None,
            },
            None => None,
        }
    }

    /// A bookmark of the page shown in the active tab, stamped with the given
    /// time; none when the tab shows no loaded document.
    pub fn current_bookmark_entry(&self, now_unix_secs: u64) -> (r: Option<BookmarkEntry>)
        requires
            self.tab_bar.wf(),
        ensures
            ({
                let i = self.tab_bar.active_index();
                if 0 <= i && self.tab_bar.spec_tabs()[i].path is Some
                    && self.tab_bar.spec_tabs()[i].pages@.len() > 0 {
                    let t = self.tab_bar.spec_tabs()[i];
                    r is Some && r->0@ == (BookmarkView {
                        path: t.path->0@,
                        page_index: if t.active_page < t.pages@.len() - 1 {
                            t.active_page
                        } else {
                            (t.pages@.len() - 1) as usize
                        },
                        created_at_unix_secs: now_unix_secs,
                    })
                } else {
                    r is None
                }
            }),
    {
        let tab = match self.tab_bar.get_active_tab() {
            Some(t) => t,
            None => return None,
        };
        let path = match &tab.path {
            Some(p) => p.clone(),
            None => return None,
        };
        if tab.pages.len() == 0 {
            return None;
        }
        let last = tab.pages.len() - 1;
        let page_index = if tab.active_page < last {
            tab.active_page
        } else {
            last
        };
        Some(BookmarkEntry { path, page_index, created_at_unix_secs: now_unix_secs })
    }

    /// Adds a bookmark at the front, replacing any bookmark of the same page.
    pub fn insert_bookmark(&mut self, entry: BookmarkEntry)
        ensures
            bookmarks_view(final(self).bookmarks@) == bookmarks_after_insert(
                bookmarks_view(old(self).bookmarks@),
                entry@,
            ),
            final(self).same_but_bookmarks(&*old(self)),
    {
        let ghost old_view = bookmarks_view(self.bookmarks@);
        let ghost pred = other_page(entry.path@, entry.page_index);
        let mut kept: Vec<BookmarkEntry> = Vec::new();
        let mut i: usize = 0;
        while i < self.bookmarks.len()
            invariant
                i <= self.bookmarks@.len(),
                self.bookmarks@ == old(self).bookmarks@,
                old_view == bookmarks_view(self.bookmarks@),
                pred == other_page(entry.path@, entry.page_index),
                bookmarks_view(kept@) == old_view.take(i as int).filter(pred),
            decreases self.bookmarks@.len() - i,
        {
            assert(old_view.take(i + 1).drop_last() =~= old_view.take(i as int));
            assert(old_view.take(i + 1).last() == self.bookmarks@[i as int]@);
            proof {
                reveal(Seq::filter);
            }
            let ghost before = kept@;
            let b = &self.bookmarks[i];
            if !(b.path == entry.path && b.page_index == entry.page_index) {
                kept.push(b.clone());
                assert(bookmarks_view(kept@) =~= bookmarks_view(before).push(b@));
            }
            i += 1;
        }
        assert(old_view.take(old_view.len() as int) =~= old_view);
        let ghost entry_view = entry@;
        kept.insert(0, entry);
        assert(bookmarks_view(kept@) =~= seq![entry_view] + old_view.filter(pred));
        self.bookmarks = kept;
    }

    /// Removes the bookmarks of one page of a file; a notes list opened for
    /// that page closes. True when a bookmark was removed.
    pub fn delete_bookmark(&mut self, bookmark: &BookmarkEntry) -> (changed: bool)
        ensures
            bookmarks_view(final(self).bookmarks@) == bookmarks_view(old(self).bookmarks@).filter(
                other_page(bookmark.path@, bookmark.page_index),
            ),
            changed == (final(self).bookmarks@.len() != old(self).bookmarks@.len()),
            final(self).bookmark_popup.expanded_notes == if changed && (
            old(self).bookmark_popup.expanded_notes matches Some((p, page)) && p@ == bookmark.path@
                && page == bookmark.page_index) {
                None
            } else {
                old(self).bookmark_popup.expanded_notes
            },
            final(self).same_but_bookmark_data(&*old(self)),
            final(self).bookmark_popup == (BookmarkPopupState {
                expanded_notes: final(self).bookmark_popup.expanded_notes,
                ..old(self).bookmark_popup
            }),
    {
        let ghost old_view = bookmarks_view(self.bookmarks@);
        let ghost pred = other_page(bookmark.path@, bookmark.page_index);
        let mut kept: Vec<BookmarkEntry> = Vec::new();
        let mut i: usize = 0;
        while i < self.bookmarks.len()
            invariant
                i <= self.bookmarks@.len(),
                self.bookmarks@ == old(self).bookmarks@,
                old_view == bookmarks_view(self.bookmarks@),
                pred == other_page(bookmark.path@, bookmark.page_index),
                bookmarks_view(kept@) == old_view.take(i as int).filter(pred),
                kept@.len() <= i,
            decreases self.bookmarks@.len() - i,
        {
            assert(old_view.take(i + 1).drop_last() =~= old_view.take(i as int));
            assert(old_view.take(i + 1).last() == self.bookmarks@[i as int]@);
            proof {
                reveal(Seq::filter);
            }
            let ghost before = kept@;
            let b = &self.bookmarks[i];
            if !(b.path == bookmark.path && b.page_index == bookmark.page_index) {
                kept.push(b.clone());
                assert(bookmarks_view(kept@) =~= bookmarks_view(before).push(b@));
            }
            i += 1;
        }
        assert(old_view.take(old_view.len() as int) =~= old_view);
        let changed = kept.len() != self.bookmarks.len();
        self.bookmarks = kept;
        if changed {
            let clear = match &self.bookmark_popup.expanded_notes {
                Some((p, page)) => *p == bookmark.path && *page == bookmark.page_index,
                None => false,
            };
            if clear {
                self.bookmark_popup.expanded_notes = None;
            }
        }
        changed
    }

    /// Removes every bookmark of a file (used when the file is gone). True when
    /// one was removed.
    pub fn remove_bookmarks_of_file(&mut self, path: &String) -> (changed: bool)
        ensures
            bookmarks_view(final(self).bookmarks@) == bookmarks_view(old(self).bookmarks@).filter(
                not_on_file(path@),
            ),
            changed == (final(self).bookmarks@.len() != old(self).bookmarks@.len()),
            final(self).same_but_bookmarks(&*old(self)),
    {
        let ghost old_view = bookmarks_view(self.bookmarks@);
        let ghost pred = not_on_file(path@);
        let mut kept: Vec<BookmarkEntry> = Vec::new();
        let mut i: usize = 0;
        while i < self.bookmarks.len()
            invariant
                i <= self.bookmarks@.len(),
                self.bookmarks@ == old(self).bookmarks@,
                old_view == bookmarks_view(self.bookmarks@),
                pred == not_on_file(path@),
                bookmarks_view(kept@) == old_view.take(i as int).filter(pred),
                kept@.len() <= i,
            decreases self.bookmarks@.len() - i,
        {
            assert(old_view.take(i + 1).drop_last() =~= old_view.take(i as int));
            assert(old_view.take(i + 1).last() == self.bookmarks@[i as int]@);
            proof {
                reveal(Seq::filter);
            }
            let ghost before = kept@;
            let b = &self.bookmarks[i];
            if b.path != *path {
                kept.push(b.clone());
                assert(bookmarks_view(kept@) =~= bookmarks_view(before).push(b@));
            }
            i += 1;
        }
        assert(old_view.take(old_view.len() as int) =~= old_view);
        let changed = kept.len() != self.bookmarks.len();
        self.bookmarks = kept;
        changed
    }

    /// The bookmarks the popup lists for a scope.
    pub fn bookmarks_for_scope(&self, scope: BookmarkScope) -> (r: Vec<BookmarkEntry>)
        requires
            self.tab_bar.wf(),
        ensures
            bookmarks_view(r@) == bookmarks_in_scope(
                bookmarks_view(self.bookmarks@),
                scope,
                self.active_path(),
            ),
    {
        let current = self.active_tab_path();
        let ghost all = bookmarks_view(self.bookmarks@);
        let mut r: Vec<BookmarkEntry> = Vec::new();
        let mut i: usize = 0;
        while i < self.bookmarks.len()
            invariant
                i <= self.bookmarks@.len(),
                all == bookmarks_view(self.bookmarks@),
                bookmarks_view(r@) == bookmarks_in_scope(all.take(i as int), scope, self.active_path()),
                match current {
                    Some(p) => self.active_path() == Some(p@),
                    None => self.active_path() is None,
                },
            decreases self.bookmarks@.len() - i,
        {
            assert(all.take(i + 1).drop_last() =~= all.take(i as int));
            assert(all.take(i + 1).last() == self.bookmarks@[i as int]@);
            proof {
                reveal(Seq::filter);
            }
            let ghost before = r@;
            let b = &self.bookmarks[i];
            let keep = match scope {
                BookmarkScope::All => true,
                BookmarkScope::CurrentPdf => match current {
                    Some(p) => *p == b.path,
                    None => false,
                },
            };
            if keep {
                r.push(b.clone());
                assert(bookmarks_view(r@) =~= bookmarks_view(before).push(b@));
            }
            i += 1;
        }
        assert(all.take(all.len() as int) =~= all);
        r
    }

    /// Whether a page of the file in the active tab is bookmarked.
    pub fn active_tab_page_bookmarked(&self, page_index: usize) -> (r: bool)
        requires
            self.tab_bar.wf(),
        ensures
            r == (self.active_path() matches Some(p) && exists|k: int|
                0 <= k < self.bookmarks@.len() && self.bookmarks@[k].path@ == p
                    && self.bookmarks@[k].page_index == page_index),
    {
        let path = match self.active_tab_path() {
            Some(p) => p,
            None => return false,
        };
        let mut i: usize = 0;
        while i < self.bookmarks.len()
            invariant
                i <= self.bookmarks@.len(),
                self.active_path() == Some(path@),
                forall|k: int|
                    0 <= k < i ==> !(self.bookmarks@[k].path@ == path@ && self.bookmarks@[k].page_index
                        == page_index),
            decreases self.bookmarks@.len() - i,
        {
            if self.bookmarks[i].path == *path && self.bookmarks[i].page_index == page_index {
                return true;
            }
            i += 1;
        }
        false
    }

    /// The id for a new note: from the time in milliseconds times a thousand,
    /// the first one no note has. Some id from there on must be free (the
    /// search would not end otherwise); `free_markdown_note_id` tells whether
    /// one is.
    pub fn next_markdown_note_id(&self, now_unix_millis: u64) -> (r: u64)
        requires
            exists|x: u64| note_id_start(now_unix_millis) <= x && !note_ids(self.markdown_notes@).contains(x),
        ensures
            note_id_start(now_unix_millis) <= r,
            !note_ids(self.markdown_notes@).contains(r),
            forall|x: u64| note_id_start(now_unix_millis) <= x < r ==> note_ids(self.markdown_notes@).contains(x),
    {
        match self.free_markdown_note_id(now_unix_millis) {
            Some(id) => id,
            None => {
                proof {
                    let x = choose|x: u64|
                        note_id_start(now_unix_millis) <= x && !note_ids(self.markdown_notes@).contains(x);
                    assert(note_ids(self.markdown_notes@).contains(x));
                }
                0
            },
        }
    }

    /// The first id from the time in milliseconds times a thousand that no
    /// note has, or `None` when every id from there to the largest is taken.
    pub fn free_markdown_note_id(&self, now_unix_millis: u64) -> (r: Option<u64>)
        ensures
            match r {
                Some(id) => {
                    &&& note_id_start(now_unix_millis) <= id
                    &&& !note_ids(self.markdown_notes@).contains(id)
                    &&& forall|x: u64|
                        note_id_start(now_unix_millis) <= x < id ==> note_ids(self.markdown_notes@).contains(x)
                },
                None => forall|x: u64|
                    note_id_start(now_unix_millis) <= x ==> note_ids(self.markdown_notes@).contains(x),
            },
    {
        let mut candidate: u64 = if now_unix_millis > u64::MAX / 1000 {
            u64::MAX
        } else {
            now_unix_millis * 1000
        };
        let ghost ids = note_ids(self.markdown_notes@);
        loop
            invariant
                ids == note_ids(self.markdown_notes@),
                note_id_start(now_unix_millis) <= candidate,
                forall|x: u64| note_id_start(now_unix_millis) <= x < candidate ==> ids.contains(x),
            decreases u64::MAX - candidate,
        {
            let mut taken = false;
            let mut i: usize = 0;
            while i < self.markdown_notes.len()
                invariant
                    i <= self.markdown_notes@.len(),
                    ids == note_ids(self.markdown_notes@),
                    taken == exists|k: int| 0 <= k < i && ids[k] == candidate,
                decreases self.markdown_notes@.len() - i,
            {
                assert(ids[i as int] == self.markdown_notes@[i as int].id);
                if self.markdown_notes[i].id == candidate {
                    taken = true;
                }
                i += 1;
            }
            if !taken {
                assert(!ids.contains(candidate));
                return Some(candidate);
            }
            assert(ids.contains(candidate));
            if candidate == u64::MAX {
                return None;
            }
            candidate = candidate + 1;
        }
    }

    /// The notes of the file in the active tab on one page.
    pub fn active_tab_markdown_notes_for_page(&self, page_index: usize) -> (r: Vec<MarkdownNoteEntry>)
        requires
            self.tab_bar.wf(),
        ensures
            match self.active_path() {
                Some(p) => r@ == self.markdown_notes@.filter(note_on_page(p, page_index)),
                None => r@.len() == 0,
            },
    {
        match self.active_tab_path() {
            Some(path) => Self::notes_on_page(path, page_index, self.markdown_notes.as_slice()),
            None => Vec::new(),
        }
    }

    fn notes_on_page(path: &String, page_index: usize, notes: &[MarkdownNoteEntry]) -> (r: Vec<
        MarkdownNoteEntry,
    >)
        ensures
            r@ == notes@.filter(note_on_page(path@, page_index)),
    {
        let ghost pred = note_on_page(path@, page_index);
        let mut r: Vec<MarkdownNoteEntry> = Vec::new();
        let mut i: usize = 0;
        while i < notes.len()
            invariant
                i <= notes@.len(),
                pred == note_on_page(path@, page_index),
                r@ == notes@.take(i as int).filter(pred),
            decreases notes@.len() - i,
        {
            assert(notes@.take(i + 1).drop_last() =~= notes@.take(i as int));
            proof {
                reveal(Seq::filter);
            }
            if notes[i].path == *path && notes[i].page_index == page_index {
                r.push(notes[i].clone());
            }
            i += 1;
        }
        assert(notes@.take(notes@.len() as int) =~= notes@);
        r
    }

    /// The notes on the bookmarked page.
    pub fn bookmark_notes_for_entry(bookmark: &BookmarkEntry, markdown_notes: &[MarkdownNoteEntry]) -> (r:
        Vec<MarkdownNoteEntry>)
        ensures
            r@ == markdown_notes@.filter(note_on_page(bookmark.path@, bookmark.page_index)),
    {
        Self::notes_on_page(&bookmark.path, bookmark.page_index, markdown_notes)
    }

    /// The note with an id.
    pub fn markdown_note_by_id(&self, note_id: u64) -> (r: Option<&MarkdownNoteEntry>)
        ensures
            match r {
                Some(n) => n.id == note_id && exists|k: int|
                    0 <= k < self.markdown_notes@.len() && self.markdown_notes@[k] == *n
                        && forall|j: int| 0 <= j < k ==> self.markdown_notes@[j].id != note_id,
                None => forall|k: int|
                    0 <= k < self.markdown_notes@.len() ==> self.markdown_notes@[k].id != note_id,
            },
    {
        let mut i: usize = 0;
        while i < self.markdown_notes.len()
            invariant
                i <= self.markdown_notes@.len(),
                forall|k: int| 0 <= k < i ==> self.markdown_notes@[k].id != note_id,
            decreases self.markdown_notes@.len() - i,
        {
            if self.markdown_notes[i].id == note_id {
                return Some(&self.markdown_notes[i]);
            }
            i += 1;
        }
        None
    }

    /// Sets the hovered note; true when it changed.
    pub fn set_markdown_note_hover_id(&mut self, note_id: Option<u64>) -> (changed: bool)
        ensures
            final(self).hovered_markdown_note_id == note_id,
            changed == (old(self).hovered_markdown_note_id != note_id),
            final(self).same_but_notes(&*old(self)),
            final(self).markdown_notes == old(self).markdown_notes,
    {
        if self.hovered_markdown_note_id != note_id {
            self.hovered_markdown_note_id = note_id;
            true
        } else {
            false
        }
    }

    /// Saves a note: it replaces the note with its id, and the notes are
    /// ordered most recently updated first.
    pub fn upsert_markdown_note(&mut self, note: MarkdownNoteEntry)
        ensures
            final(self).markdown_notes@ == notes_after_upsert(old(self).markdown_notes@, note),
            final(self).same_but_notes(&*old(self)),
            final(self).hovered_markdown_note_id == old(self).hovered_markdown_note_id,
    {
        let ghost pred = note_not_id(note.id);
        let mut list: Vec<MarkdownNoteEntry> = Vec::new();
        let ghost the_note = note;
        list.push(note);
        let mut i: usize = 0;
        while i < self.markdown_notes.len()
            invariant
                i <= self.markdown_notes@.len(),
                self.markdown_notes@ == old(self).markdown_notes@,
                pred == note_not_id(the_note.id),
                list@ == seq![the_note] + self.markdown_notes@.take(i as int).filter(pred),
            decreases self.markdown_notes@.len() - i,
        {
            assert(self.markdown_notes@.take(i + 1).drop_last() =~= self.markdown_notes@.take(i as int));
            proof {
                reveal(Seq::filter);
            }
            if self.markdown_notes[i].id != the_note_id(&list) {
                list.push(self.markdown_notes[i].clone());
            }
            assert(list@ =~= seq![the_note] + self.markdown_notes@.take(i + 1).filter(pred));
            i += 1;
        }
        assert(self.markdown_notes@.take(self.markdown_notes@.len() as int) =~= self.markdown_notes@);
        let ghost unsorted = list@;
        let mut sorted: Vec<MarkdownNoteEntry> = Vec::new();
        let ghost k: int = 0;
        while list.len() > 0
            invariant
                0 <= k <= unsorted.len(),
                list@ == unsorted.skip(k),
                sorted@ == sort_notes(unsorted.take(k)),
            decreases list@.len(),
        {
            let x = list.remove(0);
            assert(unsorted.take(k + 1).drop_last() =~= unsorted.take(k));
            assert(unsorted.take(k + 1).last() == x);
            insert_note_exec(&mut sorted, x);
            proof {
                k = k + 1;
            }
            assert(list@ =~= unsorted.skip(k));
        }
        assert(unsorted.take(k) =~= unsorted);
        self.markdown_notes = sorted;
    }

    /// Deletes the note with an id; the hovered note is cleared when one was
    /// deleted. True when one was.
    pub fn delete_markdown_note_by_id(&mut self, note_id: u64) -> (changed: bool)
        ensures
            final(self).markdown_notes@ == old(self).markdown_notes@.filter(note_not_id(note_id)),
            changed == (final(self).markdown_notes@.len() != old(self).markdown_notes@.len()),
            final(self).hovered_markdown_note_id == if changed {
                None
            } else {
                old(self).hovered_markdown_note_id
            },
            final(self).same_but_notes(&*old(self)),
    {
        let ghost pred = note_not_id(note_id);
        let mut kept: Vec<MarkdownNoteEntry> = Vec::new();
        let mut i: usize = 0;
        while i < self.markdown_notes.len()
            invariant
                i <= self.markdown_notes@.len(),
                self.markdown_notes@ == old(self).markdown_notes@,
                pred == note_not_id(note_id),
                kept@ == self.markdown_notes@.take(i as int).filter(pred),
                kept@.len() <= i,
            decreases self.markdown_notes@.len() - i,
        {
            assert(self.markdown_notes@.take(i + 1).drop_last() =~= self.markdown_notes@.take(i as int));
            proof {
                reveal(Seq::filter);
            }
            if self.markdown_notes[i].id != note_id {
                kept.push(self.markdown_notes[i].clone());
            }
            i += 1;
        }
        assert(self.markdown_notes@.take(self.markdown_notes@.len() as int) =~= self.markdown_notes@);
        let changed = kept.len() != self.markdown_notes.len();
        self.markdown_notes = kept;
        if changed {
            self.hovered_markdown_note_id = None;
        }
        changed
    }

    /// Opens the notes list of a bookmarked page, or closes it when it is the
    /// one open.
    pub fn toggle_bookmark_notes_list(&mut self, bookmark: &BookmarkEntry)
        ensures
            match final(self).bookmark_popup.expanded_notes {
                Some((p, page)) => p@ == bookmark.path@ && page == bookmark.page_index && !(old(
                    self,
                ).bookmark_popup.expanded_notes matches Some((q, qpage)) && q@ == bookmark.path@
                    && qpage == bookmark.page_index),
                None => old(self).bookmark_popup.expanded_notes matches Some((q, qpage)) && q@
                    == bookmark.path@ && qpage == bookmark.page_index,
            },
            final(self).bookmark_popup == (BookmarkPopupState {
                expanded_notes: final(self).bookmark_popup.expanded_notes,
                ..old(self).bookmark_popup
            }),
            final(self).same_but_bookmark_popup(&*old(self)),
    {
        let same = match &self.bookmark_popup.expanded_notes {
            Some((p, page)) => *p == bookmark.path && *page == bookmark.page_index,
            None => false,
        };
        if same {
            self.bookmark_popup.expanded_notes = None;
        } else {
            self.bookmark_popup.expanded_notes = Some((bookmark.path.clone(), bookmark.page_index));
        }
    }
}

fn the_note_id(list: &Vec<MarkdownNoteEntry>) -> (r: u64)
    requires
        list@.len() > 0,
    ensures
        r == list@[0].id,
{
    list[0].id
}

proof fn lemma_insert_note_at(s: Seq<MarkdownNoteEntry>, x: MarkdownNoteEntry, j: int)
    requires
        0 <= j <= s.len(),
        forall|k: int| j <= k < s.len() ==> !note_ranks_before_or_with(#[trigger] s[k], x),
        j == 0 || note_ranks_before_or_with(s[j - 1], x),
    ensures
        insert_note(s, x) == s.insert(j, x),
    decreases s.len(),
{
    if s.len() == 0 {
        assert(s.insert(j, x) =~= seq![x]);
    } else if j == s.len() {
        assert(s.insert(j, x) =~= s.push(x));
    } else {
        lemma_insert_note_at(s.drop_last(), x, j);
        assert(s.drop_last().insert(j, x).push(s.last()) =~= s.insert(j, x));
    }
}

fn insert_note_exec(v: &mut Vec<MarkdownNoteEntry>, x: MarkdownNoteEntry)
    ensures
        final(v)@ == insert_note(old(v)@, x),
{
    let mut j = v.len();
    while j > 0 && !(v[j - 1].updated_at_unix_secs > x.updated_at_unix_secs || (v[j
        - 1].updated_at_unix_secs == x.updated_at_unix_secs && v[j - 1].id >= x.id))
        invariant
            j <= v@.len(),
            v@ == old(v)@,
            forall|k: int| j <= k < v@.len() ==> !note_ranks_before_or_with(#[trigger] v@[k], x),
        decreases j,
    {
        j -= 1;
    }
    proof {
        lemma_insert_note_at(v@, x, j as int);
    }
    v.insert(j, x);
}

/// The first line of a note that is not blank, trimmed (for previews).
pub fn bookmark_note_preview_text(markdown: &str) -> (r: String)
    ensures
        r@ == first_nonblank_line(markdown@),
{
    let chars = crate::strings::chars_of(markdown);
    let mut start: usize = 0;
    assert(chars@.skip(0) =~= chars@);
    loop
        invariant
            start <= chars@.len(),
            first_nonblank_line(chars@.skip(start as int)) == first_nonblank_line(markdown@),
            chars@ == markdown@,
        decreases chars@.len() - start,
    {
        let ghost rest = chars@.skip(start as int);
        let mut k = start;
        while k < chars.len() && chars[k] != '\n'
            invariant
                start <= k <= chars@.len(),
                rest == chars@.skip(start as int),
                forall|m: int| start <= m < k ==> chars@[m] != '\n',
            decreases chars@.len() - k,
        {
            k += 1;
        }
        proof {
            lemma_newline_index(rest, k - start);
        }
        let line = &chars.as_slice()[start..k];
        assert(line@ =~= rest.take(k - start));
        let (a, b) = crate::strings::trim_bounds(line);
        if a < b {
            return crate::strings::string_from_chars(&line[a..b]);
        }
        if k >= chars.len() {
            return String::new();
        }
        assert(rest.skip(k - start + 1) =~= chars@.skip(k + 1));
        start = k + 1;
    }
}

/// Where the first line of a text ends lies within the text.
pub proof fn lemma_newline_index_bounds(s: Seq<char>)
    ensures
        0 <= newline_index(s) <= s.len(),
    decreases s.len(),
{
    if s.len() > 0 && s[0] != '\n' {
        lemma_newline_index_bounds(s.drop_first());
    }
}

proof fn lemma_newline_index(s: Seq<char>, k: int)
    requires
        0 <= k <= s.len(),
        forall|m: int| 0 <= m < k ==> s[m] != '\n',
        k == s.len() || s[k] == '\n',
    ensures
        newline_index(s) == k,
    decreases k,
{
    if k > 0 {
        lemma_newline_index(s.drop_first(), k - 1);
    }
}

} // verus!
