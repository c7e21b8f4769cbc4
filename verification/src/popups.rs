//! The hover popups of recent files and bookmarks, opening a bookmark, and
//! the page context menu. A popup opens while the pointer is over its button
//! or its panel and closes a moment after it left both: leaving schedules a
//! check, and any hover change in between voids it.

use vstd::prelude::*;

use crate::navigation::selects_page;
use crate::tab::{clamped_page, index_of_id, lemma_index_of_id, next_epoch, PdfTab};
use crate::tab_actions::{
    index_of_path, load_if_needed_done, RecentOpen, TabLoadStart, lemma_index_of_path, tab_changed,
};
use crate::types::{BookmarkEntry, BookmarkScope, BookmarkView, MarkdownNoteEntry, RecentPopupAnchor};
use crate::viewer::{
    bookmarks_after_insert, bookmarks_view, BookmarkPopupState, ContextMenuState, PdfViewer,
    RecentPopupState,
};

verus! {

/// What a hover change asks of the caller: redraw, and/or check after the
/// close delay whether the popup should close (with this epoch).
#[derive(Clone, Copy, Debug, PartialEq, Eq, Structural)]
pub struct PopupUpdate {
    pub redraw: bool,
    pub close_check_epoch: Option<u64>,
}

/// Nothing to do.
pub open spec fn no_update() -> PopupUpdate {
    PopupUpdate { redraw: false, close_check_epoch: None }
}

/// Whether the pointer is over the recent-files popup or one of its buttons.
pub open spec fn recent_hovered(s: RecentPopupState) -> bool {
    s.trigger_hovered || s.tab_trigger_hovered || s.panel_hovered
}

/// The button the recent-files popup should hang from while hovered: the
/// hovered button (the tab bar's first), else the one it hangs from, else the
/// open button.
pub open spec fn recent_desired_anchor(s: RecentPopupState) -> RecentPopupAnchor {
    if s.tab_trigger_hovered {
        RecentPopupAnchor::TabAddButton
    } else if s.trigger_hovered {
        RecentPopupAnchor::OpenButton
    } else {
        match s.anchor {
            Some(a) => a,
            None => RecentPopupAnchor::OpenButton,
        }
    }
}

/// The recent-files popup after its hover state was looked at: open at the
/// desired button while hovered; the epoch moves on either way.
pub open spec fn recent_after_visibility(s: RecentPopupState) -> RecentPopupState {
    let e = next_epoch(s.hover_epoch);
    if recent_hovered(s) {
        RecentPopupState { hover_epoch: e, anchor: Some(recent_desired_anchor(s)), open: true, ..s }
    } else {
        RecentPopupState { hover_epoch: e, ..s }
    }
}

/// What looking at the recent-files popup's hover state asks of the caller.
pub open spec fn recent_visibility_update(s: RecentPopupState) -> PopupUpdate {
    if recent_hovered(s) {
        PopupUpdate {
            redraw: s.anchor != Some(recent_desired_anchor(s)) || !s.open,
            close_check_epoch: None,
        }
    } else {
        PopupUpdate { redraw: false, close_check_epoch: Some(next_epoch(s.hover_epoch)) }
    }
}

/// The recent-files popup once a button's hover became `hovered`.
pub open spec fn recent_trigger_set(s: RecentPopupState, anchor: RecentPopupAnchor, hovered: bool) -> RecentPopupState {
    let flags = match anchor {
        RecentPopupAnchor::OpenButton => RecentPopupState { trigger_hovered: hovered, ..s },
        RecentPopupAnchor::TabAddButton => RecentPopupState { tab_trigger_hovered: hovered, ..s },
    };
    if hovered {
        RecentPopupState { anchor: Some(anchor), ..flags }
    } else {
        flags
    }
}

/// Whether the popup a check with `epoch` is about closes: no hover change
/// since, nothing hovered, and it is open.
pub open spec fn recent_close_due(s: RecentPopupState, epoch: u64) -> bool {
    s.hover_epoch == epoch && !recent_hovered(s) && s.open
}

/// The recent-files popup closed and nothing hovered.
pub open spec fn recent_closed(s: RecentPopupState) -> RecentPopupState {
    RecentPopupState {
        hover_epoch: next_epoch(s.hover_epoch),
        trigger_hovered: false,
        tab_trigger_hovered: false,
        panel_hovered: false,
        open: false,
        anchor: None,
    }
}

/// Whether the pointer is over the bookmark popup or its button.
pub open spec fn bookmark_hovered(s: BookmarkPopupState) -> bool {
    s.trigger_hovered || s.panel_hovered
}

/// The scope a freshly opened bookmark popup shows: the active tab's file
/// when it shows one, else all bookmarks.
pub open spec fn fresh_scope(active_path: Option<Seq<char>>) -> BookmarkScope {
    if active_path is Some {
        BookmarkScope::CurrentPdf
    } else {
        BookmarkScope::All
    }
}

/// The bookmark popup after its hover state was looked at: while hovered a
/// closed popup opens with a fresh scope and no notes unfolded; the epoch
/// moves on either way.
pub open spec fn bookmark_after_visibility(s: BookmarkPopupState, active_path: Option<Seq<char>>) -> BookmarkPopupState {
    let e = next_epoch(s.hover_epoch);
    if bookmark_hovered(s) && !s.open {
        BookmarkPopupState {
            hover_epoch: e,
            scope: fresh_scope(active_path),
            expanded_notes: None,
            open: true,
            ..s
        }
    } else {
        BookmarkPopupState { hover_epoch: e, ..s }
    }
}

/// What looking at the bookmark popup's hover state asks of the caller.
pub open spec fn bookmark_visibility_update(s: BookmarkPopupState) -> PopupUpdate {
    if bookmark_hovered(s) {
        PopupUpdate { redraw: !s.open, close_check_epoch: None }
    } else {
        PopupUpdate { redraw: false, close_check_epoch: Some(next_epoch(s.hover_epoch)) }
    }
}

/// Whether the bookmark popup a check with `epoch` is about closes.
pub open spec fn bookmark_close_due(s: BookmarkPopupState, epoch: u64) -> bool {
    s.hover_epoch == epoch && !bookmark_hovered(s) && (s.open || s.expanded_notes is Some)
}

/// The bookmark popup closed, nothing hovered and no notes unfolded.
pub open spec fn bookmark_closed(s: BookmarkPopupState) -> BookmarkPopupState {
    BookmarkPopupState {
        hover_epoch: next_epoch(s.hover_epoch),
        trigger_hovered: false,
        panel_hovered: false,
        open: false,
        expanded_notes: None,
        ..s
    }
}

/// Everything but the bookmark popup, the bookmarks and the recent-files popup
/// is as in `other`.
pub open spec fn same_besides_popups(a: &PdfViewer, b: &PdfViewer) -> bool {
    &&& a.tab_bar == b.tab_bar
    &&& a.recent_files == b.recent_files
    &&& a.markdown_notes == b.markdown_notes
    &&& a.hovered_markdown_note_id == b.hovered_markdown_note_id
    &&& a.dialogs == b.dialogs
    &&& a.context_menu == b.context_menu
    &&& a.pointer == b.pointer
    &&& a.updater_state == b.updater_state
    &&& a.preferences == b.preferences
    &&& a.resize_restore_epoch == b.resize_restore_epoch
}

/// What opening a bookmark did.
pub enum BookmarkOpen {
    /// The file is gone; its bookmarks were dropped (`changed` when there
    /// were any).
    Forgotten { changed: bool },
    /// A tab showing the file became active. `bookmark_position` (the
    /// bookmarked page of the file) is stored as the file's reading position
    /// before anything else, so that a load starting here opens on it;
    /// `selected` says whether the tab moved to the bookmarked page, with the
    /// reading position to store after that.
    Switched {
        bookmark_position: (String, usize),
        load: Option<TabLoadStart>,
        selected: bool,
        position: Option<(String, usize)>,
    },
    /// The file is being read into a new tab; `bookmark_position` is stored as
    /// the file's reading position before the load starts.
    Opened { bookmark_position: (String, usize), open: RecentOpen },
}

/// Whether `a` sorts before `b` as paths: component by component, as
/// `std::path::Path` orders them.
pub uninterp spec fn path_precedes(a: Seq<char>, b: Seq<char>) -> bool;

/// Compares two paths with `std::path::Path`'s ordering (`<` on `Path`):
/// the contract names the result `path_precedes` of the two texts and
/// claims nothing more of it.
#[verifier::external_body]
fn path_less(a: &str, b: &str) -> (r: bool)
    ensures
        r == path_precedes(a@, b@),
{
    std::path::Path::new(a) < std::path::Path::new(b)
}

/// Whether `a` and `b` name the same path: component by component, as
/// `std::path::Path` compares them (`a/b/` and `a/b` are one path).
pub uninterp spec fn path_same(a: Seq<char>, b: Seq<char>) -> bool;

/// Compares two paths with `std::path::Path`'s equality (`==` on `Path`):
/// the contract names the result `path_same` of the two texts and claims
/// nothing more of it.
#[verifier::external_body]
fn path_eq(a: &str, b: &str) -> (r: bool)
    ensures
        r == path_same(a@, b@),
{
    std::path::Path::new(a) == std::path::Path::new(b)
}

/// A page of a file: `(path, page)`.
pub open spec fn page_before(a: (Seq<char>, usize), b: (Seq<char>, usize)) -> bool {
    path_precedes(a.0, b.0) || (path_same(a.0, b.0) && a.1 < b.1)
}

/// Whether `s` holds the page `x`, its path compared as a path.
pub open spec fn has_same_page(s: Seq<(Seq<char>, usize)>, x: (Seq<char>, usize)) -> bool {
    exists|k: int| 0 <= k < s.len() && path_same(#[trigger] s[k].0, x.0) && s[k].1 == x.1
}

/// `s` with `x` placed after every page that does not sort after it.
pub open spec fn insert_page_ref(s: Seq<(Seq<char>, usize)>, x: (Seq<char>, usize)) -> Seq<
    (Seq<char>, usize),
>
    decreases s.len(),
{
    if s.len() == 0 {
        seq![x]
    } else if !page_before(x, s.last()) {
        s.push(x)
    } else {
        insert_page_ref(s.drop_last(), x).push(s.last())
    }
}

/// The pages sorted by file, then page number, as a stable sort leaves them.
pub open spec fn sort_page_refs(s: Seq<(Seq<char>, usize)>) -> Seq<(Seq<char>, usize)>
    decreases s.len(),
{
    if s.len() == 0 {
        s
    } else {
        insert_page_ref(sort_page_refs(s.drop_last()), s.last())
    }
}

/// The pages in their first order, each once (the first text of a path
/// stands for the paths equal to it).
pub open spec fn distinct_page_refs(s: Seq<(Seq<char>, usize)>) -> Seq<(Seq<char>, usize)>
    decreases s.len(),
{
    if s.len() == 0 {
        s
    } else {
        let prev = distinct_page_refs(s.drop_last());
        if has_same_page(prev, s.last()) {
            prev
        } else {
            prev.push(s.last())
        }
    }
}

/// The pages the notes are on.
pub open spec fn note_page_refs(notes: Seq<MarkdownNoteEntry>) -> Seq<(Seq<char>, usize)> {
    notes.map_values(|n: MarkdownNoteEntry| (n.path@, n.page_index))
}

/// The predicate "is a page of `path`".
pub open spec fn ref_on_file(path: Seq<char>) -> spec_fn((Seq<char>, usize)) -> bool {
    |r: (Seq<char>, usize)| path_same(r.0, path)
}

/// The pages with notes that stand in for bookmarks when there are none:
/// each page once, those of the active file for its scope (all when no file
/// is shown), sorted by file and page.
pub open spec fn note_bookmark_pages(
    notes: Seq<MarkdownNoteEntry>,
    scope: BookmarkScope,
    active: Option<Seq<char>>,
) -> Seq<(Seq<char>, usize)> {
    let pages = distinct_page_refs(note_page_refs(notes));
    let scoped = match (scope, active) {
        (BookmarkScope::CurrentPdf, Some(p)) => pages.filter(ref_on_file(p)),
        _ => pages,
    };
    sort_page_refs(scoped)
}

/// Page references as bookmarks without a time.
pub open spec fn refs_as_bookmarks(s: Seq<(Seq<char>, usize)>) -> Seq<BookmarkView> {
    s.map_values(
        |r: (Seq<char>, usize)| BookmarkView { path: r.0, page_index: r.1, created_at_unix_secs: 0 },
    )
}

/// Page references as plain values.
pub open spec fn refs_view(v: Seq<(String, usize)>) -> Seq<(Seq<char>, usize)> {
    v.map_values(|r: (String, usize)| (r.0@, r.1))
}

impl PdfViewer {
    /// Whether the recent-files popup is open at `anchor`.
    pub fn recent_popup_open_for(&self, anchor: RecentPopupAnchor) -> (r: bool)
        ensures
            r == (self.recent_popup.open && self.recent_popup.anchor == Some(anchor)),
    {
        self.recent_popup.open && match self.recent_popup.anchor {
            Some(a) => a == anchor,
            None => false,
        }
    }

    /// Looks at the recent-files popup's hover state: opens it at the right
    /// button while hovered, else schedules a close check.
    pub fn update_recent_popup_visibility(&mut self) -> (r: PopupUpdate)
        ensures
            final(self).recent_popup == recent_after_visibility(old(self).recent_popup),
            r == recent_visibility_update(old(self).recent_popup),
            final(self).same_but_recent_popup(&*old(self)),
    {
        self.recent_popup.hover_epoch = self.recent_popup.hover_epoch.wrapping_add(1);
        let s = self.recent_popup;
        if s.trigger_hovered || s.tab_trigger_hovered || s.panel_hovered {
            let desired = if s.tab_trigger_hovered {
                RecentPopupAnchor::TabAddButton
            } else if s.trigger_hovered {
                RecentPopupAnchor::OpenButton
            } else {
                match s.anchor {
                    Some(a) => a,
                    None => RecentPopupAnchor::OpenButton,
                }
            };
            let mut changed = false;
            let same_anchor = match s.anchor {
                Some(a) => a == desired,
                None => false,
            };
            if !same_anchor {
                self.recent_popup.anchor = Some(desired);
                changed = true;
            }
            if !s.open {
                self.recent_popup.open = true;
                changed = true;
            }
            return PopupUpdate { redraw: changed, close_check_epoch: None };
        }
        PopupUpdate { redraw: false, close_check_epoch: Some(self.recent_popup.hover_epoch) }
    }

    /// The pointer entered or left one of the recent-files buttons.
    pub fn set_recent_popup_trigger_hovered(&mut self, anchor: RecentPopupAnchor, hovered: bool) -> (r:
        PopupUpdate)
        ensures
            final(self).same_but_recent_popup(&*old(self)),
            ({
                let mid = recent_trigger_set(old(self).recent_popup, anchor, hovered);
                if mid != old(self).recent_popup {
                    final(self).recent_popup == recent_after_visibility(mid) && r
                        == recent_visibility_update(mid)
                } else {
                    final(self).recent_popup == old(self).recent_popup && r == no_update()
                }
            }),
    {
        let mut changed = false;
        match anchor {
            RecentPopupAnchor::OpenButton => {
                if self.recent_popup.trigger_hovered != hovered {
                    self.recent_popup.trigger_hovered = hovered;
                    changed = true;
                }
            },
            RecentPopupAnchor::TabAddButton => {
                if self.recent_popup.tab_trigger_hovered != hovered {
                    self.recent_popup.tab_trigger_hovered = hovered;
                    changed = true;
                }
            },
        }
        let same_anchor = match self.recent_popup.anchor {
            Some(a) => a == anchor,
            None => false,
        };
        if hovered && !same_anchor {
            self.recent_popup.anchor = Some(anchor);
            changed = true;
        }
        if changed {
            self.update_recent_popup_visibility()
        } else {
            PopupUpdate { redraw: false, close_check_epoch: None }
        }
    }

    /// The pointer entered or left the recent-files panel.
    pub fn set_recent_popup_panel_hovered(&mut self, hovered: bool) -> (r: PopupUpdate)
        ensures
            final(self).same_but_recent_popup(&*old(self)),
            if old(self).recent_popup.panel_hovered != hovered {
                let mid = RecentPopupState { panel_hovered: hovered, ..old(self).recent_popup };
                final(self).recent_popup == recent_after_visibility(mid) && r
                    == recent_visibility_update(mid)
            } else {
                final(self).recent_popup == old(self).recent_popup && r == no_update()
            },
    {
        if self.recent_popup.panel_hovered != hovered {
            self.recent_popup.panel_hovered = hovered;
            self.update_recent_popup_visibility()
        } else {
            PopupUpdate { redraw: false, close_check_epoch: None }
        }
    }

    /// The close check `epoch` of the recent-files popup came due: it closes
    /// when nothing changed since and nothing is hovered. True when it closed.
    pub fn recent_popup_close_check(&mut self, epoch: u64) -> (r: bool)
        ensures
            final(self).same_but_recent_popup(&*old(self)),
            r == recent_close_due(old(self).recent_popup, epoch),
            final(self).recent_popup == if r {
                RecentPopupState { open: false, anchor: None, ..old(self).recent_popup }
            } else {
                old(self).recent_popup
            },
    {
        let s = self.recent_popup;
        if s.hover_epoch != epoch || s.trigger_hovered || s.tab_trigger_hovered || s.panel_hovered
            || !s.open {
            return false;
        }
        self.recent_popup.open = false;
        self.recent_popup.anchor = None;
        true
    }

    /// Closes the recent-files popup and forgets its hover state; true when
    /// anything changed.
    pub fn close_recent_popup(&mut self) -> (r: bool)
        ensures
            final(self).same_but_recent_popup(&*old(self)),
            final(self).recent_popup == recent_closed(old(self).recent_popup),
            r == (recent_hovered(old(self).recent_popup) || old(self).recent_popup.open || old(
                self,
            ).recent_popup.anchor is Some),
    {
        let s = self.recent_popup;
        let changed = s.trigger_hovered || s.tab_trigger_hovered || s.panel_hovered || s.open
            || s.anchor.is_some();
        self.recent_popup = RecentPopupState {
            hover_epoch: s.hover_epoch.wrapping_add(1),
            trigger_hovered: false,
            tab_trigger_hovered: false,
            panel_hovered: false,
            open: false,
            anchor: None,
        };
        changed
    }

    /// Looks at the bookmark popup's hover state: while hovered a closed
    /// popup opens (listing the active file's bookmarks when there is one),
    /// else a close check is scheduled.
    pub fn update_bookmark_popup_visibility(&mut self) -> (r: PopupUpdate)
        requires
            old(self).tab_bar.wf(),
        ensures
            final(self).bookmark_popup == bookmark_after_visibility(
                old(self).bookmark_popup,
                old(self).active_path(),
            ),
            r == bookmark_visibility_update(old(self).bookmark_popup),
            final(self).same_but_bookmark_popup(&*old(self)),
    {
        self.bookmark_popup.hover_epoch = self.bookmark_popup.hover_epoch.wrapping_add(1);
        if self.bookmark_popup.trigger_hovered || self.bookmark_popup.panel_hovered {
            if !self.bookmark_popup.open {
                self.bookmark_popup.scope = if self.active_tab_path().is_some() {
                    BookmarkScope::CurrentPdf
                } else {
                    BookmarkScope::All
                };
                self.bookmark_popup.expanded_notes = None;
                self.bookmark_popup.open = true;
                return PopupUpdate { redraw: true, close_check_epoch: None };
            }
            return PopupUpdate { redraw: false, close_check_epoch: None };
        }
        PopupUpdate { redraw: false, close_check_epoch: Some(self.bookmark_popup.hover_epoch) }
    }

    /// The pointer entered or left the bookmark button.
    pub fn set_bookmark_popup_trigger_hovered(&mut self, hovered: bool) -> (r: PopupUpdate)
        requires
            old(self).tab_bar.wf(),
        ensures
            final(self).same_but_bookmark_popup(&*old(self)),
            if old(self).bookmark_popup.trigger_hovered != hovered {
                let mid = BookmarkPopupState { trigger_hovered: hovered, ..old(self).bookmark_popup };
                final(self).bookmark_popup == bookmark_after_visibility(mid, old(self).active_path())
                    && r == bookmark_visibility_update(mid)
            } else {
                final(self).bookmark_popup == old(self).bookmark_popup && r == no_update()
            },
    {
        if self.bookmark_popup.trigger_hovered == hovered {
            return PopupUpdate { redraw: false, close_check_epoch: None };
        }
        self.bookmark_popup.trigger_hovered = hovered;
        self.update_bookmark_popup_visibility()
    }

    /// The pointer entered or left the bookmark panel.
    pub fn set_bookmark_popup_panel_hovered(&mut self, hovered: bool) -> (r: PopupUpdate)
        requires
            old(self).tab_bar.wf(),
        ensures
            final(self).same_but_bookmark_popup(&*old(self)),
            if old(self).bookmark_popup.panel_hovered != hovered {
                let mid = BookmarkPopupState { panel_hovered: hovered, ..old(self).bookmark_popup };
                final(self).bookmark_popup == bookmark_after_visibility(mid, old(self).active_path())
                    && r == bookmark_visibility_update(mid)
            } else {
                final(self).bookmark_popup == old(self).bookmark_popup && r == no_update()
            },
    {
        if self.bookmark_popup.panel_hovered == hovered {
            return PopupUpdate { redraw: false, close_check_epoch: None };
        }
        self.bookmark_popup.panel_hovered = hovered;
        self.update_bookmark_popup_visibility()
    }

    /// The close check `epoch` of the bookmark popup came due: it closes
    /// (folding any notes) when nothing changed since and nothing is hovered.
    /// True when it closed.
    pub fn bookmark_popup_close_check(&mut self, epoch: u64) -> (r: bool)
        ensures
            final(self).same_but_bookmark_popup(&*old(self)),
            r == bookmark_close_due(old(self).bookmark_popup, epoch),
            final(self).bookmark_popup == if r {
                BookmarkPopupState { open: false, expanded_notes: None, ..old(self).bookmark_popup }
            } else {
                old(self).bookmark_popup
            },
    {
        if self.bookmark_popup.hover_epoch != epoch || self.bookmark_popup.trigger_hovered
            || self.bookmark_popup.panel_hovered {
            return false;
        }
        if !self.bookmark_popup.open && self.bookmark_popup.expanded_notes.is_none() {
            return false;
        }
        self.bookmark_popup.open = false;
        self.bookmark_popup.expanded_notes = None;
        true
    }

    /// Closes the bookmark popup and forgets its hover state and unfolded
    /// notes; true when anything changed.
    pub fn close_bookmark_popup(&mut self) -> (r: bool)
        ensures
            final(self).same_but_bookmark_popup(&*old(self)),
            final(self).bookmark_popup == bookmark_closed(old(self).bookmark_popup),
            r == (bookmark_hovered(old(self).bookmark_popup) || old(self).bookmark_popup.open || old(
                self,
            ).bookmark_popup.expanded_notes is Some),
    {
        let changed = self.bookmark_popup.trigger_hovered || self.bookmark_popup.panel_hovered
            || self.bookmark_popup.open || self.bookmark_popup.expanded_notes.is_some();
        self.bookmark_popup.hover_epoch = self.bookmark_popup.hover_epoch.wrapping_add(1);
        self.bookmark_popup.trigger_hovered = false;
        self.bookmark_popup.panel_hovered = false;
        self.bookmark_popup.open = false;
        self.bookmark_popup.expanded_notes = None;
        changed
    }

    /// Shows another scope of bookmarks, folding any notes; false when it
    /// is the one shown.
    pub fn set_bookmark_scope(&mut self, scope: BookmarkScope) -> (r: bool)
        ensures
            final(self).same_but_bookmark_popup(&*old(self)),
            r == (old(self).bookmark_popup.scope != scope),
            final(self).bookmark_popup == if r {
                BookmarkPopupState { scope, expanded_notes: None, ..old(self).bookmark_popup }
            } else {
                old(self).bookmark_popup
            },
    {
        if self.bookmark_popup.scope == scope {
            return false;
        }
        self.bookmark_popup.scope = scope;
        self.bookmark_popup.expanded_notes = None;
        true
    }

    /// Bookmarks the page shown in the active tab (stamped `now_unix_secs`)
    /// and opens the bookmark popup on a fresh scope, closing the
    /// recent-files popup. True when a bookmark was added.
    pub fn add_current_page_bookmark_and_open(&mut self, now_unix_secs: u64) -> (r: bool)
        requires
            old(self).tab_bar.wf(),
        ensures
            same_besides_popups(&*final(self), &*old(self)),
            ({
                let i = old(self).tab_bar.active_index();
                let tabs = old(self).tab_bar.spec_tabs();
                &&& r == (0 <= i && tabs[i].path is Some && tabs[i].pages@.len() > 0)
                &&& if r {
                    let t = tabs[i];
                    bookmarks_view(final(self).bookmarks@) == bookmarks_after_insert(
                        bookmarks_view(old(self).bookmarks@),
                        BookmarkView {
                            path: t.path->0@,
                            page_index: clamped_page(t.active_page, t.pages@.len() as int),
                            created_at_unix_secs: now_unix_secs,
                        },
                    )
                } else {
                    final(self).bookmarks == old(self).bookmarks
                }
            }),
            final(self).recent_popup == if old(self).recent_popup.open {
                recent_closed(old(self).recent_popup)
            } else {
                old(self).recent_popup
            },
            final(self).bookmark_popup == (BookmarkPopupState {
                scope: fresh_scope(old(self).active_path()),
                hover_epoch: next_epoch(old(self).bookmark_popup.hover_epoch),
                expanded_notes: None,
                open: true,
                ..old(self).bookmark_popup
            }),
    {
        let added = match self.current_bookmark_entry(now_unix_secs) {
            Some(entry) => {
                self.insert_bookmark(entry);
                true
            },
            None => false,
        };
        if self.recent_popup.open {
            self.close_recent_popup();
        }
        self.bookmark_popup.scope = if self.active_tab_path().is_some() {
            BookmarkScope::CurrentPdf
        } else {
            BookmarkScope::All
        };
        self.bookmark_popup.hover_epoch = self.bookmark_popup.hover_epoch.wrapping_add(1);
        self.bookmark_popup.expanded_notes = None;
        self.bookmark_popup.open = true;
        added
    }

    /// Opens a bookmark. When its file is gone its bookmarks are dropped.
    /// Otherwise the result carries the bookmark's page as the file's reading
    /// position, for the caller to store first; then a tab already showing the file becomes active
    /// and, when its pages are in, shows the bookmarked page (clamped); else
    /// the file is read into a new tab. The bookmark popup closes.
    #[verifier::rlimit(60)]
    pub fn open_bookmark(&mut self, bookmark: &BookmarkEntry, exists: bool) -> (r: BookmarkOpen)
        requires
            old(self).tab_bar.wf(),
            old(self).tab_bar.spec_next_tab_id() < usize::MAX,
        ensures
            final(self).tab_bar.wf(),
            exists ==> ({
                &&& final(self).markdown_notes == old(self).markdown_notes
                &&& final(self).recent_popup == old(self).recent_popup
                &&& final(self).dialogs == old(self).dialogs
                &&& final(self).context_menu == old(self).context_menu
                &&& final(self).pointer == old(self).pointer
                &&& final(self).updater_state == old(self).updater_state
                &&& final(self).preferences == old(self).preferences
                &&& final(self).resize_restore_epoch == old(self).resize_restore_epoch
            }),
            ({
                let tabs = old(self).tab_bar.spec_tabs();
                let i = index_of_path(tabs, bookmark.path@);
                let next = old(self).tab_bar.spec_next_tab_id();
                if !exists {
                    &&& r matches BookmarkOpen::Forgotten { changed }
                    &&& bookmarks_view(final(self).bookmarks@) == bookmarks_view(
                        old(self).bookmarks@,
                    ).filter(crate::viewer::not_on_file(bookmark.path@))
                    &&& changed == (final(self).bookmarks@.len() != old(self).bookmarks@.len())
                    &&& final(self).same_but_bookmarks(&*old(self))
                } else if i >= 0 {
                    let id = tabs[i].id;
                    &&& r matches BookmarkOpen::Switched { bookmark_position, load, selected, position }
                    &&& bookmark_position.0@ == bookmark.path@
                    &&& bookmark_position.1 == bookmark.page_index
                    &&& final(self).bookmark_popup == bookmark_closed(old(self).bookmark_popup)
                    &&& final(self).hovered_markdown_note_id is None
                    &&& final(self).tab_bar.spec_active_tab_id() == Some(id)
                    &&& final(self).bookmarks == old(self).bookmarks
                    &&& final(self).recent_files == old(self).recent_files
                    &&& selected == (load is None && tabs[i].pages@.len() > 0)
                    &&& if selected {
                        &&& tab_changed(
                            tabs,
                            final(self).tab_bar.spec_tabs(),
                            id,
                            selects_page(clamped_page(bookmark.page_index, tabs[i].pages@.len() as int)),
                        )
                        &&& match position {
                            Some(p) => crate::tab_actions::current_position_to_save(
                                final(self).tab_bar.spec_tabs(),
                                Some(id),
                            ) == Some((p.0@, p.1)),
                            None => crate::tab_actions::current_position_to_save(
                                final(self).tab_bar.spec_tabs(),
                                Some(id),
                            ) is None,
                        }
                    } else {
                        position is None && load_if_needed_done(
                            tabs,
                            final(self).tab_bar.spec_tabs(),
                            id,
                            load,
                        )
                    }
                } else {
                    &&& r matches BookmarkOpen::Opened { bookmark_position, open: o }
                    &&& bookmark_position.0@ == bookmark.path@
                    &&& bookmark_position.1 == bookmark.page_index
                    &&& o matches RecentOpen::Opened(l)
                    &&& l.tab_id == next && l.path@ == bookmark.path@ && l.remember_recent_file
                    &&& final(self).bookmark_popup == bookmark_closed(old(self).bookmark_popup)
                    &&& final(self).bookmarks == old(self).bookmarks
                    &&& final(self).recent_files == old(self).recent_files
                    &&& final(self).tab_bar.spec_active_tab_id() == Some(next)
                    &&& final(self).tab_bar.spec_tabs().drop_last() == tabs
                    &&& crate::tab_actions::new_tab_loading(
                        final(self).tab_bar.spec_tabs().last(),
                        next,
                        bookmark.path@,
                    )
                }
            }),
    {
        if !exists {
            let changed = self.remove_bookmarks_of_file(&bookmark.path);
            return BookmarkOpen::Forgotten { changed };
        }
        proof {
            lemma_index_of_path(self.tab_bar.spec_tabs(), bookmark.path@);
        }
        let bookmark_position = (bookmark.path.clone(), bookmark.page_index);
        let found = crate::tab_actions::tab_index_showing(self.tab_bar.tabs(), &bookmark.path);
        match found {
            Some(i) => {
                let id = self.tab_bar.tabs()[i].id;
                let ghost tabs0 = self.tab_bar.spec_tabs();
                proof {
                    assert(crate::tab::has_tab_id(tabs0, id));
                    crate::tab::lemma_index_of_id(tabs0, id);
                    assert(index_of_id(tabs0, id) == i as int) by {
                        assert(crate::tab::ids_unique(tabs0));
                    }
                }
                let (_, load) = self.switch_to_tab(id);
                let mut selected = false;
                let mut position: Option<(String, usize)> = None;
                if load.is_none() {
                    proof {
                        reveal(load_if_needed_done);
                    }
                    let count = self.tab_bar.tabs()[i].pages.len();
                    if count > 0 {
                        let last = count - 1;
                        let target = if bookmark.page_index < last {
                            bookmark.page_index
                        } else {
                            last
                        };
                        proof {
                            assert(self.tab_bar.active_index() == i as int);
                        }
                        let (done, pos) = self.select_page(target);
                        selected = done;
                        position = pos;
                    }
                }
                self.close_bookmark_popup();
                BookmarkOpen::Switched { bookmark_position, load, selected, position }
            },
            None => {
                let o = self.open_recent_pdf(bookmark.path.clone(), true);
                self.close_bookmark_popup();
                BookmarkOpen::Opened { bookmark_position, open: o }
            },
        }
    }

    /// The pages with notes, as bookmarks without a time, that the bookmark
    /// popup lists when there are no bookmarks.
    pub fn bookmarks_from_notes(&self, scope: BookmarkScope, markdown_notes: &[MarkdownNoteEntry]) -> (r:
        Vec<BookmarkEntry>)
        requires
            self.tab_bar.wf(),
        ensures
            bookmarks_view(r@) == refs_as_bookmarks(
                note_bookmark_pages(markdown_notes@, scope, self.active_path()),
            ),
    {
        let ghost all = note_page_refs(markdown_notes@);
        let mut pages: Vec<(String, usize)> = Vec::new();
        let mut i: usize = 0;
        while i < markdown_notes.len()
            invariant
                i <= markdown_notes@.len(),
                all == note_page_refs(markdown_notes@),
                refs_view(pages@) == distinct_page_refs(all.take(i as int)),
            decreases markdown_notes@.len() - i,
        {
            let n = &markdown_notes[i];
            assert(all.take(i + 1).drop_last() =~= all.take(i as int));
            assert(all.take(i + 1).last() == (n.path@, n.page_index));
            let ghost before = pages@;
            if !contains_page_ref(&pages, &n.path, n.page_index) {
                pages.push((n.path.clone(), n.page_index));
                assert(refs_view(pages@) =~= refs_view(before).push((n.path@, n.page_index)));
            }
            i += 1;
        }
        assert(all.take(all.len() as int) =~= all);
        let ghost distinct = refs_view(pages@);
        let scoped = match (scope, self.active_tab_path()) {
            (BookmarkScope::CurrentPdf, Some(p)) => refs_on_file(pages, p),
            _ => pages,
        };
        let sorted = sort_refs(scoped);
        let mut r: Vec<BookmarkEntry> = Vec::new();
        let mut k: usize = 0;
        while k < sorted.len()
            invariant
                k <= sorted@.len(),
                bookmarks_view(r@) == refs_as_bookmarks(refs_view(sorted@.take(k as int))),
            decreases sorted@.len() - k,
        {
            let ghost r_before = r@;
            r.push(
                BookmarkEntry {
                    path: sorted[k].0.clone(),
                    page_index: sorted[k].1,
                    created_at_unix_secs: 0,
                },
            );
            assert(refs_view(sorted@.take(k + 1)) =~= refs_view(sorted@.take(k as int)).push(
                (sorted@[k as int].0@, sorted@[k as int].1),
            ));
            assert(bookmarks_view(r@) =~= bookmarks_view(r_before).push(
                BookmarkView {
                    path: sorted@[k as int].0@,
                    page_index: sorted@[k as int].1,
                    created_at_unix_secs: 0,
                },
            ));
            assert(bookmarks_view(r@) =~= refs_as_bookmarks(refs_view(sorted@.take(k + 1))));
            k += 1;
        }
        assert(sorted@.take(sorted@.len() as int) =~= sorted@);
        r
    }

    /// Opens the page context menu (for the note `note_id` when the pointer
    /// is on one), which also marks that note hovered.
    pub fn open_page_context_menu(&mut self, note_id: Option<u64>)
        ensures
            final(self).context_menu == (ContextMenuState { open: true, tab_id: None, note_id }),
            final(self).hovered_markdown_note_id == note_id,
            final(self).tab_bar == old(self).tab_bar,
            final(self).recent_files == old(self).recent_files,
            final(self).bookmarks == old(self).bookmarks,
            final(self).markdown_notes == old(self).markdown_notes,
            final(self).recent_popup == old(self).recent_popup,
            final(self).bookmark_popup == old(self).bookmark_popup,
            final(self).dialogs == old(self).dialogs,
            final(self).pointer == old(self).pointer,
            final(self).updater_state == old(self).updater_state,
            final(self).preferences == old(self).preferences,
            final(self).resize_restore_epoch == old(self).resize_restore_epoch,
    {
        self.hovered_markdown_note_id = note_id;
        self.context_menu = ContextMenuState { open: true, tab_id: None, note_id };
    }
}

/// Whether page `page` of `path` is among `pages`, paths compared as paths.
fn contains_page_ref(pages: &Vec<(String, usize)>, path: &String, page: usize) -> (r: bool)
    ensures
        r == has_same_page(refs_view(pages@), (path@, page)),
{
    let ghost all = refs_view(pages@);
    let mut i: usize = 0;
    while i < pages.len()
        invariant
            i <= pages@.len(),
            all == refs_view(pages@),
            forall|k: int| 0 <= k < i ==> !(path_same(#[trigger] all[k].0, path@) && all[k].1 == page),
        decreases pages@.len() - i,
    {
        assert(all[i as int] == (pages@[i as int].0@, pages@[i as int].1));
        if pages[i].1 == page && path_eq(pages[i].0.as_str(), path.as_str()) {
            assert(path_same(all[i as int].0, path@) && all[i as int].1 == page);
            assert(has_same_page(all, (path@, page)));
            return true;
        }
        i += 1;
    }
    false
}

/// The pages of `path`, in order.
fn refs_on_file(pages: Vec<(String, usize)>, path: &String) -> (r: Vec<(String, usize)>)
    ensures
        refs_view(r@) == refs_view(pages@).filter(ref_on_file(path@)),
{
    let ghost all = refs_view(pages@);
    let ghost pred = ref_on_file(path@);
    let mut r: Vec<(String, usize)> = Vec::new();
    let mut i: usize = 0;
    while i < pages.len()
        invariant
            i <= pages@.len(),
            all == refs_view(pages@),
            pred == ref_on_file(path@),
            refs_view(r@) == all.take(i as int).filter(pred),
        decreases pages@.len() - i,
    {
        assert(all.take(i + 1).drop_last() =~= all.take(i as int));
        assert(all.take(i + 1).last() == (pages@[i as int].0@, pages@[i as int].1));
        proof {
            reveal(Seq::filter);
        }
        let ghost before = r@;
        if path_eq(pages[i].0.as_str(), path.as_str()) {
            r.push((pages[i].0.clone(), pages[i].1));
            assert(refs_view(r@) =~= refs_view(before).push((pages@[i as int].0@, pages@[i as int].1)));
        }
        i += 1;
    }
    assert(all.take(all.len() as int) =~= all);
    r
}

proof fn lemma_insert_ref_at(s: Seq<(Seq<char>, usize)>, x: (Seq<char>, usize), j: int)
    requires
        0 <= j <= s.len(),
        forall|k: int| j <= k < s.len() ==> page_before(x, #[trigger] s[k]),
        j == 0 || !page_before(x, s[j - 1]),
    ensures
        insert_page_ref(s, x) == s.insert(j, x),
    decreases s.len(),
{
    if s.len() == 0 {
        assert(s.insert(j, x) =~= seq![x]);
    } else if j == s.len() {
        assert(s.insert(j, x) =~= s.push(x));
    } else {
        lemma_insert_ref_at(s.drop_last(), x, j);
        assert(s.drop_last().insert(j, x).push(s.last()) =~= s.insert(j, x));
    }
}

/// Whether page `x` sorts before page `y`.
fn ref_before(x: &(String, usize), y: &(String, usize)) -> (r: bool)
    ensures
        r == page_before((x.0@, x.1), (y.0@, y.1)),
{
    path_less(x.0.as_str(), y.0.as_str()) || (path_eq(x.0.as_str(), y.0.as_str()) && x.1 < y.1)
}

/// The pages sorted by file and page number, stably.
fn sort_refs(pages: Vec<(String, usize)>) -> (r: Vec<(String, usize)>)
    ensures
        refs_view(r@) == sort_page_refs(refs_view(pages@)),
{
    let ghost unsorted = refs_view(pages@);
    let mut rest = pages;
    let mut sorted: Vec<(String, usize)> = Vec::new();
    let ghost k: int = 0;
    while rest.len() > 0
        invariant
            0 <= k <= unsorted.len(),
            refs_view(rest@) == unsorted.skip(k),
            refs_view(sorted@) == sort_page_refs(unsorted.take(k)),
        decreases rest@.len(),
    {
        let ghost rest_before = rest@;
        assert(refs_view(rest_before).len() == rest_before.len());
        let x = rest.remove(0);
        assert(refs_view(rest_before)[0] == (x.0@, x.1));
        assert(unsorted.skip(k)[0] == unsorted[k]);
        assert(unsorted.take(k + 1).drop_last() =~= unsorted.take(k));
        assert(unsorted.take(k + 1).last() == (x.0@, x.1));
        let ghost sv = refs_view(sorted@);
        let mut j = sorted.len();
        while j > 0 && ref_before(&x, &sorted[j - 1])
            invariant
                j <= sorted@.len(),
                sv == refs_view(sorted@),
                forall|m: int| j <= m < sorted@.len() ==> page_before((x.0@, x.1), #[trigger] sv[m]),
            decreases j,
        {
            assert(sv[j - 1] == (sorted@[j - 1].0@, sorted@[j - 1].1));
            j -= 1;
        }
        proof {
            if j > 0 {
                assert(sv[j - 1] == (sorted@[j - 1].0@, sorted@[j - 1].1));
            }
            lemma_insert_ref_at(sv, (x.0@, x.1), j as int);
        }
        sorted.insert(j, x);
        assert(refs_view(sorted@) =~= sv.insert(j as int, (x.0@, x.1)));
        let ghost k0 = k;
        proof {
            k = k + 1;
        }
        assert forall|m: int| 0 <= m < rest@.len() implies #[trigger] refs_view(rest@)[m]
            == unsorted.skip(k)[m] by {
            assert(rest@[m] == rest_before[m + 1]);
            assert(refs_view(rest_before)[m + 1] == unsorted.skip(k0)[m + 1]);
        }
        assert(refs_view(rest@) =~= unsorted.skip(k));
    }
    assert(unsorted.take(k) =~= unsorted);
    sorted
}

} // verus!
