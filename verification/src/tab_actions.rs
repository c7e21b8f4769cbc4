//! What the viewer does to its tabs: which of them the bar shows, switching,
//! reading a document into a tab, opening files, closing tabs and saving the
//! page each closed document was on.

use vstd::prelude::*;

use crate::tab::{
    active_after_close, clamped_page, has_tab_id, index_of_id, lemma_index_of_id,
    lemma_update_keeps_wf, render_state_reset, sort_pages, sort_pages_by_index, tab_ids,
    PageSummary, PdfTab, TabBar,
};
use crate::platform::Platform;
use crate::tab::tab_label;
use crate::types::{DragState, MacTabContextMenuAction};
use crate::viewer::{ContextMenuState, PdfViewer, PointerState};

verus! {

/// Whether some tab shows a file.
pub open spec fn has_file_open(tabs: Seq<PdfTab>) -> bool {
    exists|k: int| 0 <= k < tabs.len() && (#[trigger] tabs[k]).path is Some
}

/// Whether the bar shows a tab: all tabs when no file is open, else only those
/// with a file (the empty start tab is then hidden).
pub open spec fn shown_in_bar(file_open: bool) -> spec_fn(PdfTab) -> bool {
    |t: PdfTab| !file_open || t.path is Some
}

/// The tabs the bar shows, in order.
pub open spec fn visible_tabs(tabs: Seq<PdfTab>) -> Seq<PdfTab> {
    tabs.filter(shown_in_bar(has_file_open(tabs)))
}

/// The path of a document read that is owed for tab `tab_id`: the tab's file,
/// when the tab exists, is not being read, and was never read or failed.
pub open spec fn pending_load_path(tabs: Seq<PdfTab>, tab_id: usize) -> Option<Seq<char>> {
    let i = index_of_id(tabs, tab_id);
    if i < 0 {
        None
    } else if tabs[i].summary_loading {
        None
    } else if tabs[i].summary_failed || !tabs[i].summary_loaded {
        match tabs[i].path {
            Some(p) => Some(p@),
            None => None,
        }
    } else {
        None
    }
}

/// `after` is tab `before` about to read the document at `path`: no pages,
/// first page selected, rendering and text forgotten, no position saved.
pub open spec fn load_begun(before: PdfTab, after: PdfTab, path: Seq<char>) -> bool {
    &&& render_state_reset(before, after)
    &&& after.path matches Some(p) && p@ == path
    &&& after.pages@.len() == 0
    &&& !after.summary_loaded
    &&& after.summary_loading
    &&& !after.summary_failed
    &&& after.selected_page == 0
    &&& after.active_page == 0
    &&& after.last_saved_position is None
    &&& after.suppress_display_scroll_sync_once == before.suppress_display_scroll_sync_once
}

/// `after` is `before` with tab `tab_id` changed by `change` and nothing
/// else changed.
pub open spec fn tab_changed(
    before: Seq<PdfTab>,
    after: Seq<PdfTab>,
    tab_id: usize,
    change: spec_fn(PdfTab, PdfTab) -> bool,
) -> bool {
    let i = index_of_id(before, tab_id);
    &&& 0 <= i < before.len()
    &&& after.len() == before.len()
    &&& forall|k: int| 0 <= k < before.len() && k != i ==> after[k] == before[k]
    &&& change(before[i], after[i])
}

/// The change "begins reading `path`".
pub open spec fn begins_load(path: Seq<char>) -> spec_fn(PdfTab, PdfTab) -> bool {
    |a: PdfTab, b: PdfTab| load_begun(a, b, path)
}

/// A document read that has started: the caller reads the page list of
/// `path` and hands the result to [`PdfViewer::finish_tab_load`].
pub struct TabLoadStart {
    pub tab_id: usize,
    pub path: String,
    /// Whether the file joins the recent files once it is read.
    pub remember_recent_file: bool,
}

/// `load` is what a call that may start a read of tab `tab_id` reports, and
/// the tabs went from `before` to `after` accordingly.
#[verifier::opaque]
pub open spec fn load_if_needed_done(
    before: Seq<PdfTab>,
    after: Seq<PdfTab>,
    tab_id: usize,
    load: Option<TabLoadStart>,
) -> bool {
    match pending_load_path(before, tab_id) {
        None => after == before && load is None,
        Some(p) => load matches Some(l) && l.tab_id == tab_id && l.path@ == p
            && !l.remember_recent_file && tab_changed(before, after, tab_id, begins_load(p)),
    }
}


/// Where a tab's document was: its file and the page shown (clamped to the
/// last page), when it shows a document with pages.
pub open spec fn position_to_save(tabs: Seq<PdfTab>, tab_id: usize) -> Option<(Seq<char>, usize)> {
    let i = index_of_id(tabs, tab_id);
    if i < 0 {
        None
    } else {
        match tabs[i].path {
            Some(p) => if tabs[i].pages@.len() > 0 {
                Some((p@, clamped_page(tabs[i].active_page, tabs[i].pages@.len() as int)))
            } else {
                None
            },
            None => None,
        }
    }
}

/// The positions saved for the tabs `ids`, in order, skipping tabs with none.
pub open spec fn saved_positions(tabs: Seq<PdfTab>, ids: Seq<usize>) -> Seq<(Seq<char>, usize)>
    decreases ids.len(),
{
    if ids.len() == 0 {
        Seq::empty()
    } else {
        let before = saved_positions(tabs, ids.drop_last());
        match position_to_save(tabs, ids.last()) {
            Some(p) => before.push(p),
            None => before,
        }
    }
}

/// Positions as plain values.
pub open spec fn positions_view(v: Seq<(String, usize)>) -> Seq<(Seq<char>, usize)> {
    v.map_values(|p: (String, usize)| (p.0@, p.1))
}

/// The tabs and active tab after closing tab `id` (nothing changes when no
/// tab has it).
pub open spec fn close_one(tabs: Seq<PdfTab>, active: Option<usize>, id: usize) -> (
    Seq<PdfTab>,
    Option<usize>,
) {
    let i = index_of_id(tabs, id);
    if i < 0 {
        (tabs, active)
    } else {
        (tabs.remove(i), active_after_close(active, id, i, tabs.remove(i)))
    }
}

/// The tabs and active tab after closing the tabs `ids` one after another.
pub open spec fn after_closing(tabs: Seq<PdfTab>, active: Option<usize>, ids: Seq<usize>) -> (
    Seq<PdfTab>,
    Option<usize>,
)
    decreases ids.len(),
{
    if ids.len() == 0 {
        (tabs, active)
    } else {
        let prev = after_closing(tabs, active, ids.drop_last());
        close_one(prev.0, prev.1, ids.last())
    }
}

/// The bar `after` is what closing the tabs `ids` of a bar with `tabs`,
/// `active` and `next` id leaves: the remaining tabs with the active one
/// read when a read is owed, or, when none remain, one new empty tab.
pub open spec fn closing_done(
    tabs: Seq<PdfTab>,
    active: Option<usize>,
    next: usize,
    after: TabBar,
    ids: Seq<usize>,
    load: Option<TabLoadStart>,
) -> bool {
    let rest = after_closing(tabs, active, ids);
    if rest.0.len() == 0 {
        &&& after.spec_tabs().len() == 1
        &&& after.spec_tabs()[0].is_new_tab(next)
        &&& after.spec_active_tab_id() == Some(next)
        &&& after.spec_next_tab_id() == next + 1
        &&& load is None
    } else {
        &&& after.spec_active_tab_id() == rest.1
        &&& after.spec_next_tab_id() == next
        &&& rest.1 matches Some(id) && load_if_needed_done(rest.0, after.spec_tabs(), id, load)
    }
}

/// What closing tabs asks of the caller: save these reading positions, and
/// read this document.
pub struct ClosedTabs {
    pub saved_positions: Vec<(String, usize)>,
    pub load: Option<TabLoadStart>,
}

/// `after` is `before` once every tab was closed, with `r` the answer: none
/// (and nothing changed) when there were no tabs.
pub open spec fn all_tabs_closed(before: &PdfViewer, after: &PdfViewer, r: Option<ClosedTabs>) -> bool {
    let tabs = before.tab_bar.spec_tabs();
    let ids = tab_ids(tabs);
    &&& ids.len() == 0 ==> r is None && after.unchanged_from(before)
    &&& ids.len() > 0 ==> (r matches Some(c) && positions_view(c.saved_positions@)
        == saved_positions(tabs, ids) && closing_done(
        tabs,
        before.tab_bar.spec_active_tab_id(),
        before.tab_bar.spec_next_tab_id(),
        after.tab_bar,
        ids,
        c.load,
    ) && after.hovered_markdown_note_id is None)
}

/// `after` is `before` once every tab but `keep` was closed, `keep` being
/// made active, with `r` the answer: none (and nothing changed) when no tab
/// has that id.
pub open spec fn other_tabs_closed(
    before: &PdfViewer,
    after: &PdfViewer,
    keep: usize,
    r: Option<ClosedTabs>,
) -> bool {
    let tabs = before.tab_bar.spec_tabs();
    &&& !has_tab_id(tabs, keep) ==> r is None && *after == *before
    &&& has_tab_id(tabs, keep) ==> ({
        let ids = other_tab_ids(tabs, keep);
        r matches Some(c) && if ids.len() == 0 {
            &&& c.saved_positions@.len() == 0
            &&& c.load is None
            &&& after.tab_bar.spec_tabs() == tabs
            &&& after.tab_bar.spec_active_tab_id() == Some(keep)
            &&& after.tab_bar.spec_next_tab_id() == before.tab_bar.spec_next_tab_id()
            &&& after.hovered_markdown_note_id == before.hovered_markdown_note_id
        } else {
            &&& positions_view(c.saved_positions@) == saved_positions(tabs, ids)
            &&& closing_done(
                tabs,
                Some(keep),
                before.tab_bar.spec_next_tab_id(),
                after.tab_bar,
                ids,
                c.load,
            )
            &&& after.hovered_markdown_note_id is None
        }
    })
}

/// The ids of the tabs other than `keep`.
pub open spec fn other_tab_ids(tabs: Seq<PdfTab>, keep: usize) -> Seq<usize> {
    tab_ids(tabs).filter(differs_from_id(keep))
}

/// The predicate "is not `keep`".
pub open spec fn differs_from_id(keep: usize) -> spec_fn(usize) -> bool {
    |id: usize| id != keep
}


/// Position of the active tab among the shown ones, 0 when it is not shown.
pub open spec fn visible_active_position(tabs: Seq<PdfTab>, active: Option<usize>) -> int {
    match active {
        Some(a) => if index_of_id(visible_tabs(tabs), a) >= 0 {
            index_of_id(visible_tabs(tabs), a)
        } else {
            0
        },
        None => 0,
    }
}

/// `after` is tab `before` once its page list `pages` was read: the pages in
/// index order, the restored page (else the first, clamped to the last)
/// selected, rendering and text forgotten, and scroll syncing skipped once
/// when there are pages.
pub open spec fn load_finished(
    before: PdfTab,
    after: PdfTab,
    pages: Seq<PageSummary>,
    initial_page: usize,
) -> bool {
    &&& render_state_reset(before, after)
    &&& after.path == before.path
    &&& after.pages@ == sort_pages(pages)
    &&& after.summary_loaded
    &&& !after.summary_loading
    &&& !after.summary_failed
    &&& after.selected_page == initial_page
    &&& after.active_page == initial_page
    &&& after.last_saved_position == before.last_saved_position
    &&& after.suppress_display_scroll_sync_once == (pages.len() > 0
        || before.suppress_display_scroll_sync_once)
}

/// The page shown first once a document is read: the restored one (else the
/// first), clamped to the last page.
pub open spec fn initial_page_of(page_count: int, restored_page: Option<usize>) -> usize {
    clamped_page(
        match restored_page {
            Some(p) => p,
            None => 0,
        },
        page_count,
    )
}

/// `after` is tab `before` once reading its page list failed.
pub open spec fn load_failed(before: PdfTab, after: PdfTab) -> bool {
    &&& render_state_reset(before, after)
    &&& after.path == before.path
    &&& after.pages@.len() == 0
    &&& !after.summary_loaded
    &&& !after.summary_loading
    &&& after.summary_failed
    &&& after.selected_page == 0
    &&& after.active_page == 0
    &&& after.last_saved_position == before.last_saved_position
    &&& after.suppress_display_scroll_sync_once == before.suppress_display_scroll_sync_once
}

/// The change "finished reading `pages`, showing `initial_page`".
pub open spec fn finishes_load(pages: Seq<PageSummary>, initial_page: usize) -> spec_fn(
    PdfTab,
    PdfTab,
) -> bool {
    |a: PdfTab, b: PdfTab| load_finished(a, b, pages, initial_page)
}

/// The change "reading failed".
pub open spec fn fails_load() -> spec_fn(PdfTab, PdfTab) -> bool {
    |a: PdfTab, b: PdfTab| load_failed(a, b)
}

/// How a document read ended.
pub enum TabLoadOutcome {
    /// The tab was closed meanwhile; nothing changed.
    TabClosed,
    /// The tab was given another file meanwhile; nothing changed.
    Superseded,
    /// The pages are in; the tab shows `initial_page`.
    Loaded { initial_page: usize },
    /// Reading failed; the tab shows no pages.
    Failed,
}

/// Whether tab `t` shows the file `path`.
pub open spec fn shows_path(t: PdfTab, path: Seq<char>) -> bool {
    t.path matches Some(p) && p@ == path
}

/// Position of the first tab showing the file `path`, or -1.
pub open spec fn index_of_path(tabs: Seq<PdfTab>, path: Seq<char>) -> int
    decreases tabs.len(),
{
    if tabs.len() == 0 {
        -1
    } else if index_of_path(tabs.drop_last(), path) >= 0 {
        index_of_path(tabs.drop_last(), path)
    } else if shows_path(tabs.last(), path) {
        tabs.len() - 1
    } else {
        -1
    }
}

/// What opening a recent file did.
pub enum RecentOpen {
    /// The file is gone; it was dropped from the recent files.
    Forgotten,
    /// A tab already showed it and became active.
    Switched { load: Option<TabLoadStart> },
    /// It is being read into a new tab.
    Opened(TabLoadStart),
}

/// `t` is a new empty tab with id `id` that then began reading `path`.
pub open spec fn new_tab_loading(t: PdfTab, id: usize, path: Seq<char>) -> bool {
    exists|n: PdfTab| n.is_new_tab(id) && load_begun(n, t, path)
}


/// What `persist_current_file_position` asks to store: the active tab's
/// position, unless it is the one last saved for that tab.
pub open spec fn current_position_to_save(tabs: Seq<PdfTab>, active: Option<usize>) -> Option<
    (Seq<char>, usize),
> {
    match active {
        None => None,
        Some(id) => match position_to_save(tabs, id) {
            Some(p) => {
                let t = tabs[index_of_id(tabs, id)];
                if t.last_saved_position matches Some(saved) && saved.0@ == p.0 && saved.1 == p.1 {
                    None
                } else {
                    Some(p)
                }
            },
            None => None,
        },
    }
}

/// The tab being dragged, if any.
pub open spec fn drag_source(state: DragState) -> Option<usize> {
    match state {
        DragState::Started { source_tab_id } => Some(source_tab_id),
        DragState::Over { source_tab_id, .. } => Some(source_tab_id),
        DragState::Idle => None,
    }
}

/// What the bar draws for one tab.
pub struct TabBarItem {
    pub tab_id: usize,
    pub label: String,
    pub is_active: bool,
    /// The close button shows on the active and the hovered tab.
    pub show_close_button: bool,
    /// The empty start tab.
    pub is_home: bool,
    pub is_drag_source: bool,
}

/// `item` is what the bar draws for tab `t`.
pub open spec fn tab_bar_item_of(
    item: TabBarItem,
    t: PdfTab,
    active: Option<usize>,
    hovered: Option<usize>,
    drag: DragState,
) -> bool {
    &&& item.tab_id == t.id
    &&& item.label@ == tab_label(
        match t.path {
            Some(p) => Some(p@),
            None => None,
        },
    )
    &&& item.is_active == (active == Some(t.id))
    &&& item.show_close_button == (active == Some(t.id) || hovered == Some(t.id))
    &&& item.is_home == t.path is None
    &&& item.is_drag_source == (drag_source(drag) == Some(t.id))
}

/// What a pointer move during a possible drag did.
pub struct DragMove {
    /// The pressed tab started being dragged.
    pub started: bool,
    /// The tab being dragged after the move.
    pub source_tab_id: Option<usize>,
    /// The pointer left the tab bar, so the drop target was dropped.
    pub target_cleared: bool,
}

/// The choices of a tab's context menu that can be taken: closing the others
/// needs another tab, revealing needs a file.
pub open spec fn tab_menu_options(tabs: Seq<PdfTab>, tab_id: usize) -> Option<(bool, bool)> {
    let i = index_of_id(tabs, tab_id);
    if i < 0 {
        None
    } else {
        Some((tabs.len() > 1, tabs[i].path is Some))
    }
}

/// How a tab's context menu is shown.
pub enum TabMenu {
    /// No tab has that id.
    Ignored,
    /// The platform's own menu, with these choices enabled.
    Native { can_close_others: bool, can_reveal: bool },
    /// The menu drawn in the window.
    InWindow,
}

/// What a choice in a tab's menu asks of the caller.
pub enum TabMenuEffect {
    Closed(Option<ClosedTabs>),
    /// Show this file in the file manager (none when the tab has no file).
    Reveal(Option<String>),
}

impl PdfViewer {
    /// The ids of the tabs the bar shows, in order.
    pub fn visible_tab_ids(&self) -> (r: Vec<usize>)
        ensures
            r@ == tab_ids(visible_tabs(self.tab_bar.spec_tabs())),
    {
        let tabs = self.tab_bar.tabs();
        let file_open = any_file_open(tabs);
        let ghost pred = shown_in_bar(file_open);
        let mut r: Vec<usize> = Vec::new();
        let mut i: usize = 0;
        while i < tabs.len()
            invariant
                i <= tabs@.len(),
                tabs@ == self.tab_bar.spec_tabs(),
                file_open == has_file_open(tabs@),
                pred == shown_in_bar(file_open),
                r@ == tab_ids(tabs@.take(i as int).filter(pred)),
            decreases tabs@.len() - i,
        {
            assert(tabs@.take(i + 1).drop_last() =~= tabs@.take(i as int));
            proof {
                reveal(Seq::filter);
            }
            let ghost before = tabs@.take(i as int).filter(pred);
            if !file_open || tabs[i].path.is_some() {
                r.push(tabs[i].id);
                assert(tab_ids(before.push(tabs@[i as int])) =~= tab_ids(before).push(tabs@[i as int].id));
            }
            i += 1;
        }
        assert(tabs@.take(tabs@.len() as int) =~= tabs@);
        r
    }

    /// Position of a tab among those the bar shows.
    pub fn visible_tab_index_by_id(&self, tab_id: usize) -> (r: Option<usize>)
        ensures
            match r {
                Some(i) => i as int == index_of_id(visible_tabs(self.tab_bar.spec_tabs()), tab_id),
                None => index_of_id(visible_tabs(self.tab_bar.spec_tabs()), tab_id) == -1,
            },
    {
        let ids = self.visible_tab_ids();
        let ghost vis = visible_tabs(self.tab_bar.spec_tabs());
        proof {
            lemma_index_of_id(vis, tab_id);
        }
        let mut i: usize = 0;
        while i < ids.len()
            invariant
                i <= ids@.len(),
                vis == visible_tabs(self.tab_bar.spec_tabs()),
                ids@ == tab_ids(vis),
                forall|k: int| 0 <= k < i ==> vis[k].id != tab_id,
                -1 <= index_of_id(vis, tab_id) < vis.len(),
                index_of_id(vis, tab_id) >= 0 ==> vis[index_of_id(vis, tab_id)].id == tab_id,
                index_of_id(vis, tab_id) >= 0 ==> forall|k: int|
                    0 <= k < index_of_id(vis, tab_id) ==> vis[k].id != tab_id,
                index_of_id(vis, tab_id) == -1 <==> !has_tab_id(vis, tab_id),
            decreases ids@.len() - i,
        {
            assert(ids@[i as int] == vis[i as int].id);
            if ids[i] == tab_id {
                assert(has_tab_id(vis, tab_id)) by {
                    assert(vis[i as int].id == tab_id);
                }
                return Some(i);
            }
            i += 1;
        }
        None
    }

    /// The file to read into tab `tab_id`, when a read is owed.
    pub fn pending_load_path_for_tab(&self, tab_id: usize) -> (r: Option<String>)
        ensures
            match r {
                Some(p) => pending_load_path(self.tab_bar.spec_tabs(), tab_id) == Some(p@),
                None => pending_load_path(self.tab_bar.spec_tabs(), tab_id) is None,
            },
    {
        proof {
            lemma_index_of_id(self.tab_bar.spec_tabs(), tab_id);
        }
        let tabs = self.tab_bar.tabs();
        match self.tab_bar.get_tab_index_by_id(tab_id) {
            Some(i) => {
                let tab = &tabs[i];
                if tab.summary_loading {
                    None
                } else if tab.summary_failed || !tab.summary_loaded {
                    tab.path.clone()
                } else {
                    None
                }
            },
            None => None,
        }
    }

    /// Starts reading the document at `path` into tab `tab_id`: the tab shows
    /// no pages, its first page is selected and its rendering and text are
    /// forgotten. None when no tab has that id.
    pub fn begin_tab_load(&mut self, tab_id: usize, path: String, remember_recent_file: bool) -> (r:
        Option<TabLoadStart>)
        requires
            old(self).tab_bar.wf(),
        ensures
            final(self).tab_bar.wf(),
            final(self).same_besides_tab_bar(&*old(self)),
            final(self).hovered_markdown_note_id == old(self).hovered_markdown_note_id,
            final(self).tab_bar.spec_active_tab_id() == old(self).tab_bar.spec_active_tab_id(),
            final(self).tab_bar.spec_next_tab_id() == old(self).tab_bar.spec_next_tab_id(),
            match r {
                Some(l) => l.tab_id == tab_id && l.path@ == path@ && l.remember_recent_file
                    == remember_recent_file && tab_changed(
                    old(self).tab_bar.spec_tabs(),
                    final(self).tab_bar.spec_tabs(),
                    tab_id,
                    begins_load(path@),
                ),
                None => index_of_id(old(self).tab_bar.spec_tabs(), tab_id) == -1
                    && final(self).tab_bar == old(self).tab_bar,
            },
    {
        if begin_load_in_bar(&mut self.tab_bar, tab_id, &path) {
            Some(TabLoadStart { tab_id, path, remember_recent_file })
        } else {
            None
        }
    }

    /// Makes tab `tab_id` active, clears the hovered note and reads the
    /// tab's document when a read is owed. False (and nothing changes) when
    /// no tab has that id.
    #[verifier::rlimit(40)]
    pub fn switch_to_tab(&mut self, tab_id: usize) -> (r: (bool, Option<TabLoadStart>))
        requires
            old(self).tab_bar.wf(),
        ensures
            final(self).tab_bar.wf(),
            r.0 == has_tab_id(old(self).tab_bar.spec_tabs(), tab_id),
            r.0 ==> ({
                &&& final(self).same_besides_tab_bar(&*old(self))
                &&& final(self).hovered_markdown_note_id is None
                &&& final(self).tab_bar.spec_active_tab_id() == Some(tab_id)
                &&& final(self).tab_bar.spec_next_tab_id() == old(self).tab_bar.spec_next_tab_id()
                &&& load_if_needed_done(
                    old(self).tab_bar.spec_tabs(),
                    final(self).tab_bar.spec_tabs(),
                    tab_id,
                    r.1,
                )
            }),
            !r.0 ==> final(self).unchanged_from(&*old(self)) && r.1 is None,
    {
        if self.tab_bar.switch_to_tab(tab_id) {
            self.hovered_markdown_note_id = None;
            let load = self.load_tab_if_needed(tab_id);
            (true, load)
        } else {
            (false, None)
        }
    }

    /// Switches to the shown tab at `visible_index`, or to the last shown one
    /// when the index is past the end.
    pub fn switch_to_visible_tab_by_index(&mut self, visible_index: usize) -> (r: (
        bool,
        Option<TabLoadStart>,
    ))
        requires
            old(self).tab_bar.wf(),
        ensures
            final(self).tab_bar.wf(),
            ({
                let vis = tab_ids(visible_tabs(old(self).tab_bar.spec_tabs()));
                if vis.len() == 0 {
                    final(self).unchanged_from(&*old(self)) && !r.0 && r.1 is None
                } else {
                    let id = vis[clamped_page(visible_index, vis.len() as int) as int];
                    &&& r.0
                    &&& final(self).same_besides_tab_bar(&*old(self))
                    &&& final(self).hovered_markdown_note_id is None
                    &&& final(self).tab_bar.spec_active_tab_id() == Some(id)
                    &&& final(self).tab_bar.spec_next_tab_id() == old(
                        self,
                    ).tab_bar.spec_next_tab_id()
                    &&& load_if_needed_done(
                        old(self).tab_bar.spec_tabs(),
                        final(self).tab_bar.spec_tabs(),
                        id,
                        r.1,
                    )
                }
            }),
    {
        let ids = self.visible_tab_ids();
        if ids.len() == 0 {
            return (false, None);
        }
        let last = ids.len() - 1;
        let target = if visible_index < last {
            visible_index
        } else {
            last
        };
        proof {
            lemma_visible_ids_are_tabs(self.tab_bar.spec_tabs(), target as int);
        }
        self.switch_to_tab(ids[target])
    }

    /// Where the tab with `tab_id` was; the caller stores it.
    pub fn save_tab_position_if_needed(&self, tab_id: usize) -> (r: Option<(String, usize)>)
        ensures
            match r {
                Some(p) => position_to_save(self.tab_bar.spec_tabs(), tab_id) == Some((p.0@, p.1)),
                None => position_to_save(self.tab_bar.spec_tabs(), tab_id) is None,
            },
    {
        proof {
            lemma_index_of_id(self.tab_bar.spec_tabs(), tab_id);
        }
        let tabs = self.tab_bar.tabs();
        match self.tab_bar.get_tab_index_by_id(tab_id) {
            Some(i) => {
                let tab = &tabs[i];
                match &tab.path {
                    Some(p) => {
                        if tab.pages.len() > 0 {
                            let last = tab.pages.len() - 1;
                            let page = if tab.active_page < last {
                                tab.active_page
                            } else {
                                last
                            };
                            Some((p.clone(), page))
                        } else {
                            None
                        }
                    },
                    None => None,
                }
            },
            None => None,
        }
    }

    /// Closes the tabs `tab_ids` one after another, after noting where each
    /// closed document was; when no tab remains a new empty one is opened.
    /// The hovered note is cleared and the tab left active is read when a
    /// read is owed. None (and nothing changes) when `tab_ids` is empty.
    #[verifier::rlimit(60)]
    pub fn close_tabs_by_ids(&mut self, tab_ids: Vec<usize>) -> (r: Option<ClosedTabs>)
        requires
            old(self).tab_bar.wf(),
            old(self).tab_bar.spec_next_tab_id() < usize::MAX,
        ensures
            final(self).tab_bar.wf(),
            tab_ids@.len() == 0 ==> r is None && final(self).unchanged_from(&*old(self)),
            tab_ids@.len() > 0 ==> (r matches Some(c) && positions_view(c.saved_positions@)
                == saved_positions(old(self).tab_bar.spec_tabs(), tab_ids@) && closing_done(
                old(self).tab_bar.spec_tabs(),
                old(self).tab_bar.spec_active_tab_id(),
                old(self).tab_bar.spec_next_tab_id(),
                final(self).tab_bar,
                tab_ids@,
                c.load,
            )),
            tab_ids@.len() > 0 ==> final(self).hovered_markdown_note_id is None,
            final(self).same_besides_tab_bar(&*old(self)),
    {
        if tab_ids.len() == 0 {
            return None;
        }
        self.hovered_markdown_note_id = None;
        let ghost tabs0 = self.tab_bar.spec_tabs();
        let ghost active0 = self.tab_bar.spec_active_tab_id();
        let ghost next0 = self.tab_bar.spec_next_tab_id();
        let mut saved: Vec<(String, usize)> = Vec::new();
        let mut i: usize = 0;
        while i < tab_ids.len()
            invariant
                i <= tab_ids@.len(),
                self.tab_bar.spec_tabs() == tabs0,
                positions_view(saved@) == saved_positions(tabs0, tab_ids@.take(i as int)),
            decreases tab_ids@.len() - i,
        {
            assert(tab_ids@.take(i + 1).drop_last() =~= tab_ids@.take(i as int));
            let ghost before = saved@;
            match self.save_tab_position_if_needed(tab_ids[i]) {
                Some(p) => {
                    saved.push(p);
                    assert(positions_view(saved@) =~= positions_view(before).push(
                        (saved@.last().0@, saved@.last().1),
                    ));
                },
                None => {},
            }
            i += 1;
        }
        assert(tab_ids@.take(tab_ids@.len() as int) =~= tab_ids@);
        let mut j: usize = 0;
        while j < tab_ids.len()
            invariant
                j <= tab_ids@.len(),
                self.tab_bar.wf(),
                self.same_besides_tab_bar(&*old(self)),
                self.hovered_markdown_note_id is None,
                self.tab_bar.spec_next_tab_id() == next0,
                next0 < usize::MAX,
                (self.tab_bar.spec_tabs(), self.tab_bar.spec_active_tab_id()) == after_closing(
                    tabs0,
                    active0,
                    tab_ids@.take(j as int),
                ),
            decreases tab_ids@.len() - j,
        {
            assert(tab_ids@.take(j + 1).drop_last() =~= tab_ids@.take(j as int));
            proof {
                lemma_index_of_id(self.tab_bar.spec_tabs(), tab_ids@[j as int]);
            }
            self.tab_bar.close_tab(tab_ids[j]);
            j += 1;
        }
        assert(tab_ids@.take(tab_ids@.len() as int) =~= tab_ids@);
        if !self.tab_bar.has_tabs() {
            self.tab_bar.create_tab();
            proof {
                assert(self.tab_bar.spec_tabs()[0] == self.tab_bar.spec_tabs().last());
            }
            return Some(ClosedTabs { saved_positions: saved, load: None });
        }
        let load = match self.tab_bar.active_tab_id() {
            Some(active) => self.load_tab_if_needed(active),
            None => None,
        };
        Some(ClosedTabs { saved_positions: saved, load })
    }

    /// Closes every tab.
    pub fn close_all_tabs(&mut self) -> (r: Option<ClosedTabs>)
        requires
            old(self).tab_bar.wf(),
            old(self).tab_bar.spec_next_tab_id() < usize::MAX,
        ensures
            final(self).tab_bar.wf(),
            all_tabs_closed(&*old(self), &*final(self), r),
            final(self).same_besides_tab_bar(&*old(self)),
    {
        let ids = all_tab_ids(self.tab_bar.tabs());
        self.close_tabs_by_ids(ids)
    }

    /// Closes the active tab.
    pub fn close_current_tab(&mut self) -> (r: Option<ClosedTabs>)
        requires
            old(self).tab_bar.wf(),
            old(self).tab_bar.spec_next_tab_id() < usize::MAX,
        ensures
            final(self).tab_bar.wf(),
            match old(self).tab_bar.spec_active_tab_id() {
                None => r is None && final(self).unchanged_from(&*old(self)),
                Some(id) => r matches Some(c) && positions_view(c.saved_positions@)
                    == saved_positions(old(self).tab_bar.spec_tabs(), seq![id]) && closing_done(
                    old(self).tab_bar.spec_tabs(),
                    old(self).tab_bar.spec_active_tab_id(),
                    old(self).tab_bar.spec_next_tab_id(),
                    final(self).tab_bar,
                    seq![id],
                    c.load,
                ) && final(self).hovered_markdown_note_id is None,
            },
            final(self).same_besides_tab_bar(&*old(self)),
    {
        match self.tab_bar.active_tab_id() {
            Some(id) => {
                let mut ids: Vec<usize> = Vec::new();
                ids.push(id);
                assert(ids@ =~= seq![id]);
                self.close_tabs_by_ids(ids)
            },
            None => None,
        }
    }

    /// Closes every tab but `keep_tab_id`, which becomes active. None (and
    /// nothing changes) when no tab has that id; when it is the only tab it
    /// just becomes active.
    #[verifier::rlimit(60)]
    pub fn close_other_tabs(&mut self, keep_tab_id: usize) -> (r: Option<ClosedTabs>)
        requires
            old(self).tab_bar.wf(),
            old(self).tab_bar.spec_next_tab_id() < usize::MAX,
        ensures
            final(self).tab_bar.wf(),
            final(self).same_besides_tab_bar(&*old(self)),
            other_tabs_closed(&*old(self), &*final(self), keep_tab_id, r),
    {
        proof {
            lemma_index_of_id(self.tab_bar.spec_tabs(), keep_tab_id);
        }
        if self.tab_bar.get_tab_index_by_id(keep_tab_id).is_none() {
            return None;
        }
        self.tab_bar.switch_to_tab(keep_tab_id);
        let ids = other_ids(self.tab_bar.tabs(), keep_tab_id);
        if ids.len() == 0 {
            return Some(ClosedTabs { saved_positions: Vec::new(), load: None });
        }
        self.close_tabs_by_ids(ids)
    }

    /// Switches to the shown tab `offset` places from the active one,
    /// wrapping around; nothing happens with fewer than two shown tabs.
    #[verifier::rlimit(40)]
    pub fn switch_visible_tab_by_offset(&mut self, offset: isize) -> (r: (bool, Option<TabLoadStart>))
        requires
            old(self).tab_bar.wf(),
        ensures
            final(self).tab_bar.wf(),
            ({
                let tabs = old(self).tab_bar.spec_tabs();
                let vis = tab_ids(visible_tabs(tabs));
                if vis.len() < 2 {
                    final(self).unchanged_from(&*old(self)) && !r.0 && r.1 is None
                } else {
                    let cur = visible_active_position(tabs, old(self).tab_bar.spec_active_tab_id());
                    let id = vis[(cur + offset) % (vis.len() as int)];
                    &&& r.0
                    &&& final(self).same_besides_tab_bar(&*old(self))
                    &&& final(self).hovered_markdown_note_id is None
                    &&& final(self).tab_bar.spec_active_tab_id() == Some(id)
                    &&& final(self).tab_bar.spec_next_tab_id() == old(
                        self,
                    ).tab_bar.spec_next_tab_id()
                    &&& load_if_needed_done(tabs, final(self).tab_bar.spec_tabs(), id, r.1)
                }
            }),
    {
        let ids = self.visible_tab_ids();
        if ids.len() < 2 {
            return (false, None);
        }
        let ghost vis = visible_tabs(self.tab_bar.spec_tabs());
        let current = match self.tab_bar.active_tab_id() {
            Some(a) => match self.visible_tab_index_by_id(a) {
                Some(i) => i,
                None => 0,
            },
            None => 0,
        };
        proof {
            if let Some(a) = self.tab_bar.spec_active_tab_id() {
                lemma_index_of_id(vis, a);
            }
        }
        let next = wrap_index(current, offset, ids.len());
        proof {
            lemma_visible_ids_are_tabs(self.tab_bar.spec_tabs(), next as int);
        }
        self.switch_to_tab(ids[next])
    }

    /// Takes in what reading tab `tab_id`'s page list gave (`None` when it
    /// failed), with the page restored for `path`. Ignored when the tab is
    /// gone or shows another file by now. A file read as asked to be
    /// remembered joins the recent files.
    #[verifier::rlimit(40)]
    pub fn finish_tab_load(
        &mut self,
        tab_id: usize,
        path: &String,
        pages: Option<Vec<PageSummary>>,
        restored_page: Option<usize>,
        remember_recent_file: bool,
    ) -> (r: TabLoadOutcome)
        requires
            old(self).tab_bar.wf(),
        ensures
            final(self).tab_bar.wf(),
            final(self).same_ui_state(&*old(self)),
            final(self).bookmarks == old(self).bookmarks,
            final(self).markdown_notes == old(self).markdown_notes,
            final(self).hovered_markdown_note_id == old(self).hovered_markdown_note_id,
            final(self).tab_bar.spec_active_tab_id() == old(self).tab_bar.spec_active_tab_id(),
            final(self).tab_bar.spec_next_tab_id() == old(self).tab_bar.spec_next_tab_id(),
            ({
                let tabs = old(self).tab_bar.spec_tabs();
                let i = index_of_id(tabs, tab_id);
                if i < 0 {
                    &&& r is TabClosed
                    &&& final(self).tab_bar.spec_tabs() == tabs
                    &&& final(self).recent_files == old(self).recent_files
                } else if !(tabs[i].path matches Some(p) && p@ == path@) {
                    &&& r is Superseded
                    &&& final(self).tab_bar.spec_tabs() == tabs
                    &&& final(self).recent_files == old(self).recent_files
                } else {
                    match pages {
                        Some(ps) => {
                            let initial = initial_page_of(ps@.len() as int, restored_page);
                            &&& r == (TabLoadOutcome::Loaded { initial_page: initial })
                            &&& tab_changed(
                                tabs,
                                final(self).tab_bar.spec_tabs(),
                                tab_id,
                                finishes_load(ps@, initial),
                            )
                            &&& if remember_recent_file {
                                crate::viewer::paths_view(final(self).recent_files@)
                                    == crate::viewer::recent_after_open(
                                    crate::viewer::paths_view(old(self).recent_files@),
                                    path@,
                                )
                            } else {
                                final(self).recent_files == old(self).recent_files
                            }
                        },
                        None => {
                            &&& r is Failed
                            &&& tab_changed(tabs, final(self).tab_bar.spec_tabs(), tab_id, fails_load())
                            &&& final(self).recent_files == old(self).recent_files
                        },
                    }
                }
            }),
    {
        proof {
            lemma_index_of_id(self.tab_bar.spec_tabs(), tab_id);
        }
        let i = match self.tab_bar.get_tab_index_by_id(tab_id) {
            Some(i) => i,
            None => return TabLoadOutcome::TabClosed,
        };
        let same_file = match &self.tab_bar.tabs()[i].path {
            Some(p) => *p == *path,
            None => false,
        };
        if !same_file {
            return TabLoadOutcome::Superseded;
        }
        let outcome = finish_load_in_bar(&mut self.tab_bar, tab_id, pages, restored_page);
        if remember_recent_file {
            if let TabLoadOutcome::Loaded { .. } = outcome {
                self.remember_recent_file(path);
            }
        }
        outcome
    }

    /// Reads `path` into the active tab (a new tab when there is none) and
    /// makes that tab active; the file joins the recent files once read.
    #[verifier::rlimit(40)]
    pub fn open_pdf_path_in_current_tab(&mut self, path: String) -> (r: TabLoadStart)
        requires
            old(self).tab_bar.wf(),
            old(self).tab_bar.spec_next_tab_id() < usize::MAX,
        ensures
            final(self).tab_bar.wf(),
            final(self).same_besides_tab_bar(&*old(self)),
            final(self).hovered_markdown_note_id == old(self).hovered_markdown_note_id,
            r.path@ == path@,
            r.remember_recent_file,
            final(self).tab_bar.spec_active_tab_id() == Some(r.tab_id),
            match old(self).tab_bar.spec_active_tab_id() {
                Some(id) => {
                    &&& r.tab_id == id
                    &&& final(self).tab_bar.spec_next_tab_id() == old(self).tab_bar.spec_next_tab_id()
                    &&& tab_changed(
                        old(self).tab_bar.spec_tabs(),
                        final(self).tab_bar.spec_tabs(),
                        id,
                        begins_load(path@),
                    )
                },
                None => {
                    let next = old(self).tab_bar.spec_next_tab_id();
                    &&& r.tab_id == next
                    &&& final(self).tab_bar.spec_next_tab_id() == next + 1
                    &&& final(self).tab_bar.spec_tabs().len() == old(self).tab_bar.spec_tabs().len() + 1
                    &&& final(self).tab_bar.spec_tabs().drop_last() == old(self).tab_bar.spec_tabs()
                    &&& new_tab_loading(final(self).tab_bar.spec_tabs().last(), next, path@)
                },
            },
    {
        let tab_id = match self.tab_bar.active_tab_id() {
            Some(id) => {
                proof {
                    lemma_index_of_id(self.tab_bar.spec_tabs(), id);
                }
                id
            },
            None => self.tab_bar.create_tab(),
        };
        let ghost created = self.tab_bar.spec_tabs();
        self.tab_bar.switch_to_tab(tab_id);
        proof {
            lemma_index_of_id(created, tab_id);
            if old(self).tab_bar.spec_active_tab_id() is None {
                assert(created.last().id == tab_id);
                assert(index_of_id(created, tab_id) == created.len() - 1) by {
                    assert(forall|k: int| 0 <= k < created.len() - 1 ==> created[k] == old(
                        self,
                    ).tab_bar.spec_tabs()[k]);
                }
            }
        }
        self.begin_loading_existing_tab(tab_id, path)
    }

    /// Reads `path` into a new tab, which becomes active; the file joins the
    /// recent files once read.
    #[verifier::rlimit(40)]
    pub fn open_pdf_path_in_new_tab(&mut self, path: String) -> (r: TabLoadStart)
        requires
            old(self).tab_bar.wf(),
            old(self).tab_bar.spec_next_tab_id() < usize::MAX,
        ensures
            final(self).tab_bar.wf(),
            final(self).same_besides_tab_bar(&*old(self)),
            final(self).hovered_markdown_note_id == old(self).hovered_markdown_note_id,
            r.path@ == path@,
            r.remember_recent_file,
            ({
                let next = old(self).tab_bar.spec_next_tab_id();
                &&& r.tab_id == next
                &&& final(self).tab_bar.spec_active_tab_id() == Some(next)
                &&& final(self).tab_bar.spec_next_tab_id() == next + 1
                &&& final(self).tab_bar.spec_tabs().len() == old(self).tab_bar.spec_tabs().len() + 1
                &&& final(self).tab_bar.spec_tabs().drop_last() == old(self).tab_bar.spec_tabs()
                &&& new_tab_loading(final(self).tab_bar.spec_tabs().last(), next, path@)
            }),
    {
        let tab_id = self.tab_bar.create_tab();
        let ghost created = self.tab_bar.spec_tabs();
        proof {
            lemma_index_of_id(created, tab_id);
            assert(created.last().id == tab_id);
            assert(index_of_id(created, tab_id) == created.len() - 1) by {
                assert(forall|k: int| 0 <= k < created.len() - 1 ==> created[k] == old(
                    self,
                ).tab_bar.spec_tabs()[k]);
            }
        }
        self.tab_bar.switch_to_tab(tab_id);
        self.begin_loading_existing_tab(tab_id, path)
    }

    /// Starts reading `path` into tab `tab_id`, known to exist.
    fn begin_loading_existing_tab(&mut self, tab_id: usize, path: String) -> (r: TabLoadStart)
        requires
            old(self).tab_bar.wf(),
            has_tab_id(old(self).tab_bar.spec_tabs(), tab_id),
        ensures
            final(self).tab_bar.wf(),
            final(self).same_besides_tab_bar(&*old(self)),
            final(self).hovered_markdown_note_id == old(self).hovered_markdown_note_id,
            final(self).tab_bar.spec_active_tab_id() == old(self).tab_bar.spec_active_tab_id(),
            final(self).tab_bar.spec_next_tab_id() == old(self).tab_bar.spec_next_tab_id(),
            r.tab_id == tab_id,
            r.path@ == path@,
            r.remember_recent_file,
            tab_changed(
                old(self).tab_bar.spec_tabs(),
                final(self).tab_bar.spec_tabs(),
                tab_id,
                begins_load(path@),
            ),
    {
        proof {
            lemma_index_of_id(self.tab_bar.spec_tabs(), tab_id);
        }
        let fallback = TabLoadStart { tab_id, path: path.clone(), remember_recent_file: true };
        match self.begin_tab_load(tab_id, path, true) {
            Some(l) => l,
            None => fallback,
        }
    }

    /// Opens a recent file: drops it from the recent files when it no longer
    /// exists, switches to the tab already showing it, or reads it into a
    /// new tab.
    #[verifier::rlimit(60)]
    pub fn open_recent_pdf(&mut self, path: String, exists: bool) -> (r: RecentOpen)
        requires
            old(self).tab_bar.wf(),
            old(self).tab_bar.spec_next_tab_id() < usize::MAX,
        ensures
            final(self).tab_bar.wf(),
            final(self).bookmarks == old(self).bookmarks,
            final(self).markdown_notes == old(self).markdown_notes,
            final(self).same_ui_state(&*old(self)),
            ({
                let tabs = old(self).tab_bar.spec_tabs();
                let i = index_of_path(tabs, path@);
                if !exists {
                    &&& r is Forgotten
                    &&& crate::viewer::paths_view(final(self).recent_files@) == crate::viewer::paths_view(
                        old(self).recent_files@,
                    ).filter(crate::viewer::differs_from(path@))
                    &&& final(self).tab_bar.spec_tabs() == tabs
                    &&& final(self).tab_bar.spec_active_tab_id() == old(self).tab_bar.spec_active_tab_id()
                    &&& final(self).tab_bar.spec_next_tab_id() == old(self).tab_bar.spec_next_tab_id()
                    &&& final(self).hovered_markdown_note_id == old(self).hovered_markdown_note_id
                } else if i >= 0 {
                    &&& r matches RecentOpen::Switched { load }
                    &&& final(self).recent_files == old(self).recent_files
                    &&& final(self).hovered_markdown_note_id is None
                    &&& final(self).tab_bar.spec_active_tab_id() == Some(tabs[i].id)
                    &&& final(self).tab_bar.spec_next_tab_id() == old(self).tab_bar.spec_next_tab_id()
                    &&& load_if_needed_done(tabs, final(self).tab_bar.spec_tabs(), tabs[i].id, load)
                } else {
                    let next = old(self).tab_bar.spec_next_tab_id();
                    &&& r matches RecentOpen::Opened(l)
                    &&& l.tab_id == next && l.path@ == path@ && l.remember_recent_file
                    &&& final(self).recent_files == old(self).recent_files
                    &&& final(self).hovered_markdown_note_id == old(self).hovered_markdown_note_id
                    &&& final(self).tab_bar.spec_active_tab_id() == Some(next)
                    &&& final(self).tab_bar.spec_next_tab_id() == next + 1
                    &&& final(self).tab_bar.spec_tabs().drop_last() == tabs
                    &&& final(self).tab_bar.spec_tabs().len() == tabs.len() + 1
                    &&& new_tab_loading(final(self).tab_bar.spec_tabs().last(), next, path@)
                }
            }),
    {
        if !exists {
            self.forget_recent_file(&path);
            return RecentOpen::Forgotten;
        }
        match tab_index_showing(self.tab_bar.tabs(), &path) {
            Some(i) => {
                let id = self.tab_bar.tabs()[i].id;
                proof {
                    assert(has_tab_id(self.tab_bar.spec_tabs(), id));
                }
                let (_, load) = self.switch_to_tab(id);
                RecentOpen::Switched { load }
            },
            None => RecentOpen::Opened(self.open_pdf_path_in_new_tab(path)),
        }
    }

    /// Drops `path` from the recent files.
    pub fn forget_recent_file(&mut self, path: &String)
        ensures
            crate::viewer::paths_view(final(self).recent_files@) == crate::viewer::paths_view(
                old(self).recent_files@,
            ).filter(crate::viewer::differs_from(path@)),
            final(self).tab_bar == old(self).tab_bar,
            final(self).bookmarks == old(self).bookmarks,
            final(self).markdown_notes == old(self).markdown_notes,
            final(self).hovered_markdown_note_id == old(self).hovered_markdown_note_id,
            final(self).same_ui_state(&*old(self)),
    {
        let ghost old_view = crate::viewer::paths_view(self.recent_files@);
        let ghost pred = crate::viewer::differs_from(path@);
        let mut kept: Vec<String> = Vec::new();
        let mut i: usize = 0;
        while i < self.recent_files.len()
            invariant
                i <= self.recent_files@.len(),
                self.recent_files@ == old(self).recent_files@,
                old_view == crate::viewer::paths_view(self.recent_files@),
                pred == crate::viewer::differs_from(path@),
                crate::viewer::paths_view(kept@) == old_view.take(i as int).filter(pred),
            decreases self.recent_files@.len() - i,
        {
            assert(old_view.take(i + 1).drop_last() =~= old_view.take(i as int));
            assert(old_view.take(i + 1).last() == self.recent_files@[i as int]@);
            proof {
                reveal(Seq::filter);
            }
            let ghost before = kept@;
            if self.recent_files[i] != *path {
                kept.push(self.recent_files[i].clone());
                assert(crate::viewer::paths_view(kept@) =~= crate::viewer::paths_view(before).push(
                    self.recent_files@[i as int]@,
                ));
            }
            i += 1;
        }
        assert(old_view.take(old_view.len() as int) =~= old_view);
        self.recent_files = kept;
    }

    /// Opens a file picked in the file dialog: the first one goes into the
    /// active tab when that tab shows nothing, every other into a new tab.
    #[verifier::rlimit(40)]
    pub fn open_picked_path(&mut self, path: String, is_first: bool) -> (r: TabLoadStart)
        requires
            old(self).tab_bar.wf(),
            old(self).tab_bar.spec_next_tab_id() < usize::MAX,
        ensures
            final(self).tab_bar.wf(),
            final(self).same_besides_tab_bar(&*old(self)),
            final(self).hovered_markdown_note_id == old(self).hovered_markdown_note_id,
            r.path@ == path@,
            r.remember_recent_file,
            final(self).tab_bar.spec_active_tab_id() == Some(r.tab_id),
            ({
                let tabs = old(self).tab_bar.spec_tabs();
                let i = old(self).tab_bar.active_index();
                let next = old(self).tab_bar.spec_next_tab_id();
                if is_first && 0 <= i < tabs.len() && tabs[i].path is None {
                    &&& r.tab_id == tabs[i].id
                    &&& final(self).tab_bar.spec_next_tab_id() == next
                    &&& tab_changed(tabs, final(self).tab_bar.spec_tabs(), tabs[i].id, begins_load(path@))
                } else {
                    &&& r.tab_id == next
                    &&& final(self).tab_bar.spec_next_tab_id() == next + 1
                    &&& final(self).tab_bar.spec_tabs().drop_last() == tabs
                    &&& final(self).tab_bar.spec_tabs().len() == tabs.len() + 1
                    &&& new_tab_loading(final(self).tab_bar.spec_tabs().last(), next, path@)
                }
            }),
    {
        proof {
            if let Some(a) = self.tab_bar.spec_active_tab_id() {
                lemma_index_of_id(self.tab_bar.spec_tabs(), a);
            }
        }
        let active_is_empty = match self.tab_bar.get_active_tab() {
            Some(tab) => tab.path.is_none(),
            None => false,
        };
        if is_first && active_is_empty {
            self.open_pdf_path_in_current_tab(path)
        } else {
            self.open_pdf_path_in_new_tab(path)
        }
    }

    /// The active tab's reading position, unless it is the one last saved;
    /// the caller stores it.
    pub fn persist_current_file_position(&self) -> (r: Option<(String, usize)>)
        requires
            self.tab_bar.wf(),
        ensures
            match r {
                Some(p) => current_position_to_save(
                    self.tab_bar.spec_tabs(),
                    self.tab_bar.spec_active_tab_id(),
                ) == Some((p.0@, p.1)),
                None => current_position_to_save(
                    self.tab_bar.spec_tabs(),
                    self.tab_bar.spec_active_tab_id(),
                ) is None,
            },
    {
        let id = match self.tab_bar.active_tab_id() {
            Some(id) => id,
            None => return None,
        };
        proof {
            lemma_index_of_id(self.tab_bar.spec_tabs(), id);
        }
        let (path, page) = match self.save_tab_position_if_needed(id) {
            Some(p) => p,
            None => return None,
        };
        let i = match self.tab_bar.get_tab_index_by_id(id) {
            Some(i) => i,
            None => return None,
        };
        let already = match &self.tab_bar.tabs()[i].last_saved_position {
            Some((saved_path, saved_page)) => *saved_path == path && *saved_page == page,
            None => false,
        };
        if already {
            None
        } else {
            Some((path, page))
        }
    }

    /// The tab being dragged, if any.
    pub fn current_drag_source_tab_id(&self) -> (r: Option<usize>)
        ensures
            r == drag_source(self.pointer.drag_state),
    {
        match self.pointer.drag_state {
            DragState::Started { source_tab_id } => Some(source_tab_id),
            DragState::Over { source_tab_id, .. } => Some(source_tab_id),
            DragState::Idle => None,
        }
    }

    /// A tab was pressed: it may start being dragged once the pointer has
    /// moved far enough. False (and nothing changes) when no tab has that id.
    pub fn press_tab(&mut self, tab_id: usize) -> (r: bool)
        ensures
            final(self).same_but_pointer(&*old(self)),
            r == has_tab_id(old(self).tab_bar.spec_tabs(), tab_id),
            final(self).pointer == if r {
                PointerState {
                    pending_drag_tab_id: Some(tab_id),
                    drag_state: DragState::Idle,
                    ..old(self).pointer
                }
            } else {
                old(self).pointer
            },
    {
        proof {
            lemma_index_of_id(self.tab_bar.spec_tabs(), tab_id);
        }
        if self.tab_bar.get_tab_index_by_id(tab_id).is_some() {
            self.pointer.pending_drag_tab_id = Some(tab_id);
            self.pointer.drag_state = DragState::Idle;
            true
        } else {
            false
        }
    }

    /// Starts dragging the pressed tab once the pointer has moved at least
    /// the drag distance (`moved_far_enough`, measured by the caller) and no
    /// drag is under way. True when it started.
    pub fn maybe_start_pending_tab_drag(&mut self, moved_far_enough: bool) -> (r: bool)
        ensures
            final(self).same_but_pointer(&*old(self)),
            r == (old(self).pointer.pending_drag_tab_id is Some && drag_source(
                old(self).pointer.drag_state,
            ) is None && moved_far_enough),
            final(self).pointer == if r {
                PointerState {
                    drag_state: DragState::Started {
                        source_tab_id: old(self).pointer.pending_drag_tab_id->0,
                    },
                    pending_drag_tab_id: None,
                    ..old(self).pointer
                }
            } else {
                old(self).pointer
            },
    {
        let source = match self.pointer.pending_drag_tab_id {
            Some(id) => id,
            None => return false,
        };
        if self.current_drag_source_tab_id().is_some() || !moved_far_enough {
            return false;
        }
        self.pointer.drag_state = DragState::Started { source_tab_id: source };
        self.pointer.pending_drag_tab_id = None;
        true
    }

    /// The pointer moved: a pressed tab may start being dragged, and leaving
    /// the tab bar (`in_tab_bar`, judged by the caller) drops the drop target.
    pub fn update_drag_mouse_position(&mut self, moved_far_enough: bool, in_tab_bar: bool) -> (r:
        DragMove)
        ensures
            final(self).same_but_pointer(&*old(self)),
            r.started == (old(self).pointer.pending_drag_tab_id is Some && drag_source(
                old(self).pointer.drag_state,
            ) is None && moved_far_enough),
            ({
                let started = if r.started {
                    PointerState {
                        drag_state: DragState::Started {
                            source_tab_id: old(self).pointer.pending_drag_tab_id->0,
                        },
                        pending_drag_tab_id: None,
                        ..old(self).pointer
                    }
                } else {
                    old(self).pointer
                };
                &&& r.source_tab_id == drag_source(started.drag_state)
                &&& r.target_cleared == (r.source_tab_id matches Some(s) && !in_tab_bar
                    && started.drag_state != (DragState::Started { source_tab_id: s }))
                &&& final(self).pointer == if r.target_cleared {
                    PointerState {
                        drag_state: DragState::Started { source_tab_id: r.source_tab_id->0 },
                        ..started
                    }
                } else {
                    started
                }
            }),
    {
        let started = self.maybe_start_pending_tab_drag(moved_far_enough);
        let source = self.current_drag_source_tab_id();
        let mut cleared = false;
        if let Some(s) = source {
            let at_source = match self.pointer.drag_state {
                DragState::Started { source_tab_id } => source_tab_id == s,
                _ => false,
            };
            if !in_tab_bar && !at_source {
                self.pointer.drag_state = DragState::Started { source_tab_id: s };
                cleared = true;
            }
        }
        DragMove { started, source_tab_id: source, target_cleared: cleared }
    }

    /// The pointer moved over tab `tab_id`: during a drag of another tab it
    /// becomes the drop target. True when the target changed.
    pub fn drag_over_tab(&mut self, tab_id: usize) -> (r: bool)
        ensures
            final(self).same_but_pointer(&*old(self)),
            r == (drag_source(old(self).pointer.drag_state) matches Some(s) && s != tab_id
                && old(self).pointer.drag_state != (DragState::Over {
                source_tab_id: s,
                target_tab_id: tab_id,
            })),
            final(self).pointer == if r {
                PointerState {
                    drag_state: DragState::Over {
                        source_tab_id: drag_source(old(self).pointer.drag_state)->0,
                        target_tab_id: tab_id,
                    },
                    ..old(self).pointer
                }
            } else {
                old(self).pointer
            },
    {
        let source = match self.current_drag_source_tab_id() {
            Some(s) => s,
            None => return false,
        };
        if source == tab_id {
            return false;
        }
        let already = match self.pointer.drag_state {
            DragState::Over { source_tab_id, target_tab_id } => source_tab_id == source
                && target_tab_id == tab_id,
            _ => false,
        };
        if already {
            return false;
        }
        self.pointer.drag_state = DragState::Over { source_tab_id: source, target_tab_id: tab_id };
        true
    }

    /// The pointer entered or left tab `tab_id`. Leaving the drop target
    /// drops it. True when something changed.
    pub fn set_tab_hovered(&mut self, tab_id: usize, hovered: bool) -> (r: bool)
        ensures
            final(self).same_but_pointer(&*old(self)),
            ({
                let p = old(self).pointer;
                if hovered {
                    &&& r == (p.hovered_tab_id != Some(tab_id))
                    &&& final(self).pointer == PointerState { hovered_tab_id: Some(tab_id), ..p }
                } else if p.hovered_tab_id == Some(tab_id) {
                    &&& r
                    &&& final(self).pointer == PointerState {
                        hovered_tab_id: None,
                        drag_state: match p.drag_state {
                            DragState::Over { source_tab_id, target_tab_id } => if target_tab_id
                                == tab_id {
                                DragState::Started { source_tab_id }
                            } else {
                                p.drag_state
                            },
                            _ => p.drag_state,
                        },
                        ..p
                    }
                } else {
                    !r && final(self).pointer == p
                }
            }),
    {
        if hovered {
            if self.pointer.hovered_tab_id != Some(tab_id) {
                self.pointer.hovered_tab_id = Some(tab_id);
                return true;
            }
            return false;
        }
        if self.pointer.hovered_tab_id == Some(tab_id) {
            self.pointer.hovered_tab_id = None;
            if let DragState::Over { source_tab_id, target_tab_id } = self.pointer.drag_state {
                if target_tab_id == tab_id {
                    self.pointer.drag_state = DragState::Started { source_tab_id };
                }
            }
            return true;
        }
        false
    }

    /// The pointer was released: a drag over another tab moves the dragged
    /// tab to the target's place. Returns whether anything changed and
    /// whether the tab order did.
    #[verifier::rlimit(40)]
    pub fn finish_tab_drag(&mut self) -> (r: (bool, bool))
        requires
            old(self).tab_bar.wf(),
        ensures
            final(self).tab_bar.wf(),
            final(self).recent_files == old(self).recent_files,
            final(self).bookmarks == old(self).bookmarks,
            final(self).markdown_notes == old(self).markdown_notes,
            final(self).hovered_markdown_note_id == old(self).hovered_markdown_note_id,
            final(self).same_ui_state_but_pointer(&*old(self)),
            final(self).tab_bar.spec_active_tab_id() == old(self).tab_bar.spec_active_tab_id(),
            final(self).tab_bar.spec_next_tab_id() == old(self).tab_bar.spec_next_tab_id(),
            final(self).pointer.pending_drag_tab_id is None,
            final(self).pointer.hovered_tab_id == old(self).pointer.hovered_tab_id,
            final(self).pointer.text_hover_target == old(self).pointer.text_hover_target,
            final(self).pointer.drag_state == DragState::Idle,
            ({
                let tabs = old(self).tab_bar.spec_tabs();
                match old(self).pointer.drag_state {
                    DragState::Over { source_tab_id, target_tab_id } => {
                        let from = index_of_id(tabs, source_tab_id);
                        let to = index_of_id(tabs, target_tab_id);
                        &&& r.0
                        &&& r.1 == (from >= 0 && to >= 0 && from != to)
                        &&& final(self).tab_bar.spec_tabs() == if r.1 {
                            tabs.remove(from).insert(to, tabs[from])
                        } else {
                            tabs
                        }
                    },
                    DragState::Started { .. } => r.0 && !r.1 && final(self).tab_bar.spec_tabs() == tabs,
                    DragState::Idle => r.0 == old(self).pointer.pending_drag_tab_id is Some && !r.1
                        && final(self).tab_bar.spec_tabs() == tabs,
                }
            }),
    {
        let had_pending = self.pointer.pending_drag_tab_id.is_some();
        self.pointer.pending_drag_tab_id = None;
        match self.pointer.drag_state {
            DragState::Over { source_tab_id, target_tab_id } => {
                proof {
                    lemma_index_of_id(self.tab_bar.spec_tabs(), source_tab_id);
                    lemma_index_of_id(self.tab_bar.spec_tabs(), target_tab_id);
                }
                let from = self.tab_bar.get_tab_index_by_id(source_tab_id);
                let to = self.tab_bar.get_tab_index_by_id(target_tab_id);
                let mut moved = false;
                if let (Some(f), Some(t)) = (from, to) {
                    if f != t {
                        self.tab_bar.move_tab(f, t);
                        moved = true;
                    }
                }
                self.pointer.drag_state = DragState::Idle;
                (true, moved)
            },
            DragState::Started { .. } => {
                self.pointer.drag_state = DragState::Idle;
                (true, false)
            },
            DragState::Idle => (had_pending, false),
        }
    }

    /// Where the drop marker goes among the shown tabs: before the drop
    /// target.
    pub fn drag_insertion_index(&self) -> (r: Option<usize>)
        ensures
            match self.pointer.drag_state {
                DragState::Over { target_tab_id, .. } => {
                    let k = index_of_id(visible_tabs(self.tab_bar.spec_tabs()), target_tab_id);
                    if k >= 0 {
                        r == Some(k as usize)
                    } else {
                        r is None
                    }
                },
                _ => r is None,
            },
    {
        match self.pointer.drag_state {
            DragState::Over { target_tab_id, .. } => self.visible_tab_index_by_id(target_tab_id),
            _ => None,
        }
    }

    /// Whether a tab is being dragged.
    pub fn drag_in_progress(&self) -> (r: bool)
        ensures
            r == (drag_source(self.pointer.drag_state) is Some),
    {
        self.current_drag_source_tab_id().is_some()
    }

    /// What the bar draws, one item per shown tab.
    pub fn tab_bar_items(&self) -> (r: Vec<TabBarItem>)
        ensures
            ({
                let vis = visible_tabs(self.tab_bar.spec_tabs());
                &&& r@.len() == vis.len()
                &&& forall|k: int|
                    0 <= k < vis.len() ==> tab_bar_item_of(
                        #[trigger] r@[k],
                        vis[k],
                        self.tab_bar.spec_active_tab_id(),
                        self.pointer.hovered_tab_id,
                        self.pointer.drag_state,
                    )
            }),
    {
        let tabs = self.tab_bar.tabs();
        let file_open = any_file_open(tabs);
        let ghost pred = shown_in_bar(file_open);
        let active = self.tab_bar.active_tab_id();
        let hovered = self.pointer.hovered_tab_id;
        let source = self.current_drag_source_tab_id();
        let mut r: Vec<TabBarItem> = Vec::new();
        let mut i: usize = 0;
        while i < tabs.len()
            invariant
                i <= tabs@.len(),
                tabs@ == self.tab_bar.spec_tabs(),
                file_open == has_file_open(tabs@),
                pred == shown_in_bar(file_open),
                active == self.tab_bar.spec_active_tab_id(),
                hovered == self.pointer.hovered_tab_id,
                source == drag_source(self.pointer.drag_state),
                r@.len() == tabs@.take(i as int).filter(pred).len(),
                forall|k: int|
                    0 <= k < r@.len() ==> tab_bar_item_of(
                        #[trigger] r@[k],
                        tabs@.take(i as int).filter(pred)[k],
                        active,
                        hovered,
                        self.pointer.drag_state,
                    ),
            decreases tabs@.len() - i,
        {
            assert(tabs@.take(i + 1).drop_last() =~= tabs@.take(i as int));
            proof {
                reveal(Seq::filter);
            }
            let tab = &tabs[i];
            if !file_open || tab.path.is_some() {
                let id = tab.id;
                let is_active = match active {
                    Some(a) => a == id,
                    None => false,
                };
                let is_hovered = match hovered {
                    Some(h) => h == id,
                    None => false,
                };
                let is_source = match source {
                    Some(s) => s == id,
                    None => false,
                };
                r.push(
                    TabBarItem {
                        tab_id: id,
                        label: tab.file_name(),
                        is_active,
                        show_close_button: is_active || is_hovered,
                        is_home: tab.path.is_none(),
                        is_drag_source: is_source,
                    },
                );
            }
            i += 1;
        }
        assert(tabs@.take(tabs@.len() as int) =~= tabs@);
        r
    }

    /// The choices of tab `tab_id`'s context menu that can be taken:
    /// `(close others, reveal)`; none when no tab has that id.
    pub fn tab_context_menu_options(&self, tab_id: usize) -> (r: Option<(bool, bool)>)
        ensures
            r == tab_menu_options(self.tab_bar.spec_tabs(), tab_id),
    {
        proof {
            lemma_index_of_id(self.tab_bar.spec_tabs(), tab_id);
        }
        let tabs = self.tab_bar.tabs();
        match self.tab_bar.get_tab_index_by_id(tab_id) {
            Some(i) => Some((tabs.len() > 1, tabs[i].path.is_some())),
            None => None,
        }
    }

    /// Opens tab `tab_id`'s context menu: on macOS the platform's menu (the
    /// window's menu is closed first), elsewhere the menu drawn in the
    /// window, for that tab.
    pub fn open_tab_context_menu(&mut self, tab_id: usize, platform: Platform) -> (r: TabMenu)
        ensures
            final(self).same_but_context_menu(&*old(self)),
            match tab_menu_options(old(self).tab_bar.spec_tabs(), tab_id) {
                None => r is Ignored && final(self).context_menu == old(self).context_menu,
                Some(opts) => if platform == Platform::MacOs {
                    &&& r == (TabMenu::Native { can_close_others: opts.0, can_reveal: opts.1 })
                    &&& final(self).context_menu == if old(self).context_menu.open || old(
                        self,
                    ).context_menu.tab_id is Some {
                        ContextMenuState { open: false, tab_id: None, note_id: None }
                    } else {
                        old(self).context_menu
                    }
                } else {
                    &&& r is InWindow
                    &&& final(self).context_menu == (ContextMenuState {
                        open: true,
                        tab_id: Some(tab_id),
                        note_id: None,
                    })
                },
            },
    {
        let opts = match self.tab_context_menu_options(tab_id) {
            Some(o) => o,
            None => return TabMenu::Ignored,
        };
        match platform {
            Platform::MacOs => {
                self.close_context_menu();
                TabMenu::Native { can_close_others: opts.0, can_reveal: opts.1 }
            },
            _ => {
                self.context_menu = ContextMenuState { open: true, tab_id: Some(tab_id), note_id: None };
                TabMenu::InWindow
            },
        }
    }

    /// Closes the in-window context menu; true when it was open or held a
    /// tab.
    pub fn close_context_menu(&mut self) -> (r: bool)
        ensures
            final(self).same_but_context_menu(&*old(self)),
            r == (old(self).context_menu.open || old(self).context_menu.tab_id is Some),
            final(self).context_menu == if r {
                ContextMenuState { open: false, tab_id: None, note_id: None }
            } else {
                old(self).context_menu
            },
    {
        if !self.context_menu.open && self.context_menu.tab_id.is_none() {
            return false;
        }
        self.context_menu = ContextMenuState { open: false, tab_id: None, note_id: None };
        true
    }

    /// The file of tab `tab_id`, to show in the file manager.
    pub fn reveal_tab_in_file_manager(&self, tab_id: usize) -> (r: Option<String>)
        ensures
            ({
                let tabs = self.tab_bar.spec_tabs();
                let i = index_of_id(tabs, tab_id);
                match r {
                    Some(p) => i >= 0 && tabs[i].path == Some(p),
                    None => i < 0 || tabs[i].path is None,
                }
            }),
    {
        proof {
            lemma_index_of_id(self.tab_bar.spec_tabs(), tab_id);
        }
        match self.tab_bar.get_tab_index_by_id(tab_id) {
            Some(i) => self.tab_bar.tabs()[i].path.clone(),
            None => None,
        }
    }

    /// Carries out a choice made in tab `tab_id`'s native menu.
    #[verifier::rlimit(40)]
    pub fn apply_tab_menu_action(&mut self, tab_id: usize, action: MacTabContextMenuAction) -> (r:
        TabMenuEffect)
        requires
            old(self).tab_bar.wf(),
            old(self).tab_bar.spec_next_tab_id() < usize::MAX,
        ensures
            final(self).tab_bar.wf(),
            final(self).same_besides_tab_bar(&*old(self)),
            match action {
                MacTabContextMenuAction::CloseAllTabs => r matches TabMenuEffect::Closed(c)
                    && all_tabs_closed(&*old(self), &*final(self), c),
                MacTabContextMenuAction::CloseOtherTabs => r matches TabMenuEffect::Closed(c)
                    && other_tabs_closed(&*old(self), &*final(self), tab_id, c),
                MacTabContextMenuAction::RevealInFinder => {
                    let tabs = old(self).tab_bar.spec_tabs();
                    let i = index_of_id(tabs, tab_id);
                    &&& final(self).unchanged_from(&*old(self))
                    &&& r matches TabMenuEffect::Reveal(p) && match p {
                        Some(path) => i >= 0 && tabs[i].path == Some(path),
                        None => i < 0 || tabs[i].path is None,
                    }
                },
            },
    {
        match action {
            MacTabContextMenuAction::CloseAllTabs => TabMenuEffect::Closed(self.close_all_tabs()),
            MacTabContextMenuAction::CloseOtherTabs => TabMenuEffect::Closed(
                self.close_other_tabs(tab_id),
            ),
            MacTabContextMenuAction::RevealInFinder => TabMenuEffect::Reveal(
                self.reveal_tab_in_file_manager(tab_id),
            ),
        }
    }

    /// Starts reading tab `tab_id`'s document when a read is owed.
    pub fn load_tab_if_needed(&mut self, tab_id: usize) -> (r: Option<TabLoadStart>)
        requires
            old(self).tab_bar.wf(),
        ensures
            final(self).tab_bar.wf(),
            final(self).same_besides_tab_bar(&*old(self)),
            final(self).hovered_markdown_note_id == old(self).hovered_markdown_note_id,
            final(self).tab_bar.spec_active_tab_id() == old(self).tab_bar.spec_active_tab_id(),
            final(self).tab_bar.spec_next_tab_id() == old(self).tab_bar.spec_next_tab_id(),
            load_if_needed_done(old(self).tab_bar.spec_tabs(), final(self).tab_bar.spec_tabs(), tab_id, r),
    {
        proof {
            lemma_index_of_id(self.tab_bar.spec_tabs(), tab_id);
        }
        let r = match self.pending_load_path_for_tab(tab_id) {
            Some(path) => self.begin_tab_load(tab_id, path, false),
            None => None,
        };
        proof {
            reveal(load_if_needed_done);
        }
        r
    }
}

/// The ids of the tabs, in order.
fn all_tab_ids(tabs: &[PdfTab]) -> (r: Vec<usize>)
    ensures
        r@ == tab_ids(tabs@),
{
    let mut r: Vec<usize> = Vec::new();
    let mut i: usize = 0;
    while i < tabs.len()
        invariant
            i <= tabs@.len(),
            r@ == tab_ids(tabs@.take(i as int)),
        decreases tabs@.len() - i,
    {
        r.push(tabs[i].id);
        assert(tab_ids(tabs@.take(i + 1)) =~= tab_ids(tabs@.take(i as int)).push(tabs@[i as int].id));
        i += 1;
    }
    assert(tabs@.take(tabs@.len() as int) =~= tabs@);
    r
}

/// The ids of the tabs other than `keep`, in order.
fn other_ids(tabs: &[PdfTab], keep: usize) -> (r: Vec<usize>)
    ensures
        r@ == other_tab_ids(tabs@, keep),
{
    let ghost pred = differs_from_id(keep);
    let mut r: Vec<usize> = Vec::new();
    let mut i: usize = 0;
    while i < tabs.len()
        invariant
            i <= tabs@.len(),
            pred == differs_from_id(keep),
            r@ == tab_ids(tabs@.take(i as int)).filter(pred),
        decreases tabs@.len() - i,
    {
        assert(tab_ids(tabs@.take(i + 1)) =~= tab_ids(tabs@.take(i as int)).push(tabs@[i as int].id));
        assert(tab_ids(tabs@.take(i + 1)).drop_last() =~= tab_ids(tabs@.take(i as int)));
        proof {
            reveal(Seq::filter);
        }
        if tabs[i].id != keep {
            r.push(tabs[i].id);
        }
        i += 1;
    }
    assert(tabs@.take(tabs@.len() as int) =~= tabs@);
    r
}

/// The shown tabs' ids are ids of open tabs.
proof fn lemma_visible_ids_are_tabs(tabs: Seq<PdfTab>, k: int)
    requires
        0 <= k < visible_tabs(tabs).len(),
    ensures
        has_tab_id(tabs, tab_ids(visible_tabs(tabs))[k]),
{
    let pred = shown_in_bar(has_file_open(tabs));
    let t = visible_tabs(tabs)[k];
    assert(tabs.filter(pred).contains(t));
    tabs.lemma_filter_contains_rev(pred, t);
    let j = choose|j: int| 0 <= j < tabs.len() && tabs[j] == t;
    assert(tabs[j].id == t.id);
    assert(tab_ids(visible_tabs(tabs))[k] == t.id);
}

/// `(current + offset)` wrapped into `0..len`.
fn wrap_index(current: usize, offset: isize, len: usize) -> (r: usize)
    requires
        current < len,
    ensures
        r as int == (current + offset) % (len as int),
        r < len,
{
    let n = len as u128;
    let c = current as u128;
    if offset >= 0 {
        let o = (offset as u128) % n;
        let r = (c + o) % n;
        proof {
            vstd::arithmetic::div_mod::lemma_add_mod_noop_right(c as int, offset as int, n as int);
        }
        r as usize
    } else {
        let neg = (0i128 - (offset as i128)) as u128;
        let o = neg % n;
        let r = (c + n - o) % n;
        proof {
            vstd::arithmetic::div_mod::lemma_sub_mod_noop_right(c as int, neg as int, n as int);
            vstd::arithmetic::div_mod::lemma_mod_add_multiples_vanish(c - o, n as int);
            assert(c + n - o == n + (c - o));
        }
        r as usize
    }
}

/// Finishes the read of tab `tab_id`, known to exist.
fn finish_load_in_bar(
    bar: &mut TabBar,
    tab_id: usize,
    pages: Option<Vec<PageSummary>>,
    restored_page: Option<usize>,
) -> (r: TabLoadOutcome)
    requires
        old(bar).wf(),
        has_tab_id(old(bar).spec_tabs(), tab_id),
    ensures
        final(bar).wf(),
        final(bar).spec_active_tab_id() == old(bar).spec_active_tab_id(),
        final(bar).spec_next_tab_id() == old(bar).spec_next_tab_id(),
        match pages {
            Some(ps) => {
                let initial = initial_page_of(ps@.len() as int, restored_page);
                &&& r == (TabLoadOutcome::Loaded { initial_page: initial })
                &&& tab_changed(
                    old(bar).spec_tabs(),
                    final(bar).spec_tabs(),
                    tab_id,
                    finishes_load(ps@, initial),
                )
            },
            None => r is Failed && tab_changed(
                old(bar).spec_tabs(),
                final(bar).spec_tabs(),
                tab_id,
                fails_load(),
            ),
        },
{
    let ghost old_bar = *bar;
    proof {
        lemma_index_of_id(old_bar.spec_tabs(), tab_id);
    }
    match bar.get_tab_mut(tab_id) {
        Some(tab) => {
            let r = match pages {
                Some(ps) => {
                    let initial = tab.finish_load(ps, restored_page);
                    TabLoadOutcome::Loaded { initial_page: initial }
                },
                None => {
                    tab.fail_load();
                    TabLoadOutcome::Failed
                },
            };
            proof {
                let i = index_of_id(old_bar.spec_tabs(), tab_id);
                lemma_update_keeps_wf(&old_bar, &*bar, i, bar.spec_tabs()[i]);
            }
            r
        },
        None => TabLoadOutcome::Failed,
    }
}

/// Position of the first tab showing the file `path`.
pub fn tab_index_showing(tabs: &[PdfTab], path: &String) -> (r: Option<usize>)
    ensures
        match r {
            Some(i) => i as int == index_of_path(tabs@, path@) && i < tabs@.len(),
            None => index_of_path(tabs@, path@) == -1,
        },
{
    proof {
        lemma_index_of_path(tabs@, path@);
    }
    let mut i: usize = 0;
    while i < tabs.len()
        invariant
            i <= tabs@.len(),
            forall|k: int| 0 <= k < i ==> !#[trigger] shows_path(tabs@[k], path@),
            -1 <= index_of_path(tabs@, path@) < tabs@.len(),
            index_of_path(tabs@, path@) >= 0 ==> shows_path(tabs@[index_of_path(tabs@, path@)], path@),
            index_of_path(tabs@, path@) >= 0 ==> forall|k: int|
                0 <= k < index_of_path(tabs@, path@) ==> !#[trigger] shows_path(tabs@[k], path@),
            index_of_path(tabs@, path@) == -1 ==> forall|k: int|
                0 <= k < tabs@.len() ==> !#[trigger] shows_path(tabs@[k], path@),
        decreases tabs@.len() - i,
    {
        let same = match &tabs[i].path {
            Some(p) => *p == *path,
            None => false,
        };
        if same {
            assert(shows_path(tabs@[i as int], path@));
            return Some(i);
        }
        i += 1;
    }
    None
}

/// What `index_of_path` finds.
pub proof fn lemma_index_of_path(tabs: Seq<PdfTab>, path: Seq<char>)
    ensures
        -1 <= index_of_path(tabs, path) < tabs.len(),
        index_of_path(tabs, path) >= 0 ==> shows_path(tabs[index_of_path(tabs, path)], path),
        index_of_path(tabs, path) >= 0 ==> forall|k: int|
            0 <= k < index_of_path(tabs, path) ==> !#[trigger] shows_path(tabs[k], path),
        index_of_path(tabs, path) == -1 ==> forall|k: int|
            0 <= k < tabs.len() ==> !#[trigger] shows_path(tabs[k], path),
    decreases tabs.len(),
{
    if tabs.len() > 0 {
        let prefix = tabs.drop_last();
        lemma_index_of_path(prefix, path);
        assert forall|k: int| 0 <= k < prefix.len() implies tabs[k] == prefix[k] by {}
    }
}

/// Starts reading `path` into tab `tab_id` of the bar; false when no tab has
/// that id.
fn begin_load_in_bar(bar: &mut TabBar, tab_id: usize, path: &String) -> (r: bool)
    requires
        old(bar).wf(),
    ensures
        final(bar).wf(),
        final(bar).spec_active_tab_id() == old(bar).spec_active_tab_id(),
        final(bar).spec_next_tab_id() == old(bar).spec_next_tab_id(),
        r ==> tab_changed(old(bar).spec_tabs(), final(bar).spec_tabs(), tab_id, begins_load(path@)),
        !r ==> index_of_id(old(bar).spec_tabs(), tab_id) == -1 && *final(bar) == *old(bar),
{
    let ghost old_bar = *bar;
    proof {
        lemma_index_of_id(old_bar.spec_tabs(), tab_id);
    }
    match bar.get_tab_mut(tab_id) {
        Some(tab) => {
            tab.begin_load(path.clone());
            proof {
                let i = index_of_id(old_bar.spec_tabs(), tab_id);
                lemma_update_keeps_wf(&old_bar, &*bar, i, bar.spec_tabs()[i]);
            }
            true
        },
        None => false,
    }
}

impl PdfTab {
    /// Takes in the tab's page list: pages in index order, the restored page
    /// (else the first, clamped to the last) shown. Returns that page.
    pub fn finish_load(&mut self, pages: Vec<PageSummary>, restored_page: Option<usize>) -> (r: usize)
        ensures
            r == initial_page_of(pages@.len() as int, restored_page),
            load_finished(*old(self), *final(self), pages@, r),
    {
        let ghost n = pages@.len();
        let sorted = sort_pages_by_index(pages);
        proof {
            lemma_sort_pages_len(pages@);
        }
        let wanted = match restored_page {
            Some(p) => p,
            None => 0,
        };
        let count = sorted.len();
        let initial = if count == 0 {
            0
        } else if wanted < count - 1 {
            wanted
        } else {
            count - 1
        };
        let has_pages = count > 0;
        self.pages = sorted;
        self.summary_loaded = true;
        self.summary_loading = false;
        self.summary_failed = false;
        self.selected_page = initial;
        self.active_page = initial;
        self.reset_page_render_state();
        if has_pages {
            self.suppress_display_scroll_sync_once = true;
        }
        initial
    }

    /// Records that reading the tab's page list failed.
    pub fn fail_load(&mut self)
        ensures
            load_failed(*old(self), *final(self)),
    {
        self.pages = Vec::new();
        self.summary_loaded = false;
        self.summary_loading = false;
        self.summary_failed = true;
        self.selected_page = 0;
        self.active_page = 0;
        self.reset_page_render_state();
    }

    /// Prepares the tab for reading the document at `path`.
    pub fn begin_load(&mut self, path: String)
        ensures
            load_begun(*old(self), *final(self), path@),
    {
        self.path = Some(path);
        self.pages = Vec::new();
        self.summary_loaded = false;
        self.summary_loading = true;
        self.summary_failed = false;
        self.selected_page = 0;
        self.active_page = 0;
        self.last_saved_position = None;
        self.reset_page_render_state();
    }
}

/// Sorting keeps the number of pages.
pub proof fn lemma_sort_pages_len(s: Seq<PageSummary>)
    ensures
        sort_pages(s).len() == s.len(),
    decreases s.len(),
{
    if s.len() > 0 {
        lemma_sort_pages_len(s.drop_last());
        lemma_insert_page_len(sort_pages(s.drop_last()), s.last());
    }
}

proof fn lemma_insert_page_len(s: Seq<PageSummary>, x: PageSummary)
    ensures
        crate::tab::insert_page(s, x).len() == s.len() + 1,
    decreases s.len(),
{
    if s.len() > 0 && s.last().index > x.index {
        lemma_insert_page_len(s.drop_last(), x);
    }
}

/// Whether some tab shows a file.
fn any_file_open(tabs: &[PdfTab]) -> (r: bool)
    ensures
        r == has_file_open(tabs@),
{
    let mut i: usize = 0;
    while i < tabs.len()
        invariant
            i <= tabs@.len(),
            forall|k: int| 0 <= k < i ==> tabs@[k].path is None,
        decreases tabs@.len() - i,
    {
        if tabs[i].path.is_some() {
            assert(tabs@[i as int].path is Some);
            return true;
        }
        i += 1;
    }
    false
}

} // verus!
