//! Moving between pages of the active tab, and keeping the thumbnail list, the
//! page view and the saved reading position in step while the user scrolls
//! or the window changes size. Scrolling itself and timers are the caller's;
//! each operation here says which page to scroll to or which delayed check to
//! schedule.

use vstd::prelude::*;

use crate::tab::{
    clamped_page, index_of_id, lemma_index_of_id, lemma_index_of_id_same_ids, lemma_update_keeps_wf,
    next_epoch, PdfTab, TabBar,
};
use crate::tab_actions::{current_position_to_save, tab_changed};
use crate::viewer::PdfViewer;

verus! {

/// `after` is `before` showing page `index`, with the next scroll event of
/// the page view (caused by scrolling to it) not synced back.
pub open spec fn page_selected(before: PdfTab, after: PdfTab, index: usize) -> bool {
    after == PdfTab {
        selected_page: index,
        active_page: index,
        suppress_display_scroll_sync_once: true,
        ..before
    }
}

/// The change "shows page `index`".
pub open spec fn selects_page(index: usize) -> spec_fn(PdfTab, PdfTab) -> bool {
    |a: PdfTab, b: PdfTab| page_selected(a, b, index)
}

/// The rows `page..page + 1` (cut at the page count) of the page view.
pub open spec fn single_page_range(page: usize, count: int) -> (usize, usize) {
    let next = if page == usize::MAX {
        usize::MAX
    } else {
        (page + 1) as usize
    };
    (page, if (next as int) < count {
        next
    } else {
        count as usize
    })
}

/// `after` is `before` after the page view's layout was looked at with the
/// window resized or not (`resized`) and the view needing images
/// `target_width` wide: when either changed, scroll syncs in flight are
/// voided and a tab with pages keeps its page (clamped) as the one seen.
pub open spec fn layout_applied(before: PdfTab, after: PdfTab, resized: bool, target_width: u32) -> bool {
    let width_changed = before.last_display_target_width != target_width;
    let changed = resized || width_changed;
    let count = before.pages@.len() as int;
    let keep = clamped_page(before.active_page, count);
    if !changed {
        after == before
    } else if count == 0 {
        after == PdfTab {
            display_scroll_sync_epoch: next_epoch(before.display_scroll_sync_epoch),
            last_display_target_width: target_width,
            ..before
        }
    } else {
        after == PdfTab {
            display_scroll_sync_epoch: next_epoch(before.display_scroll_sync_epoch),
            last_display_target_width: target_width,
            active_page: keep,
            selected_page: keep,
            last_display_visible_range: Some(single_page_range(keep, count)),
            ..before
        }
    }
}

impl PdfTab {
    /// Looks at the page view's layout: `resized` when the window changed
    /// size, `target_width` the width page images are now needed at.
    /// Returns whether the layout changed and, for a tab with pages, the
    /// page to bring back into view once the layout settles.
    pub fn apply_display_layout(&mut self, resized: bool, target_width: u32) -> (r: (
        bool,
        Option<usize>,
    ))
        ensures
            layout_applied(*old(self), *final(self), resized, target_width),
            r.0 == (resized || old(self).last_display_target_width != target_width),
            r.1 == if r.0 && old(self).pages@.len() > 0 {
                Some(clamped_page(old(self).active_page, old(self).pages@.len() as int))
            } else {
                None
            },
    {
        let width_changed = self.last_display_target_width != target_width;
        let changed = resized || width_changed;
        if !changed {
            return (false, None);
        }
        self.display_scroll_sync_epoch = self.display_scroll_sync_epoch.wrapping_add(1);
        self.last_display_target_width = target_width;
        let count = self.pages.len();
        if count == 0 {
            return (true, None);
        }
        let keep = if self.active_page < count - 1 {
            self.active_page
        } else {
            count - 1
        };
        self.active_page = keep;
        self.selected_page = keep;
        let next = keep.saturating_add(1);
        let end = if next < count {
            next
        } else {
            count
        };
        self.last_display_visible_range = Some((keep, end));
        (true, Some(keep))
    }
}

impl PdfViewer {
    /// Shows page `index` of the active tab. Returns whether it did (the
    /// caller scrolls both lists to it) and the reading position to store,
    /// unless it is the one last saved.
    pub fn select_page(&mut self, index: usize) -> (r: (bool, Option<(String, usize)>))
        requires
            old(self).tab_bar.wf(),
        ensures
            final(self).tab_bar.wf(),
            final(self).same_besides_tab_bar(&*old(self)),
            final(self).hovered_markdown_note_id == old(self).hovered_markdown_note_id,
            final(self).tab_bar.spec_active_tab_id() == old(self).tab_bar.spec_active_tab_id(),
            final(self).tab_bar.spec_next_tab_id() == old(self).tab_bar.spec_next_tab_id(),
            ({
                let tabs = old(self).tab_bar.spec_tabs();
                let i = old(self).tab_bar.active_index();
                if 0 <= i < tabs.len() && index < tabs[i].pages@.len() {
                    &&& r.0
                    &&& tab_changed(tabs, final(self).tab_bar.spec_tabs(), tabs[i].id, selects_page(index))
                    &&& match r.1 {
                        Some(p) => current_position_to_save(
                            final(self).tab_bar.spec_tabs(),
                            final(self).tab_bar.spec_active_tab_id(),
                        ) == Some((p.0@, p.1)),
                        None => current_position_to_save(
                            final(self).tab_bar.spec_tabs(),
                            final(self).tab_bar.spec_active_tab_id(),
                        ) is None,
                    }
                } else {
                    !r.0 && r.1 is None && final(self).tab_bar.spec_tabs() == tabs
                }
            }),
    {
        if !select_in_bar(&mut self.tab_bar, index) {
            return (false, None);
        }
        let save = self.persist_current_file_position();
        (true, save)
    }

    /// Shows the page before the active tab's current one, if there is one.
    pub fn prev_page(&mut self) -> (r: (bool, Option<(String, usize)>))
        requires
            old(self).tab_bar.wf(),
        ensures
            final(self).tab_bar.wf(),
            final(self).same_besides_tab_bar(&*old(self)),
            final(self).hovered_markdown_note_id == old(self).hovered_markdown_note_id,
            final(self).tab_bar.spec_active_tab_id() == old(self).tab_bar.spec_active_tab_id(),
            ({
                let tabs = old(self).tab_bar.spec_tabs();
                let i = old(self).tab_bar.active_index();
                if 0 <= i < tabs.len() && tabs[i].active_page > 0 && tabs[i].active_page - 1
                    < tabs[i].pages@.len() {
                    &&& r.0
                    &&& tab_changed(
                        tabs,
                        final(self).tab_bar.spec_tabs(),
                        tabs[i].id,
                        selects_page((tabs[i].active_page - 1) as usize),
                    )
                    &&& match r.1 {
                        Some(p) => current_position_to_save(
                            final(self).tab_bar.spec_tabs(),
                            final(self).tab_bar.spec_active_tab_id(),
                        ) == Some((p.0@, p.1)),
                        None => current_position_to_save(
                            final(self).tab_bar.spec_tabs(),
                            final(self).tab_bar.spec_active_tab_id(),
                        ) is None,
                    }
                } else {
                    !r.0 && r.1 is None && final(self).tab_bar.spec_tabs() == tabs
                }
            }),
    {
        proof {
            if let Some(a) = self.tab_bar.spec_active_tab_id() {
                lemma_index_of_id(self.tab_bar.spec_tabs(), a);
            }
        }
        let target = match self.tab_bar.get_active_tab() {
            Some(tab) => {
                if tab.active_page > 0 {
                    tab.active_page - 1
                } else {
                    return (false, None);
                }
            },
            None => return (false, None),
        };
        self.select_page(target)
    }

    /// Shows the page after the active tab's current one, if there is one.
    pub fn next_page(&mut self) -> (r: (bool, Option<(String, usize)>))
        requires
            old(self).tab_bar.wf(),
        ensures
            final(self).tab_bar.wf(),
            final(self).same_besides_tab_bar(&*old(self)),
            final(self).hovered_markdown_note_id == old(self).hovered_markdown_note_id,
            final(self).tab_bar.spec_active_tab_id() == old(self).tab_bar.spec_active_tab_id(),
            ({
                let tabs = old(self).tab_bar.spec_tabs();
                let i = old(self).tab_bar.active_index();
                if 0 <= i < tabs.len() && tabs[i].active_page + 1 < tabs[i].pages@.len() {
                    &&& r.0
                    &&& tab_changed(
                        tabs,
                        final(self).tab_bar.spec_tabs(),
                        tabs[i].id,
                        selects_page((tabs[i].active_page + 1) as usize),
                    )
                    &&& match r.1 {
                        Some(p) => current_position_to_save(
                            final(self).tab_bar.spec_tabs(),
                            final(self).tab_bar.spec_active_tab_id(),
                        ) == Some((p.0@, p.1)),
                        None => current_position_to_save(
                            final(self).tab_bar.spec_tabs(),
                            final(self).tab_bar.spec_active_tab_id(),
                        ) is None,
                    }
                } else {
                    !r.0 && r.1 is None && final(self).tab_bar.spec_tabs() == tabs
                }
            }),
    {
        proof {
            if let Some(a) = self.tab_bar.spec_active_tab_id() {
                lemma_index_of_id(self.tab_bar.spec_tabs(), a);
            }
        }
        let target = match self.tab_bar.get_active_tab() {
            Some(tab) => {
                if tab.active_page < tab.pages.len() && tab.active_page + 1 < tab.pages.len() {
                    tab.active_page + 1
                } else {
                    return (false, None);
                }
            },
            None => return (false, None),
        };
        self.select_page(target)
    }

    /// The page view was scrolled by the user: voids earlier syncs and
    /// returns `(tab id, epoch)` of the delayed sync to schedule, for
    /// [`PdfViewer::display_scroll_sync_fired`].
    pub fn schedule_thumbnail_sync_after_display_scroll(&mut self) -> (r: Option<(usize, u64)>)
        requires
            old(self).tab_bar.wf(),
        ensures
            final(self).tab_bar.wf(),
            final(self).same_besides_tab_bar(&*old(self)),
            final(self).hovered_markdown_note_id == old(self).hovered_markdown_note_id,
            final(self).tab_bar.spec_active_tab_id() == old(self).tab_bar.spec_active_tab_id(),
            ({
                let tabs = old(self).tab_bar.spec_tabs();
                let i = old(self).tab_bar.active_index();
                if 0 <= i < tabs.len() {
                    let e = next_epoch(tabs[i].display_scroll_sync_epoch);
                    &&& r == Some((tabs[i].id, e))
                    &&& tab_changed(
                        tabs,
                        final(self).tab_bar.spec_tabs(),
                        tabs[i].id,
                        sync_epoch_set(e),
                    )
                } else {
                    r is None && final(self).tab_bar.spec_tabs() == tabs
                }
            }),
    {
        schedule_sync_in_bar(&mut self.tab_bar)
    }

    /// The page view's scroll offset was looked at (`offset_changed` when it
    /// moved since last time). A move of a tab with pages schedules a sync,
    /// unless the move was caused by scrolling to a page, which is passed
    /// over once.
    pub fn on_display_scroll_offset_changed(&mut self, offset_changed: bool) -> (r: Option<
        (usize, u64),
    >)
        requires
            old(self).tab_bar.wf(),
        ensures
            final(self).tab_bar.wf(),
            final(self).same_besides_tab_bar(&*old(self)),
            final(self).hovered_markdown_note_id == old(self).hovered_markdown_note_id,
            final(self).tab_bar.spec_active_tab_id() == old(self).tab_bar.spec_active_tab_id(),
            ({
                let tabs = old(self).tab_bar.spec_tabs();
                let i = old(self).tab_bar.active_index();
                if 0 <= i < tabs.len() && offset_changed && tabs[i].pages@.len() > 0 {
                    if tabs[i].suppress_display_scroll_sync_once {
                        &&& r is None
                        &&& tab_changed(
                            tabs,
                            final(self).tab_bar.spec_tabs(),
                            tabs[i].id,
                            sync_suppression_used(),
                        )
                    } else {
                        let e = next_epoch(tabs[i].display_scroll_sync_epoch);
                        &&& r == Some((tabs[i].id, e))
                        &&& tab_changed(
                            tabs,
                            final(self).tab_bar.spec_tabs(),
                            tabs[i].id,
                            sync_epoch_set(e),
                        )
                    }
                } else {
                    r is None && final(self).tab_bar.spec_tabs() == tabs
                }
            }),
    {
        proof {
            if let Some(a) = self.tab_bar.spec_active_tab_id() {
                lemma_index_of_id(self.tab_bar.spec_tabs(), a);
            }
        }
        let (suppressed, tab_id) = match self.tab_bar.get_active_tab() {
            Some(tab) => {
                if !offset_changed || tab.pages.len() == 0 {
                    return None;
                }
                (tab.suppress_display_scroll_sync_once, tab.id)
            },
            None => return None,
        };
        if suppressed {
            let ghost old_bar = self.tab_bar;
            match self.tab_bar.get_tab_mut(tab_id) {
                Some(tab) => {
                    tab.suppress_display_scroll_sync_once = false;
                },
                None => {},
            }
            proof {
                let i = old_bar.active_index();
                lemma_update_keeps_wf(&old_bar, &self.tab_bar, i, self.tab_bar.spec_tabs()[i]);
            }
            None
        } else {
            schedule_sync_in_bar(&mut self.tab_bar)
        }
    }

    /// The delayed sync `(tab_id, epoch)` fired: when that tab is still
    /// active, has pages and no newer sync was scheduled, its page becomes
    /// the first row seen in the page view (clamped), the new position is
    /// remembered as saved, and the caller gets the position to store (when
    /// the page changed) and the page to scroll the thumbnails to.
    pub fn display_scroll_sync_fired(&mut self, tab_id: usize, epoch: u64) -> (r: Option<
        (Option<(String, usize)>, usize),
    >)
        requires
            old(self).tab_bar.wf(),
        ensures
            final(self).tab_bar.wf(),
            final(self).same_besides_tab_bar(&*old(self)),
            final(self).hovered_markdown_note_id == old(self).hovered_markdown_note_id,
            final(self).tab_bar.spec_active_tab_id() == old(self).tab_bar.spec_active_tab_id(),
            ({
                let tabs = old(self).tab_bar.spec_tabs();
                let i = old(self).tab_bar.active_index();
                if 0 <= i < tabs.len() && tabs[i].id == tab_id && tabs[i].display_scroll_sync_epoch
                    == epoch && tabs[i].pages@.len() > 0 {
                    let t = tabs[i];
                    let next = synced_page(t);
                    &&& r matches Some((save, page))
                    &&& page == next
                    &&& tab_changed(tabs, final(self).tab_bar.spec_tabs(), tab_id, scroll_synced())
                    &&& if t.active_page != next && t.path is Some {
                        save matches Some(s) && t.path == Some(s.0) && s.1 == next
                    } else {
                        save is None
                    }
                } else {
                    r is None && final(self).tab_bar.spec_tabs() == tabs
                }
            }),
    {
        proof {
            if let Some(a) = self.tab_bar.spec_active_tab_id() {
                lemma_index_of_id(self.tab_bar.spec_tabs(), a);
            }
        }
        let applies = match self.tab_bar.get_active_tab() {
            Some(tab) => tab.id == tab_id && tab.display_scroll_sync_epoch == epoch && tab.pages.len()
                > 0,
            None => false,
        };
        if !applies {
            return None;
        }
        let ghost old_bar = self.tab_bar;
        let r = match self.tab_bar.get_tab_mut(tab_id) {
            Some(tab) => Some(tab.sync_to_display_scroll()),
            None => None,
        };
        proof {
            let i = old_bar.active_index();
            lemma_update_keeps_wf(&old_bar, &self.tab_bar, i, self.tab_bar.spec_tabs()[i]);
        }
        r
    }

    /// Looks at the active tab's page-view layout (see
    /// [`PdfTab::apply_display_layout`]); none when there is no tab.
    pub fn apply_display_layout(&mut self, resized: bool, target_width: u32) -> (r: Option<
        (bool, Option<usize>),
    >)
        requires
            old(self).tab_bar.wf(),
        ensures
            final(self).tab_bar.wf(),
            final(self).same_besides_tab_bar(&*old(self)),
            final(self).hovered_markdown_note_id == old(self).hovered_markdown_note_id,
            final(self).tab_bar.spec_active_tab_id() == old(self).tab_bar.spec_active_tab_id(),
            ({
                let tabs = old(self).tab_bar.spec_tabs();
                let i = old(self).tab_bar.active_index();
                if 0 <= i < tabs.len() {
                    &&& r is Some
                    &&& tab_changed(
                        tabs,
                        final(self).tab_bar.spec_tabs(),
                        tabs[i].id,
                        applies_layout(resized, target_width),
                    )
                } else {
                    r is None && final(self).tab_bar.spec_tabs() == tabs
                }
            }),
    {
        proof {
            if let Some(a) = self.tab_bar.spec_active_tab_id() {
                lemma_index_of_id(self.tab_bar.spec_tabs(), a);
            }
        }
        let tab_id = match self.tab_bar.active_tab_id() {
            Some(id) => id,
            None => return None,
        };
        let ghost old_bar = self.tab_bar;
        let r = match self.tab_bar.get_tab_mut(tab_id) {
            Some(tab) => Some(tab.apply_display_layout(resized, target_width)),
            None => None,
        };
        proof {
            let i = old_bar.active_index();
            lemma_update_keeps_wf(&old_bar, &self.tab_bar, i, self.tab_bar.spec_tabs()[i]);
        }
        r
    }

    /// The layout changed while a tab with pages was active: voids earlier
    /// restores and returns `(tab id, epoch)` of the delayed restore to
    /// schedule, for [`PdfViewer::restore_page_after_layout_change`].
    pub fn schedule_restore_current_page_after_layout_change(&mut self) -> (r: Option<(usize, u64)>)
        ensures
            final(self).tab_bar == old(self).tab_bar,
            final(self).recent_files == old(self).recent_files,
            final(self).bookmarks == old(self).bookmarks,
            final(self).markdown_notes == old(self).markdown_notes,
            final(self).hovered_markdown_note_id == old(self).hovered_markdown_note_id,
            final(self).same_ui_state_but_epoch(&*old(self)),
            match old(self).tab_bar.spec_active_tab_id() {
                Some(id) => {
                    let e = next_epoch(old(self).resize_restore_epoch);
                    r == Some((id, e)) && final(self).resize_restore_epoch == e
                },
                None => r is None && final(self).resize_restore_epoch == old(
                    self,
                ).resize_restore_epoch,
            },
    {
        let tab_id = match self.tab_bar.active_tab_id() {
            Some(id) => id,
            None => return None,
        };
        self.resize_restore_epoch = self.resize_restore_epoch.wrapping_add(1);
        Some((tab_id, self.resize_restore_epoch))
    }

    /// The delayed restore `(tab_id, epoch)` fired: when no newer one was
    /// scheduled and that tab is still active with pages, it shows
    /// `keep_page` (clamped) again, as the one row seen, with the next scroll
    /// event passed over. Returns the page to scroll both lists to.
    pub fn restore_page_after_layout_change(&mut self, tab_id: usize, epoch: u64, keep_page: usize) -> (r:
        Option<usize>)
        requires
            old(self).tab_bar.wf(),
        ensures
            final(self).tab_bar.wf(),
            final(self).same_besides_tab_bar(&*old(self)),
            final(self).hovered_markdown_note_id == old(self).hovered_markdown_note_id,
            final(self).tab_bar.spec_active_tab_id() == old(self).tab_bar.spec_active_tab_id(),
            ({
                let tabs = old(self).tab_bar.spec_tabs();
                let i = old(self).tab_bar.active_index();
                if old(self).resize_restore_epoch == epoch && 0 <= i < tabs.len() && tabs[i].id
                    == tab_id && tabs[i].pages@.len() > 0 {
                    let page = clamped_page(keep_page, tabs[i].pages@.len() as int);
                    &&& r == Some(page)
                    &&& tab_changed(tabs, final(self).tab_bar.spec_tabs(), tab_id, restores_page(page))
                } else {
                    r is None && final(self).tab_bar.spec_tabs() == tabs
                }
            }),
    {
        if self.resize_restore_epoch != epoch {
            return None;
        }
        proof {
            if let Some(a) = self.tab_bar.spec_active_tab_id() {
                lemma_index_of_id(self.tab_bar.spec_tabs(), a);
            }
        }
        let applies = match self.tab_bar.get_active_tab() {
            Some(tab) => tab.id == tab_id && tab.pages.len() > 0,
            None => false,
        };
        if !applies {
            return None;
        }
        let ghost old_bar = self.tab_bar;
        let r = match self.tab_bar.get_tab_mut(tab_id) {
            Some(tab) => Some(tab.restore_page(keep_page)),
            None => None,
        };
        proof {
            let i = old_bar.active_index();
            lemma_update_keeps_wf(&old_bar, &self.tab_bar, i, self.tab_bar.spec_tabs()[i]);
        }
        r
    }

    /// The page count and the 1-based number of the page shown, for the
    /// title bar (both 0 when no document is shown).
    pub fn status_page_numbers(&self) -> (r: (usize, usize))
        requires
            self.tab_bar.wf(),
            self.tab_bar.active_index() >= 0 ==> self.tab_bar.spec_tabs()[self.tab_bar.active_index()].active_page
                < usize::MAX,
        ensures
            ({
                let tabs = self.tab_bar.spec_tabs();
                let i = self.tab_bar.active_index();
                if 0 <= i < tabs.len() && tabs[i].pages@.len() > 0 {
                    r == (tabs[i].pages@.len() as usize, (tabs[i].active_page + 1) as usize)
                } else if 0 <= i < tabs.len() {
                    r == (0usize, 0usize)
                } else {
                    r == (0usize, 0usize)
                }
            }),
    {
        proof {
            if let Some(a) = self.tab_bar.spec_active_tab_id() {
                lemma_index_of_id(self.tab_bar.spec_tabs(), a);
            }
        }
        match self.tab_bar.get_active_tab() {
            Some(tab) => {
                let count = tab.pages.len();
                if count == 0 {
                    (0, 0)
                } else {
                    (count, tab.active_page + 1)
                }
            },
            None => (0, 0),
        }
    }

    /// Whether the thumbnail sidebar shows: when the active tab shows a file.
    pub fn show_thumbnail_panel(&self) -> (r: bool)
        requires
            self.tab_bar.wf(),
        ensures
            r == (self.active_path() is Some),
    {
        self.active_tab_path().is_some()
    }
}

/// The page a scroll sync settles on: the first row seen in the page view, or
/// the current page when none was seen, clamped to the last page.
pub open spec fn synced_page(t: PdfTab) -> usize {
    let count = t.pages@.len() as int;
    match t.last_display_visible_range {
        Some(range) => clamped_page(range.0, count),
        None => clamped_page(t.active_page, count),
    }
}

/// `after` is `before` after a scroll sync: it shows the synced page, and
/// when that moved the page of a tab with a file, the position is noted as
/// saved.
pub open spec fn scroll_sync_applied(before: PdfTab, after: PdfTab) -> bool {
    let next = synced_page(before);
    if before.active_page != next {
        match before.path {
            Some(p) => after == PdfTab {
                active_page: next,
                last_saved_position: Some((p, next)),
                ..before
            },
            None => after == PdfTab { active_page: next, ..before },
        }
    } else {
        after == before
    }
}

/// The change "synced to the page view's scroll position".
pub open spec fn scroll_synced() -> spec_fn(PdfTab, PdfTab) -> bool {
    |a: PdfTab, b: PdfTab| scroll_sync_applied(a, b)
}

/// The change "the scroll sync epoch is `e`".
pub open spec fn sync_epoch_set(e: u64) -> spec_fn(PdfTab, PdfTab) -> bool {
    |a: PdfTab, b: PdfTab| b == PdfTab { display_scroll_sync_epoch: e, ..a }
}

/// The change "the scroll event to pass over was passed over".
pub open spec fn sync_suppression_used() -> spec_fn(PdfTab, PdfTab) -> bool {
    |a: PdfTab, b: PdfTab| b == PdfTab { suppress_display_scroll_sync_once: false, ..a }
}

/// The change "the page view's layout was looked at".
pub open spec fn applies_layout(resized: bool, target_width: u32) -> spec_fn(PdfTab, PdfTab) -> bool {
    |a: PdfTab, b: PdfTab| layout_applied(a, b, resized, target_width)
}

/// The change "page `page` is shown again after a layout change".
pub open spec fn restores_page(page: usize) -> spec_fn(PdfTab, PdfTab) -> bool {
    |a: PdfTab, b: PdfTab|
        b == PdfTab {
            active_page: page,
            selected_page: page,
            last_display_visible_range: Some(single_page_range(page, a.pages@.len() as int)),
            suppress_display_scroll_sync_once: true,
            ..a
        }
}

impl PdfTab {
    /// Settles on the page the page view is scrolled to; returns the
    /// position to store (when the page of a tab with a file moved) and the
    /// page.
    pub fn sync_to_display_scroll(&mut self) -> (r: (Option<(String, usize)>, usize))
        requires
            old(self).pages@.len() > 0,
        ensures
            scroll_sync_applied(*old(self), *final(self)),
            r.1 == synced_page(*old(self)),
            if old(self).active_page != synced_page(*old(self)) && old(self).path is Some {
                r.0 matches Some(s) && old(self).path == Some(s.0) && s.1 == r.1
            } else {
                r.0 is None
            },
    {
        let last = self.pages.len() - 1;
        let next = match self.last_display_visible_range {
            Some((start, _)) => if start < last {
                start
            } else {
                last
            },
            None => if self.active_page < last {
                self.active_page
            } else {
                last
            },
        };
        if self.active_page == next {
            return (None, next);
        }
        self.active_page = next;
        match &self.path {
            Some(p) => {
                let saved = p.clone();
                let reported = p.clone();
                self.last_saved_position = Some((saved, next));
                (Some((reported, next)), next)
            },
            None => (None, next),
        }
    }

    /// Shows `keep_page` (clamped) again after a layout change; returns it.
    pub fn restore_page(&mut self, keep_page: usize) -> (r: usize)
        requires
            old(self).pages@.len() > 0,
        ensures
            r == clamped_page(keep_page, old(self).pages@.len() as int),
            (restores_page(r))(*old(self), *final(self)),
    {
        let count = self.pages.len();
        let page = if keep_page < count - 1 {
            keep_page
        } else {
            count - 1
        };
        self.active_page = page;
        self.selected_page = page;
        let next = page.saturating_add(1);
        let end = if next < count {
            next
        } else {
            count
        };
        self.last_display_visible_range = Some((page, end));
        self.suppress_display_scroll_sync_once = true;
        page
    }
}

/// Shows page `index` of the bar's active tab, when it has that page.
fn select_in_bar(bar: &mut TabBar, index: usize) -> (r: bool)
    requires
        old(bar).wf(),
    ensures
        final(bar).wf(),
        final(bar).spec_active_tab_id() == old(bar).spec_active_tab_id(),
        final(bar).spec_next_tab_id() == old(bar).spec_next_tab_id(),
        ({
            let tabs = old(bar).spec_tabs();
            let i = old(bar).active_index();
            if 0 <= i < tabs.len() && index < tabs[i].pages@.len() {
                r && tab_changed(tabs, final(bar).spec_tabs(), tabs[i].id, selects_page(index))
            } else {
                !r && final(bar).spec_tabs() == tabs
            }
        }),
{
    let ghost old_bar = *bar;
    proof {
        if let Some(a) = bar.spec_active_tab_id() {
            lemma_index_of_id(bar.spec_tabs(), a);
        }
    }
    let tab_id = match bar.get_active_tab() {
        Some(tab) => {
            if index >= tab.pages.len() {
                return false;
            }
            tab.id
        },
        None => return false,
    };
    match bar.get_tab_mut(tab_id) {
        Some(tab) => {
            tab.selected_page = index;
            tab.active_page = index;
            tab.suppress_display_scroll_sync_once = true;
        },
        None => {},
    }
    proof {
        let i = old_bar.active_index();
        lemma_update_keeps_wf(&old_bar, &*bar, i, bar.spec_tabs()[i]);
    }
    true
}

/// Moves the bar's active tab's scroll-sync epoch on; returns `(tab id,
/// epoch)`.
fn schedule_sync_in_bar(bar: &mut TabBar) -> (r: Option<(usize, u64)>)
    requires
        old(bar).wf(),
    ensures
        final(bar).wf(),
        final(bar).spec_active_tab_id() == old(bar).spec_active_tab_id(),
        final(bar).spec_next_tab_id() == old(bar).spec_next_tab_id(),
        ({
            let tabs = old(bar).spec_tabs();
            let i = old(bar).active_index();
            if 0 <= i < tabs.len() {
                let e = next_epoch(tabs[i].display_scroll_sync_epoch);
                r == Some((tabs[i].id, e)) && tab_changed(
                    tabs,
                    final(bar).spec_tabs(),
                    tabs[i].id,
                    sync_epoch_set(e),
                )
            } else {
                r is None && final(bar).spec_tabs() == tabs
            }
        }),
{
    let ghost old_bar = *bar;
    proof {
        if let Some(a) = bar.spec_active_tab_id() {
            lemma_index_of_id(bar.spec_tabs(), a);
        }
    }
    let tab_id = match bar.active_tab_id() {
        Some(id) => id,
        None => return None,
    };
    let r = match bar.get_tab_mut(tab_id) {
        Some(tab) => {
            tab.display_scroll_sync_epoch = tab.display_scroll_sync_epoch.wrapping_add(1);
            Some((tab_id, tab.display_scroll_sync_epoch))
        },
        None => None,
    };
    proof {
        let i = old_bar.active_index();
        lemma_update_keeps_wf(&old_bar, &*bar, i, bar.spec_tabs()[i]);
    }
    r
}

} // verus!
