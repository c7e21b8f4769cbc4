//! Text selection with the pointer and the keyboard in the active tab, and
//! what the pointer shows over a page. Where the pointer is over a page's
//! text is worked out by the caller from the characters' positions; here it
//! arrives as "over text or not" and "nearest character".

use vstd::prelude::*;

use crate::tab::{index_of_id, lemma_index_of_id, lemma_update_keeps_wf, PdfTab, TabBar};
use crate::tab_actions::tab_changed;
use crate::text_selection::{spec_selected_text, TextSelection, TextSelectionManager};
use crate::viewer::{PdfViewer, PointerState};

verus! {

/// The text selected in tab `t`, when there is a non-empty one on a page
/// whose text is known.
pub open spec fn tab_selected_text(t: PdfTab) -> Option<Seq<char>> {
    spec_selected_text(
        t.text_selection_manager.caches(),
        t.text_selection_manager.spec_current_selection(),
    )
}

/// The text selected in the active tab.
pub open spec fn active_selected_text(tabs: Seq<PdfTab>, active: int) -> Option<Seq<char>> {
    if 0 <= active < tabs.len() {
        tab_selected_text(tabs[active])
    } else {
        None
    }
}

/// `after` is `before` with only its selection state changed by `m`.
pub open spec fn selection_changed(
    before: PdfTab,
    after: PdfTab,
    m: spec_fn(TextSelectionManager, TextSelectionManager) -> bool,
) -> bool {
    &&& after == PdfTab { text_selection_manager: after.text_selection_manager, ..before }
    &&& m(before.text_selection_manager, after.text_selection_manager)
}

/// The change "the selection is dropped".
pub open spec fn selection_cleared() -> spec_fn(TextSelectionManager, TextSelectionManager) -> bool {
    |a: TextSelectionManager, b: TextSelectionManager|
        {
            &&& b.caches() == a.caches()
            &&& b.wf()
            &&& b.spec_current_selection() is None
            &&& b.spec_selection_start() is None
            &&& !b.spec_is_selecting()
        }
}

/// The change "a selection began at character `c` of page `page`".
pub open spec fn selection_started(page: usize, c: usize) -> spec_fn(
    TextSelectionManager,
    TextSelectionManager,
) -> bool {
    |a: TextSelectionManager, b: TextSelectionManager|
        {
            &&& b.caches() == a.caches()
            &&& b.wf()
            &&& b.spec_current_selection() == Some(
                TextSelection { page_index: page, start_char_index: c, end_char_index: c },
            )
            &&& b.spec_selection_start() == Some((page, c))
            &&& b.spec_is_selecting()
        }
}

/// The change "the selection was extended to character `c` of page
/// `page`" (a selection that began on another page stays).
pub open spec fn selection_extended(page: usize, c: usize) -> spec_fn(
    TextSelectionManager,
    TextSelectionManager,
) -> bool {
    |a: TextSelectionManager, b: TextSelectionManager|
        {
            &&& b.caches() == a.caches()
            &&& b.wf()
            &&& b.spec_selection_start() == a.spec_selection_start()
            &&& b.spec_is_selecting() == a.spec_is_selecting()
            &&& b.spec_current_selection() == match a.spec_selection_start() {
                Some((sp, sc)) => if sp == page {
                    Some(
                        TextSelection {
                            page_index: page,
                            start_char_index: if sc <= c {
                                sc
                            } else {
                                c
                            },
                            end_char_index: if sc <= c {
                                c
                            } else {
                                sc
                            },
                        },
                    )
                } else {
                    a.spec_current_selection()
                },
                None => a.spec_current_selection(),
            }
        }
}

/// The change "dragging ended; the selection stays".
pub open spec fn selection_ended() -> spec_fn(TextSelectionManager, TextSelectionManager) -> bool {
    |a: TextSelectionManager, b: TextSelectionManager|
        {
            &&& b.caches() == a.caches()
            &&& b.wf()
            &&& b.spec_current_selection() == a.spec_current_selection()
            &&& b.spec_selection_start() == a.spec_selection_start()
            &&& !b.spec_is_selecting()
        }
}

/// The change "the whole text of page `page` (`count` characters) is
/// selected".
pub open spec fn all_selected(page: usize, count: usize) -> spec_fn(
    TextSelectionManager,
    TextSelectionManager,
) -> bool {
    |a: TextSelectionManager, b: TextSelectionManager|
        {
            &&& b.caches() == a.caches()
            &&& b.wf()
            &&& b.spec_current_selection() == Some(
                TextSelection { page_index: page, start_char_index: 0, end_char_index: count },
            )
            &&& b.spec_selection_start() == Some((page, 0usize))
            &&& !b.spec_is_selecting()
        }
}

/// The change of a tab: its selection changed by `m`.
pub open spec fn tab_selection(m: spec_fn(TextSelectionManager, TextSelectionManager) -> bool) -> spec_fn(
    PdfTab,
    PdfTab,
) -> bool {
    |a: PdfTab, b: PdfTab| selection_changed(a, b, m)
}

/// Where the pointer is over a page whose text is known: whether it is over
/// a character, and the nearest character (for extending a selection).
#[derive(Clone, Copy, Debug)]
pub struct TextPointer {
    pub over_text: bool,
    pub nearest_char: Option<usize>,
    /// The character right under the pointer, if any.
    pub char_under: Option<usize>,
}

/// The pointer's look over a page.
#[derive(Clone, Copy, Debug, PartialEq, Eq, Structural)]
pub enum CursorStyle {
    /// Over the marker of a note on this page.
    PointingHand,
    /// Over text.
    IBeam,
    Arrow,
}

/// The pointer target "text of page `page` in the active tab", if a tab is
/// active and `on` holds.
pub open spec fn hover_target(active: Option<usize>, page: usize, on: bool) -> Option<(usize, usize)> {
    if on {
        match active {
            Some(id) => Some((id, page)),
            None => None,
        }
    } else {
        None
    }
}

impl PdfViewer {
    /// The text to copy: the active tab's non-empty selection.
    pub fn copy_selected_text(&self) -> (r: Option<String>)
        requires
            self.tab_bar.wf(),
        ensures
            match active_selected_text(self.tab_bar.spec_tabs(), self.tab_bar.active_index()) {
                Some(t) => r matches Some(s) && s@ == t,
                None => r is None,
            },
    {
        proof {
            if let Some(a) = self.tab_bar.spec_active_tab_id() {
                lemma_index_of_id(self.tab_bar.spec_tabs(), a);
            }
        }
        match self.tab_bar.get_active_tab() {
            Some(tab) => tab.text_selection_manager.get_selected_text(),
            None => None,
        }
    }

    /// Whether the active tab has a non-empty selection.
    pub fn has_text_selection(&self) -> (r: bool)
        requires
            self.tab_bar.wf(),
        ensures
            r == active_selected_text(self.tab_bar.spec_tabs(), self.tab_bar.active_index()) is Some,
    {
        self.copy_selected_text().is_some()
    }

    /// Selects the whole text of the active tab's current page, when that
    /// page exists and its text is known and not empty. True when it did.
    pub fn select_all_text(&mut self) -> (r: bool)
        requires
            old(self).tab_bar.wf(),
        ensures
            final(self).tab_bar.wf(),
            final(self).same_besides_tab_bar(&*old(self)),
            final(self).hovered_markdown_note_id == old(self).hovered_markdown_note_id,
            final(self).tab_bar.spec_active_tab_id() == old(self).tab_bar.spec_active_tab_id(),
            final(self).tab_bar.spec_next_tab_id() == old(self).tab_bar.spec_next_tab_id(),
            ({
                let tabs = old(self).tab_bar.spec_tabs();
                let i = old(self).tab_bar.active_index();
                let ok = 0 <= i < tabs.len() && tabs[i].active_page < tabs[i].pages@.len()
                    && tabs[i].text_selection_manager.caches().contains_key(tabs[i].active_page)
                    && tabs[i].text_selection_manager.caches()[tabs[i].active_page].len() > 0;
                &&& r == ok
                &&& ok ==> tab_changed(
                    tabs,
                    final(self).tab_bar.spec_tabs(),
                    tabs[i].id,
                    tab_selection(
                        all_selected(
                            tabs[i].active_page,
                            tabs[i].text_selection_manager.caches()[tabs[i].active_page].len() as usize,
                        ),
                    ),
                )
                &&& !ok ==> final(self).tab_bar.spec_tabs() == tabs
            }),
    {
        let ghost old_bar = self.tab_bar;
        proof {
            if let Some(a) = self.tab_bar.spec_active_tab_id() {
                lemma_index_of_id(self.tab_bar.spec_tabs(), a);
            }
        }
        let (tab_id, page, count) = match self.tab_bar.get_active_tab() {
            Some(tab) => {
                let page = tab.active_page;
                if page >= tab.pages.len() {
                    return false;
                }
                match tab.text_selection_manager.get_page_cache(page) {
                    Some(cache) => {
                        let count = cache.chars.len();
                        if count == 0 {
                            return false;
                        }
                        (tab.id, page, count)
                    },
                    None => return false,
                }
            },
            None => return false,
        };
        match self.tab_bar.get_tab_mut(tab_id) {
            Some(tab) => {
                tab.text_selection_manager.start_selection(page, 0);
                tab.text_selection_manager.update_selection(page, count);
                tab.text_selection_manager.end_selection();
            },
            None => {},
        }
        proof {
            let i = old_bar.active_index();
            lemma_update_keeps_wf(&old_bar, &self.tab_bar, i, self.tab_bar.spec_tabs()[i]);
        }
        true
    }

    /// Drops the active tab's selection.
    pub fn clear_text_selection(&mut self)
        requires
            old(self).tab_bar.wf(),
        ensures
            final(self).tab_bar.wf(),
            final(self).same_besides_tab_bar(&*old(self)),
            final(self).hovered_markdown_note_id == old(self).hovered_markdown_note_id,
            final(self).tab_bar.spec_active_tab_id() == old(self).tab_bar.spec_active_tab_id(),
            final(self).tab_bar.spec_next_tab_id() == old(self).tab_bar.spec_next_tab_id(),
            ({
                let tabs = old(self).tab_bar.spec_tabs();
                let i = old(self).tab_bar.active_index();
                &&& 0 <= i < tabs.len() ==> tab_changed(
                    tabs,
                    final(self).tab_bar.spec_tabs(),
                    tabs[i].id,
                    tab_selection(selection_cleared()),
                )
                &&& !(0 <= i < tabs.len()) ==> final(self).tab_bar.spec_tabs() == tabs
            }),
    {
        change_active_selection(&mut self.tab_bar, SelectionOp::Clear);
    }

    /// The pointer was released over the page view: dragging ends, the
    /// selection stays.
    pub fn handle_text_mouse_up(&mut self)
        requires
            old(self).tab_bar.wf(),
        ensures
            final(self).tab_bar.wf(),
            final(self).same_besides_tab_bar(&*old(self)),
            final(self).hovered_markdown_note_id == old(self).hovered_markdown_note_id,
            final(self).tab_bar.spec_active_tab_id() == old(self).tab_bar.spec_active_tab_id(),
            final(self).tab_bar.spec_next_tab_id() == old(self).tab_bar.spec_next_tab_id(),
            ({
                let tabs = old(self).tab_bar.spec_tabs();
                let i = old(self).tab_bar.active_index();
                &&& 0 <= i < tabs.len() ==> tab_changed(
                    tabs,
                    final(self).tab_bar.spec_tabs(),
                    tabs[i].id,
                    tab_selection(selection_ended()),
                )
                &&& !(0 <= i < tabs.len()) ==> final(self).tab_bar.spec_tabs() == tabs
            }),
    {
        change_active_selection(&mut self.tab_bar, SelectionOp::End);
    }

    /// Notes whether the pointer is over the text of page `page_index` of the
    /// active tab; true when that changed.
    pub fn set_text_hover_hit(&mut self, page_index: usize, is_over_text: bool) -> (r: bool)
        ensures
            final(self).same_but_pointer(&*old(self)),
            ({
                let next = hover_target(old(self).tab_bar.spec_active_tab_id(), page_index, is_over_text);
                &&& r == (old(self).pointer.text_hover_target != next)
                &&& final(self).pointer == PointerState { text_hover_target: next, ..old(self).pointer }
            }),
    {
        let next = if is_over_text {
            match self.tab_bar.active_tab_id() {
                Some(id) => Some((id, page_index)),
                None => None,
            }
        } else {
            None
        };
        let same = match (self.pointer.text_hover_target, next) {
            (Some((a, b)), Some((c, d))) => a == c && b == d,
            (None, None) => true,
            _ => false,
        };
        if !same {
            self.pointer.text_hover_target = next;
            true
        } else {
            false
        }
    }

    /// The pointer's look over page `page_index`: a hand over the hovered
    /// note when it is on this page, a text cursor over text, else an arrow.
    pub fn text_cursor_style_for_page(&self, page_index: usize) -> (r: CursorStyle)
        ensures
            r == if (self.hovered_markdown_note_id matches Some(id) && exists|k: int|
                0 <= k < self.markdown_notes@.len() && self.markdown_notes@[k].id == id && (forall|
                    j: int,
                | 0 <= j < k ==> self.markdown_notes@[j].id != id) && self.markdown_notes@[k].page_index
                    == page_index) {
                CursorStyle::PointingHand
            } else if self.pointer.text_hover_target == hover_target(
                self.tab_bar.spec_active_tab_id(),
                page_index,
                true,
            ) {
                CursorStyle::IBeam
            } else {
                CursorStyle::Arrow
            },
    {
        if let Some(note_id) = self.hovered_markdown_note_id {
            if let Some(note) = self.markdown_note_by_id(note_id) {
                if note.page_index == page_index {
                    return CursorStyle::PointingHand;
                }
            }
        }
        let target = match self.tab_bar.active_tab_id() {
            Some(id) => Some((id, page_index)),
            None => None,
        };
        let same = match (self.pointer.text_hover_target, target) {
            (Some((a, b)), Some((c, d))) => a == c && b == d,
            (None, None) => true,
            _ => false,
        };
        if same {
            CursorStyle::IBeam
        } else {
            CursorStyle::Arrow
        }
    }

    /// The pointer was pressed on page `page_index`. `pointer` is `None` when
    /// the page's text is not known, else where the pointer is over it. The
    /// hovered note is cleared; pressing on a character begins a selection
    /// there, pressing elsewhere drops the selection.
    pub fn handle_text_mouse_down(&mut self, page_index: usize, pointer: Option<TextPointer>)
        requires
            old(self).tab_bar.wf(),
        ensures
            final(self).tab_bar.wf(),
            final(self).hovered_markdown_note_id is None,
            final(self).recent_files == old(self).recent_files,
            final(self).bookmarks == old(self).bookmarks,
            final(self).markdown_notes == old(self).markdown_notes,
            final(self).same_ui_state_but_pointer(&*old(self)),
            final(self).tab_bar.spec_active_tab_id() == old(self).tab_bar.spec_active_tab_id(),
            final(self).tab_bar.spec_next_tab_id() == old(self).tab_bar.spec_next_tab_id(),
            ({
                let tabs = old(self).tab_bar.spec_tabs();
                let i = old(self).tab_bar.active_index();
                let under = match pointer {
                    Some(p) => p.char_under,
                    None => None,
                };
                &&& final(self).pointer == PointerState {
                    text_hover_target: hover_target(
                        old(self).tab_bar.spec_active_tab_id(),
                        page_index,
                        under is Some,
                    ),
                    ..old(self).pointer
                }
                &&& 0 <= i < tabs.len() ==> tab_changed(
                    tabs,
                    final(self).tab_bar.spec_tabs(),
                    tabs[i].id,
                    tab_selection(
                        match under {
                            Some(c) => selection_started(page_index, c),
                            None => selection_cleared(),
                        },
                    ),
                )
                &&& !(0 <= i < tabs.len()) ==> final(self).tab_bar.spec_tabs() == tabs
            }),
    {
        self.hovered_markdown_note_id = None;
        let under = match pointer {
            Some(p) => p.char_under,
            None => None,
        };
        self.set_text_hover_hit(page_index, under.is_some());
        match under {
            Some(c) => change_active_selection(&mut self.tab_bar, SelectionOp::Start(page_index, c)),
            None => change_active_selection(&mut self.tab_bar, SelectionOp::Clear),
        }
    }

    /// The pointer moved over page `page_index`, onto the note `note_hit`
    /// (found by the caller) or none. `pointer` is `None` when the page's text
    /// is not known. While a selection is being dragged it extends to the
    /// nearest character. True when anything to redraw changed.
    pub fn handle_text_mouse_move(
        &mut self,
        page_index: usize,
        note_hit: Option<u64>,
        pointer: Option<TextPointer>,
    ) -> (r: bool)
        requires
            old(self).tab_bar.wf(),
        ensures
            final(self).tab_bar.wf(),
            final(self).hovered_markdown_note_id == note_hit,
            final(self).recent_files == old(self).recent_files,
            final(self).bookmarks == old(self).bookmarks,
            final(self).markdown_notes == old(self).markdown_notes,
            final(self).same_ui_state_but_pointer(&*old(self)),
            final(self).tab_bar.spec_active_tab_id() == old(self).tab_bar.spec_active_tab_id(),
            final(self).tab_bar.spec_next_tab_id() == old(self).tab_bar.spec_next_tab_id(),
            ({
                let tabs = old(self).tab_bar.spec_tabs();
                let i = old(self).tab_bar.active_index();
                let note_changed = old(self).hovered_markdown_note_id != note_hit;
                if !(0 <= i < tabs.len()) {
                    &&& final(self).pointer == old(self).pointer
                    &&& final(self).tab_bar.spec_tabs() == tabs
                    &&& r == note_changed
                } else {
                    let over = match pointer {
                        Some(p) => p.over_text,
                        None => false,
                    };
                    let next = hover_target(old(self).tab_bar.spec_active_tab_id(), page_index, over);
                    let hover_changed = old(self).pointer.text_hover_target != next;
                    let selecting = tabs[i].text_selection_manager.spec_is_selecting();
                    let extend = match pointer {
                        Some(p) => if selecting {
                            p.nearest_char
                        } else {
                            None
                        },
                        None => None,
                    };
                    &&& final(self).pointer == PointerState { text_hover_target: next, ..old(self).pointer }
                    &&& match extend {
                        Some(c) => r && tab_changed(
                            tabs,
                            final(self).tab_bar.spec_tabs(),
                            tabs[i].id,
                            tab_selection(selection_extended(page_index, c)),
                        ),
                        None => r == (hover_changed || note_changed) && final(self).tab_bar.spec_tabs()
                            == tabs,
                    }
                }
            }),
    {
        let note_changed = self.set_markdown_note_hover_id(note_hit);
        proof {
            if let Some(a) = self.tab_bar.spec_active_tab_id() {
                lemma_index_of_id(self.tab_bar.spec_tabs(), a);
            }
        }
        let selecting = match self.tab_bar.get_active_tab() {
            Some(tab) => tab.text_selection_manager.is_selecting(),
            None => return note_changed,
        };
        let over = match pointer {
            Some(p) => p.over_text,
            None => false,
        };
        let hover_changed = self.set_text_hover_hit(page_index, over);
        let extend = match pointer {
            Some(p) => if selecting {
                p.nearest_char
            } else {
                None
            },
            None => None,
        };
        match extend {
            Some(c) => {
                change_active_selection(&mut self.tab_bar, SelectionOp::Extend(page_index, c));
                true
            },
            None => hover_changed || note_changed,
        }
    }

    /// Whether the text of page `page_index` of the active tab is known.
    pub fn page_text_loaded(&self, page_index: usize) -> (r: bool)
        requires
            self.tab_bar.wf(),
        ensures
            ({
                let tabs = self.tab_bar.spec_tabs();
                let i = self.tab_bar.active_index();
                r == (0 <= i < tabs.len() && tabs[i].text_selection_manager.caches().contains_key(
                    page_index,
                ))
            }),
    {
        proof {
            if let Some(a) = self.tab_bar.spec_active_tab_id() {
                lemma_index_of_id(self.tab_bar.spec_tabs(), a);
            }
        }
        match self.tab_bar.get_active_tab() {
            Some(tab) => tab.text_selection_manager.get_page_cache(page_index).is_some(),
            None => false,
        }
    }
}

/// A change to a selection.
pub enum SelectionOp {
    Clear,
    End,
    Start(usize, usize),
    Extend(usize, usize),
}

/// The change a selection operation makes.
pub open spec fn op_change(op: SelectionOp) -> spec_fn(TextSelectionManager, TextSelectionManager) -> bool {
    match op {
        SelectionOp::Clear => selection_cleared(),
        SelectionOp::End => selection_ended(),
        SelectionOp::Start(p, c) => selection_started(p, c),
        SelectionOp::Extend(p, c) => selection_extended(p, c),
    }
}

/// Applies a selection operation to the bar's active tab, if any.
fn change_active_selection(bar: &mut TabBar, op: SelectionOp)
    requires
        old(bar).wf(),
    ensures
        final(bar).wf(),
        final(bar).spec_active_tab_id() == old(bar).spec_active_tab_id(),
        final(bar).spec_next_tab_id() == old(bar).spec_next_tab_id(),
        ({
            let tabs = old(bar).spec_tabs();
            let i = old(bar).active_index();
            &&& 0 <= i < tabs.len() ==> tab_changed(
                tabs,
                final(bar).spec_tabs(),
                tabs[i].id,
                tab_selection(op_change(op)),
            )
            &&& !(0 <= i < tabs.len()) ==> final(bar).spec_tabs() == tabs
        }),
{
    let ghost old_bar = *bar;
    proof {
        if let Some(a) = bar.spec_active_tab_id() {
            lemma_index_of_id(bar.spec_tabs(), a);
        }
    }
    let tab_id = match bar.active_tab_id() {
        Some(id) => id,
        None => return,
    };
    match bar.get_tab_mut(tab_id) {
        Some(tab) => {
            match op {
                SelectionOp::Clear => tab.text_selection_manager.clear_selection(),
                SelectionOp::End => tab.text_selection_manager.end_selection(),
                SelectionOp::Start(p, c) => tab.text_selection_manager.start_selection(p, c),
                SelectionOp::Extend(p, c) => tab.text_selection_manager.update_selection(p, c),
            }
        },
        None => {},
    }
    proof {
        let i = old_bar.active_index();
        lemma_update_keeps_wf(&old_bar, &*bar, i, bar.spec_tabs()[i]);
    }
}

} // verus!
