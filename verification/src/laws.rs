//! Properties that hold across the viewer's operations: what reordering and
//! closing tabs keep, what selecting all gives to copy, and what survives a
//! restart.

use vstd::multiset::Multiset;
use vstd::prelude::*;

use crate::interactions::{all_selected, selection_changed, selection_cleared, tab_selected_text};
use crate::rendering::{
    batch_finished, needs_render, page_after_batch, page_ready, page_render_width, render_batch,
    RenderKind,
};
use crate::store::{
    decoded_file_position, encoded_file_position, first_n, lemma_file_position_round_trip,
    open_tab_active_position, open_tab_paths, MAX_RECENT_FILES,
};
use crate::tab::{
    has_tab_id, ids_unique, index_of_id, lemma_index_of_id, lemma_index_of_id_same_ids, tab_ids,
    PageSummary, PdfTab, TabBar,
};
use crate::tab_actions::{
    after_closing, begins_load, close_one, closing_done, has_file_open, initial_page_of,
    load_if_needed_done, pending_load_path, position_to_save, shown_in_bar, tab_changed,
    tab_menu_options, visible_active_position, visible_tabs, TabLoadStart,
};
use crate::text_selection::{char_texts, joined};
use crate::types::{BookmarkView, MarkdownNoteEntry};
use crate::viewer::{
    bookmarks_after_insert, differs_from, insert_note, note_not_id, note_ranks_before_or_with,
    notes_after_upsert, other_page, recent_after_open, restored_active_position, restored_paths,
    restored_session, sort_notes, still_exists, lemma_restored_active_path,
};

verus! {

broadcast use vstd::seq_lib::group_to_multiset_ensures;

/// Dragging a tab from `from` to `to` keeps the same tabs, only reordered:
/// the moved tab lands at `to` and none is lost or doubled.
pub proof fn law_move_tab_keeps_tabs(tabs: Seq<PdfTab>, from: int, to: int)
    requires
        0 <= from < tabs.len(),
        0 <= to < tabs.len(),
    ensures
        ({
            let moved = tabs.remove(from).insert(to, tabs[from]);
            &&& moved.len() == tabs.len()
            &&& moved[to] == tabs[from]
            &&& moved.to_multiset() == tabs.to_multiset()
        }),
{
    let rest = tabs.remove(from);
    assert(rest.to_multiset() == tabs.to_multiset().remove(tabs[from]));
    assert(rest.insert(to, tabs[from]).to_multiset() == rest.to_multiset().insert(tabs[from]));
    assert(tabs.to_multiset().count(tabs[from]) > 0) by {
        assert(tabs.contains(tabs[from]));
    }
    assert(tabs.to_multiset().remove(tabs[from]).insert(tabs[from]) =~= tabs.to_multiset());
}

/// Dragging a tab back to where it came from restores the order of the bar.
pub proof fn law_move_tab_back_restores(tabs: Seq<PdfTab>, from: int, to: int)
    requires
        0 <= from < tabs.len(),
        0 <= to < tabs.len(),
    ensures
        ({
            let moved = tabs.remove(from).insert(to, tabs[from]);
            moved.remove(to).insert(from, moved[to]) == tabs
        }),
{
    let moved = tabs.remove(from).insert(to, tabs[from]);
    assert(moved.remove(to) =~= tabs.remove(from));
    assert(tabs.remove(from).insert(from, tabs[from]) =~= tabs);
}

/// Closing one tab keeps the ids apart and removes exactly that id.
proof fn lemma_close_one_ids(tabs: Seq<PdfTab>, active: Option<usize>, id: usize)
    requires
        ids_unique(tabs),
    ensures
        ids_unique(close_one(tabs, active, id).0),
        forall|k: usize|
            has_tab_id(close_one(tabs, active, id).0, k) <==> (has_tab_id(tabs, k) && k != id),
{
    lemma_index_of_id(tabs, id);
    let i = index_of_id(tabs, id);
    if i >= 0 {
        let rest = tabs.remove(i);
        assert forall|a: int, b: int|
            0 <= a < rest.len() && 0 <= b < rest.len() && a != b implies rest[a].id
            != rest[b].id by {
            let oa = if a < i {
                a
            } else {
                a + 1
            };
            let ob = if b < i {
                b
            } else {
                b + 1
            };
            assert(rest[a] == tabs[oa]);
            assert(rest[b] == tabs[ob]);
        }
        assert forall|k: usize| has_tab_id(rest, k) <==> (has_tab_id(tabs, k) && k != id) by {
            if has_tab_id(rest, k) {
                let j = choose|j: int| 0 <= j < rest.len() && rest[j].id == k;
                let oj = if j < i {
                    j
                } else {
                    j + 1
                };
                assert(rest[j] == tabs[oj]);
                assert(oj != i);
            }
            if has_tab_id(tabs, k) && k != id {
                let j = choose|j: int| 0 <= j < tabs.len() && tabs[j].id == k;
                assert(j != i);
                if j < i {
                    assert(rest[j] == tabs[j]);
                } else {
                    assert(rest[j - 1] == tabs[j]);
                }
            }
        }
    }
}

/// Closing the tabs `ids` removes exactly those tabs: a tab stays open iff it
/// was open and its id is not among `ids`.
pub proof fn law_closing_removes_exactly(tabs: Seq<PdfTab>, active: Option<usize>, ids: Seq<usize>)
    requires
        ids_unique(tabs),
    ensures
        ids_unique(after_closing(tabs, active, ids).0),
        forall|k: usize|
            has_tab_id(after_closing(tabs, active, ids).0, k) <==> (has_tab_id(tabs, k)
                && !ids.contains(k)),
    decreases ids.len(),
{
    if ids.len() > 0 {
        let prev = after_closing(tabs, active, ids.drop_last());
        law_closing_removes_exactly(tabs, active, ids.drop_last());
        lemma_close_one_ids(prev.0, prev.1, ids.last());
        assert forall|k: usize| ids.contains(k) <==> (ids.drop_last().contains(k) || k == ids.last()) by {
            if ids.contains(k) {
                let j = choose|j: int| 0 <= j < ids.len() && ids[j] == k;
                if j < ids.len() - 1 {
                    assert(ids.drop_last()[j] == k);
                }
            }
            if ids.drop_last().contains(k) {
                let j = choose|j: int| 0 <= j < ids.drop_last().len() && ids.drop_last()[j] == k;
                assert(ids[j] == k);
            }
            if k == ids.last() {
                assert(ids[ids.len() - 1] == k);
            }
        }
    }
}

/// The tabs a read that may start leaves carry the same ids as before.
proof fn lemma_load_keeps_ids(
    before: Seq<PdfTab>,
    after: Seq<PdfTab>,
    id: usize,
    load: Option<TabLoadStart>,
)
    requires
        load_if_needed_done(before, after, id, load),
    ensures
        forall|k: usize| has_tab_id(after, k) <==> has_tab_id(before, k),
        after.len() == before.len(),
{
    reveal(load_if_needed_done);
    if after != before {
        let i = index_of_id(before, id);
        assert(tab_changed(before, after, id, begins_load(pending_load_path(before, id)->0)));
        assert(after[i].id == before[i].id);
        assert forall|k: usize| has_tab_id(after, k) <==> has_tab_id(before, k) by {
            if has_tab_id(after, k) {
                let j = choose|j: int| 0 <= j < after.len() && after[j].id == k;
                if j != i {
                    assert(before[j] == after[j]);
                }
            }
            if has_tab_id(before, k) {
                let j = choose|j: int| 0 <= j < before.len() && before[j].id == k;
                if j != i {
                    assert(before[j] == after[j]);
                }
            }
        }
    }
}

/// Closing tabs never leaves the bar empty, and afterwards exactly the tabs
/// that were open and not closed remain, with one new empty tab (id `next`)
/// in their place when every tab was closed. Ids at or above `next` are
/// never in use, so only ids below it are spoken of.
pub proof fn law_closing_keeps_one_tab(
    tabs: Seq<PdfTab>,
    active: Option<usize>,
    next: usize,
    after: TabBar,
    ids: Seq<usize>,
    load: Option<TabLoadStart>,
)
    requires
        ids_unique(tabs),
        closing_done(tabs, active, next, after, ids, load),
    ensures
        after.spec_tabs().len() >= 1,
        after.spec_active_tab_id() is Some,
        forall|k: usize|
            k < next ==> (has_tab_id(after.spec_tabs(), k) <==> (has_tab_id(tabs, k)
                && !ids.contains(k))),
{
    let rest = after_closing(tabs, active, ids);
    law_closing_removes_exactly(tabs, active, ids);
    if rest.0.len() == 0 {
        assert forall|k: usize| k < next implies (has_tab_id(after.spec_tabs(), k) <==> (
        has_tab_id(tabs, k) && !ids.contains(k))) by {
            if has_tab_id(after.spec_tabs(), k) {
                let j = choose|j: int|
                    0 <= j < after.spec_tabs().len() && after.spec_tabs()[j].id == k;
                assert(j == 0);
            }
            if has_tab_id(tabs, k) && !ids.contains(k) {
                assert(has_tab_id(rest.0, k));
                let j = choose|j: int| 0 <= j < rest.0.len() && rest.0[j].id == k;
            }
        }
    } else {
        lemma_load_keeps_ids(rest.0, after.spec_tabs(), rest.1->0, load);
    }
}

/// No more paths are stored than there are tabs.
proof fn lemma_open_tab_paths_len(tabs: Seq<PdfTab>)
    ensures
        open_tab_paths(tabs).len() <= tabs.len(),
    decreases tabs.len(),
{
    if tabs.len() > 0 {
        lemma_open_tab_paths_len(tabs.drop_last());
    }
}

/// What is stored for the open tabs names the active tab's file: its position
/// among the stored paths holds that file's path.
proof fn lemma_active_position_names_file(tabs: Seq<PdfTab>, a: usize)
    requires
        tabs.len() <= usize::MAX,
        ids_unique(tabs),
        has_tab_id(tabs, a),
        tabs[index_of_id(tabs, a)].path is Some,
    ensures
        open_tab_active_position(tabs, Some(a)) matches Some(j) && j < open_tab_paths(tabs).len()
            && open_tab_paths(tabs)[j as int] == tabs[index_of_id(tabs, a)].path->0@,
    decreases tabs.len(),
{
    lemma_index_of_id(tabs, a);
    lemma_open_tab_paths_len(tabs.drop_last());
    let i = index_of_id(tabs, a);
    let rest = tabs.drop_last();
    let last = tabs.last();
    if last.id == a {
        assert(i == tabs.len() - 1);
        assert(open_tab_paths(tabs) == open_tab_paths(rest).push(last.path->0@));
    } else {
        assert(i < tabs.len() - 1);
        assert(rest[i] == tabs[i]);
        assert(has_tab_id(rest, a));
        assert(ids_unique(rest)) by {
            assert forall|x: int, y: int|
                0 <= x < rest.len() && 0 <= y < rest.len() && x != y implies rest[x].id
                != rest[y].id by {
                assert(rest[x] == tabs[x]);
                assert(rest[y] == tabs[y]);
            }
        }
        lemma_index_of_id(rest, a);
        assert(index_of_id(rest, a) == i) by {
            let ri = index_of_id(rest, a);
            assert(rest[ri] == tabs[ri]);
        }
        lemma_active_position_names_file(rest, a);
        let j = open_tab_active_position(rest, Some(a))->0 as int;
        assert(open_tab_active_position(tabs, Some(a)) == open_tab_active_position(rest, Some(a)));
        assert(open_tab_paths(tabs)[j] == open_tab_paths(rest)[j]);
    }
}

/// Open tabs and the active tab come back after a restart: restoring from
/// what is stored for a bar gives one tab per stored file that still exists,
/// in order, showing it, and the tab that was active, when it showed a file
/// that still exists, is active again.
pub proof fn law_session_restores_tabs(
    tabs: Seq<PdfTab>,
    active: Option<usize>,
    exists: Seq<bool>,
    restored: Seq<PdfTab>,
    restored_active: Option<usize>,
)
    requires
        tabs.len() <= usize::MAX,
        ids_unique(tabs),
        active matches Some(a) ==> has_tab_id(tabs, a),
        restored_paths(open_tab_paths(tabs), exists).len() > 0,
        restored_session(
            open_tab_paths(tabs),
            exists,
            open_tab_active_position(tabs, active),
            restored,
            restored_active,
        ),
    ensures
        restored.len() == restored_paths(open_tab_paths(tabs), exists).len(),
        forall|k: int|
            0 <= k < restored.len() ==> ((#[trigger] restored[k]).path matches Some(p) && p@
                == restored_paths(open_tab_paths(tabs), exists)[k]),
        match active {
            Some(a) => match tabs[index_of_id(tabs, a)].path {
                Some(p) => still_exists(exists, open_tab_active_position(tabs, active)->0 as int)
                    ==> exists|j: int|
                    0 <= j < restored.len() && restored_active == Some(restored[j].id) && ((
                    #[trigger] restored[j]).path matches Some(q) && q@ == p@),
                None => true,
            },
            None => true,
        },
{
    if let Some(a) = active {
        if tabs[index_of_id(tabs, a)].path is Some {
            lemma_active_position_names_file(tabs, a);
            let saved = open_tab_paths(tabs);
            let j = open_tab_active_position(tabs, active)->0 as int;
            if still_exists(exists, j) {
                lemma_restored_active_path(saved, exists, j);
                let pos = restored_active_position(saved, exists, open_tab_active_position(tabs, active));
                assert(pos == restored_paths(saved.take(j), exists).len());
                assert(restored_active == Some(restored[pos].id));
                let p = tabs[index_of_id(tabs, a)].path->0;
                assert(restored[pos].path matches Some(q) && q@ == p@);
            }
        }
    }
}

/// Whether the notes run most recently updated first (larger id first on ties).
pub open spec fn notes_ordered(s: Seq<MarkdownNoteEntry>) -> bool {
    forall|i: int, j: int|
        0 <= i < j < s.len() ==> note_ranks_before_or_with(#[trigger] s[i], #[trigger] s[j])
}

/// Placing a note keeps every note and adds it once; in an ordered list the
/// result is ordered.
proof fn lemma_insert_note(s: Seq<MarkdownNoteEntry>, x: MarkdownNoteEntry)
    ensures
        insert_note(s, x).to_multiset() == s.to_multiset().insert(x),
        notes_ordered(s) ==> notes_ordered(insert_note(s, x)),
    decreases s.len(),
{
    broadcast use vstd::multiset::group_multiset_axioms;

    if s.len() == 0 {
        assert(seq![x] == Seq::<MarkdownNoteEntry>::empty().push(x));
        assert(s.to_multiset() =~= Multiset::empty());
    } else {
        let last = s.last();
        let front = s.drop_last();
        assert(s == front.push(last));
        if note_ranks_before_or_with(last, x) {
            if notes_ordered(s) {
                assert forall|i: int, j: int| 0 <= i < j < s.len() + 1 implies note_ranks_before_or_with(
                    #[trigger] s.push(x)[i],
                    #[trigger] s.push(x)[j],
                ) by {
                    if j == s.len() {
                        if i < s.len() - 1 {
                            assert(note_ranks_before_or_with(s[i], s[s.len() - 1]));
                        }
                    }
                }
            }
        } else {
            lemma_insert_note(front, x);
            let t = insert_note(front, x);
            assert(t.push(last).to_multiset() =~= s.to_multiset().insert(x));
            if notes_ordered(s) {
                assert(notes_ordered(front)) by {
                    assert forall|i: int, j: int| 0 <= i < j < front.len() implies note_ranks_before_or_with(
                        #[trigger] front[i],
                        #[trigger] front[j],
                    ) by {
                        assert(front[i] == s[i] && front[j] == s[j]);
                    }
                }
                assert forall|i: int, j: int| 0 <= i < j < t.len() + 1 implies note_ranks_before_or_with(
                    #[trigger] t.push(last)[i],
                    #[trigger] t.push(last)[j],
                ) by {
                    if j == t.len() {
                        let y = t[i];
                        assert(t.to_multiset().count(y) > 0) by {
                            assert(t.contains(y));
                        }
                        if y != x {
                            assert(front.to_multiset().count(y) > 0);
                            assert(front.contains(y));
                            let k = choose|k: int| 0 <= k < front.len() && front[k] == y;
                            assert(s[k] == y);
                            assert(note_ranks_before_or_with(s[k], s[s.len() - 1]));
                        }
                    } else {
                        assert(t.push(last)[i] == t[i] && t.push(last)[j] == t[j]);
                    }
                }
            }
        }
    }
}

/// Ordering the notes keeps every note.
proof fn lemma_sort_notes(s: Seq<MarkdownNoteEntry>)
    ensures
        sort_notes(s).to_multiset() == s.to_multiset(),
        notes_ordered(sort_notes(s)),
    decreases s.len(),
{
    if s.len() > 0 {
        lemma_sort_notes(s.drop_last());
        lemma_insert_note(sort_notes(s.drop_last()), s.last());
        assert(s == s.drop_last().push(s.last()));
    }
}

/// Saving a note leaves exactly one note with its id, the saved one; every
/// note with another id stays; and the list runs most recently updated
/// first.
pub proof fn law_note_upsert(notes: Seq<MarkdownNoteEntry>, note: MarkdownNoteEntry)
    ensures
        ({
            let r = notes_after_upsert(notes, note);
            &&& r.to_multiset().count(note) == 1
            &&& forall|j: int| 0 <= j < r.len() && (#[trigger] r[j]).id == note.id ==> r[j] == note
            &&& forall|n: MarkdownNoteEntry| notes.contains(n) && n.id != note.id ==> r.contains(n)
            &&& notes_ordered(r)
        }),
{
    broadcast use vstd::multiset::group_multiset_axioms;
    broadcast use vstd::seq_lib::group_filter_ensures;
    broadcast use vstd::seq_lib::lemma_multiset_commutative;

    let f = notes.filter(note_not_id(note.id));
    let base = seq![note] + f;
    lemma_sort_notes(base);
    let r = notes_after_upsert(notes, note);
    assert(r == sort_notes(base));
    assert(!f.contains(note)) by {
        if f.contains(note) {
            let k = choose|k: int| 0 <= k < f.len() && f[k] == note;
            assert(note_not_id(note.id)(f[k]));
        }
    }
    assert(seq![note] == Seq::<MarkdownNoteEntry>::empty().push(note));
    assert(Seq::<MarkdownNoteEntry>::empty().to_multiset() =~= Multiset::empty());
    assert(base.to_multiset() == seq![note].to_multiset().add(f.to_multiset()));
    assert(f.to_multiset().count(note) == 0);
    assert forall|j: int| 0 <= j < r.len() && (#[trigger] r[j]).id == note.id implies r[j] == note by {
        let y = r[j];
        assert(r.contains(y));
        assert(r.to_multiset().count(y) > 0);
        if y != note {
            assert(f.to_multiset().count(y) > 0);
            assert(f.contains(y));
            let k = choose|k: int| 0 <= k < f.len() && f[k] == y;
            assert(note_not_id(note.id)(f[k]));
        }
    }
    assert forall|n: MarkdownNoteEntry| notes.contains(n) && n.id != note.id implies r.contains(n) by {
        let k = choose|k: int| 0 <= k < notes.len() && notes[k] == n;
        assert(note_not_id(note.id)(notes[k]));
        assert(f.contains(n));
        assert(f.to_multiset().count(n) > 0);
        assert(r.to_multiset().count(n) > 0);
    }
}

/// Bookmarking a page puts its bookmark first, keeps no other bookmark of
/// that page, and keeps every bookmark of the other pages in their order.
pub proof fn law_bookmark_insert(bookmarks: Seq<BookmarkView>, entry: BookmarkView)
    ensures
        ({
            let r = bookmarks_after_insert(bookmarks, entry);
            &&& r[0] == entry
            &&& forall|i: int|
                1 <= i < r.len() ==> !((#[trigger] r[i]).path == entry.path && r[i].page_index
                    == entry.page_index)
            &&& r.drop_first() == bookmarks.filter(other_page(entry.path, entry.page_index))
            &&& forall|b: BookmarkView|
                bookmarks.contains(b) && !(b.path == entry.path && b.page_index == entry.page_index)
                    ==> r.contains(b)
        }),
{
    broadcast use vstd::seq_lib::group_filter_ensures;

    let pred = other_page(entry.path, entry.page_index);
    let f = bookmarks.filter(pred);
    let r = bookmarks_after_insert(bookmarks, entry);
    assert(r == seq![entry] + f);
    assert(r.drop_first() =~= f);
    assert forall|i: int| 1 <= i < r.len() implies !((#[trigger] r[i]).path == entry.path
        && r[i].page_index == entry.page_index) by {
        assert(r[i] == f[i - 1]);
        assert(pred(f[i - 1]));
    }
    assert forall|b: BookmarkView|
        bookmarks.contains(b) && !(b.path == entry.path && b.page_index == entry.page_index) implies r.contains(b) by {
        let k = choose|k: int| 0 <= k < bookmarks.len() && bookmarks[k] == b;
        assert(pred(bookmarks[k]));
        assert(f.contains(b));
        let j = choose|j: int| 0 <= j < f.len() && f[j] == b;
        assert(r[j + 1] == b);
    }
}

/// Keeping the elements that pass a test a second time keeps them all.
proof fn lemma_filter_twice<A>(s: Seq<A>, pred: spec_fn(A) -> bool)
    ensures
        s.filter(pred).filter(pred) == s.filter(pred),
    decreases s.len(),
{
    reveal(Seq::filter);
    if s.len() > 0 {
        lemma_filter_twice(s.drop_last(), pred);
        let f = s.drop_last().filter(pred);
        if pred(s.last()) {
            assert(s.filter(pred) == f.push(s.last()));
            assert(f.push(s.last()).drop_last() =~= f);
        }
    }
}

/// Removing a page's bookmark right after bookmarking it leaves the bookmarks
/// as removing it alone would: the bookmark added is gone again.
pub proof fn law_bookmark_insert_then_delete(bookmarks: Seq<BookmarkView>, entry: BookmarkView)
    ensures
        bookmarks_after_insert(bookmarks, entry).filter(other_page(entry.path, entry.page_index))
            == bookmarks.filter(other_page(entry.path, entry.page_index)),
{
    let pred = other_page(entry.path, entry.page_index);
    let f = bookmarks.filter(pred);
    Seq::filter_distributes_over_add(seq![entry], f, pred);
    reveal(Seq::filter);
    assert(seq![entry].filter(pred) =~= Seq::<BookmarkView>::empty()) by {
        reveal(Seq::filter);
        assert(seq![entry].drop_last() =~= Seq::<BookmarkView>::empty());
        assert(Seq::<BookmarkView>::empty().filter(pred) =~= Seq::<BookmarkView>::empty());
        assert(!pred(seq![entry].last()));
    }
    lemma_filter_twice(bookmarks, pred);
    assert(Seq::<BookmarkView>::empty() + f.filter(pred) =~= f);
}

/// Selecting all on a page whose text is known selects its whole text: what
/// is copied then is every character's text joined (nothing when that is
/// empty).
pub proof fn law_select_all_copies_page(before: PdfTab, after: PdfTab, page: usize)
    requires
        before.text_selection_manager.caches().contains_key(page),
        before.text_selection_manager.caches()[page].len() <= usize::MAX,
        selection_changed(
            before,
            after,
            all_selected(page, before.text_selection_manager.caches()[page].len() as usize),
        ),
    ensures
        ({
            let text = joined(char_texts(before.text_selection_manager.caches()[page]));
            tab_selected_text(after) == if text.len() > 0 {
                Some(text)
            } else {
                None::<Seq<char>>
            }
        }),
{
    let chars = before.text_selection_manager.caches()[page];
    assert(after.text_selection_manager.caches() == before.text_selection_manager.caches());
    assert(char_texts(chars).subrange(0, chars.len() as int) =~= char_texts(chars));
}

/// Once the selection is cleared nothing is left to copy.
pub proof fn law_cleared_selection_copies_nothing(before: PdfTab, after: PdfTab)
    requires
        selection_changed(before, after, selection_cleared()),
    ensures
        tab_selected_text(after) is None,
{
}

/// A sequence whose elements all pass a test is kept whole by it.
proof fn lemma_filter_keeps_all<A>(s: Seq<A>, pred: spec_fn(A) -> bool)
    requires
        forall|i: int| 0 <= i < s.len() ==> pred(#[trigger] s[i]),
    ensures
        s.filter(pred) == s,
    decreases s.len(),
{
    reveal(Seq::filter);
    if s.len() > 0 {
        lemma_filter_keeps_all(s.drop_last(), pred);
        assert(s.drop_last().push(s.last()) =~= s);
    }
}

/// Opening the file that was just opened again leaves the recent files as
/// they are.
pub proof fn law_recent_open_twice(recent: Seq<Seq<char>>, path: Seq<char>)
    ensures
        recent_after_open(recent_after_open(recent, path), path) == recent_after_open(recent, path),
{
    broadcast use vstd::seq_lib::group_filter_ensures;

    let pred = differs_from(path);
    let f = recent.filter(pred);
    let n = MAX_RECENT_FILES as int;
    let r1 = recent_after_open(recent, path);
    let tail = r1.drop_first();
    assert(r1 == first_n(seq![path] + f, n));
    assert(tail =~= first_n(f, n - 1));
    assert forall|i: int| 0 <= i < tail.len() implies pred(#[trigger] tail[i]) by {
        assert(tail[i] == f[i]);
    }
    lemma_filter_keeps_all(tail, pred);
    assert(r1 =~= seq![path] + tail);
    reveal(Seq::filter);
    assert(r1.filter(pred) =~= tail) by {
        Seq::filter_distributes_over_add(seq![path], tail, pred);
        assert(seq![path].drop_last() =~= Seq::<Seq<char>>::empty());
        assert(Seq::<Seq<char>>::empty().filter(pred) =~= Seq::<Seq<char>>::empty());
        assert(!pred(seq![path].last()));
        assert(seq![path].filter(pred) =~= Seq::<Seq<char>>::empty());
    }
    assert(first_n(seq![path] + tail, n) =~= r1);
}

/// Tabs kept by the same test from two runs that match place by place in id
/// and in the test carry the same ids.
proof fn lemma_filter_same_ids(a: Seq<PdfTab>, b: Seq<PdfTab>, pred: spec_fn(PdfTab) -> bool)
    requires
        a.len() == b.len(),
        forall|k: int| 0 <= k < a.len() ==> (#[trigger] a[k]).id == b[k].id && pred(a[k]) == pred(b[k]),
    ensures
        tab_ids(a.filter(pred)) == tab_ids(b.filter(pred)),
    decreases a.len(),
{
    reveal(Seq::filter);
    if a.len() > 0 {
        let (ra, rb) = (a.drop_last(), b.drop_last());
        assert forall|k: int| 0 <= k < ra.len() implies (#[trigger] ra[k]).id == rb[k].id && pred(ra[k]) == pred(rb[k]) by {
            assert(ra[k] == a[k] && rb[k] == b[k]);
        }
        lemma_filter_same_ids(ra, rb, pred);
        assert(a.last() == a[a.len() - 1] && b.last() == b[b.len() - 1]);
        if pred(a.last()) {
            let (fa, fb) = (ra.filter(pred), rb.filter(pred));
            assert(tab_ids(fa.push(a.last())) =~= tab_ids(fa).push(a.last().id));
            assert(tab_ids(fb.push(b.last())) =~= tab_ids(fb).push(b.last().id));
        }
    }
}

/// Filtering tabs whose ids are unique keeps the ids unique.
proof fn lemma_filter_ids_unique(tabs: Seq<PdfTab>, pred: spec_fn(PdfTab) -> bool)
    requires
        ids_unique(tabs),
    ensures
        ids_unique(tabs.filter(pred)),
    decreases tabs.len(),
{
    reveal(Seq::filter);
    if tabs.len() > 0 {
        let rest = tabs.drop_last();
        assert(ids_unique(rest)) by {
            assert forall|x: int, y: int|
                0 <= x < rest.len() && 0 <= y < rest.len() && x != y implies rest[x].id
                != rest[y].id by {
                assert(rest[x] == tabs[x] && rest[y] == tabs[y]);
            }
        }
        lemma_filter_ids_unique(rest, pred);
        let f = rest.filter(pred);
        if pred(tabs.last()) {
            let g = f.push(tabs.last());
            assert forall|x: int, y: int| 0 <= x < g.len() && 0 <= y < g.len() && x != y implies g[x].id != g[y].id by {
                if x == f.len() || y == f.len() {
                    let z = if x == f.len() { y } else { x };
                    assert(g[z] == f[z]);
                    assert(f.contains(f[z]));
                    rest.lemma_filter_contains_rev(pred, f[z]);
                    let k = choose|k: int| 0 <= k < rest.len() && rest[k] == f[z];
                    assert(tabs[k] == rest[k]);
                    assert(tabs.last() == tabs[tabs.len() - 1]);
                } else {
                    assert(g[x] == f[x] && g[y] == f[y]);
                }
            }
        }
    }
}

/// Two bars whose tabs match place by place in id and in whether they show a
/// file show the same tabs.
proof fn lemma_same_shown_ids(a: Seq<PdfTab>, b: Seq<PdfTab>)
    requires
        a.len() == b.len(),
        forall|k: int|
            0 <= k < a.len() ==> (#[trigger] a[k]).id == b[k].id && (a[k].path is Some) == (
            b[k].path is Some),
    ensures
        tab_ids(visible_tabs(a)) == tab_ids(visible_tabs(b)),
{
    assert(has_file_open(a) == has_file_open(b)) by {
        if has_file_open(a) {
            let k = choose|k: int| 0 <= k < a.len() && (#[trigger] a[k]).path is Some;
            assert(b[k].path is Some);
        }
        if has_file_open(b) {
            let k = choose|k: int| 0 <= k < b.len() && (#[trigger] b[k]).path is Some;
            assert(a[k].path is Some);
        }
    }
    let pred = shown_in_bar(has_file_open(a));
    assert forall|k: int| 0 <= k < a.len() implies (#[trigger] a[k]).id == b[k].id && pred(a[k]) == pred(b[k]) by {}
    lemma_filter_same_ids(a, b, pred);
}

/// A read that may start leaves every tab with its id and its file shown or
/// not.
proof fn lemma_load_keeps_shown(
    before: Seq<PdfTab>,
    after: Seq<PdfTab>,
    id: usize,
    load: Option<TabLoadStart>,
)
    requires
        load_if_needed_done(before, after, id, load),
    ensures
        after.len() == before.len(),
        forall|k: int|
            0 <= k < before.len() ==> (#[trigger] before[k]).id == after[k].id && (before[k].path is Some)
                == (after[k].path is Some),
{
    reveal(load_if_needed_done);
    if let Some(p) = pending_load_path(before, id) {
        let i = index_of_id(before, id);
        assert(begins_load(p)(before[i], after[i]));
    }
}

/// Switching `offset` shown tabs away from the active one and then `offset`
/// back returns to it: after the first switch the bar shows the same tabs,
/// and the tab `offset` places back from the one reached is the one left.
pub proof fn law_switch_offset_and_back(
    tabs: Seq<PdfTab>,
    active: usize,
    offset: int,
    after: Seq<PdfTab>,
    load: Option<TabLoadStart>,
)
    requires
        ids_unique(tabs),
        index_of_id(visible_tabs(tabs), active) >= 0,
        tab_ids(visible_tabs(tabs)).len() >= 2,
        load_if_needed_done(
            tabs,
            after,
            tab_ids(visible_tabs(tabs))[(visible_active_position(tabs, Some(active)) + offset) % (
            tab_ids(visible_tabs(tabs)).len() as int)],
            load,
        ),
    ensures
        ({
            let vis = tab_ids(visible_tabs(tabs));
            let n = vis.len() as int;
            let reached = vis[(visible_active_position(tabs, Some(active)) + offset) % n];
            &&& tab_ids(visible_tabs(after)) == vis
            &&& vis[(visible_active_position(after, Some(reached)) - offset) % n] == active
        }),
{
    let vis_tabs = visible_tabs(tabs);
    let vis = tab_ids(vis_tabs);
    let n = vis.len() as int;
    let cur = index_of_id(vis_tabs, active);
    let m = (cur + offset) % n;
    let reached = vis[m];
    lemma_load_keeps_shown(tabs, after, reached, load);
    lemma_same_shown_ids(tabs, after);
    let vis_after = visible_tabs(after);
    assert(vis_after.len() == vis_tabs.len()) by {
        assert(tab_ids(vis_after).len() == vis_after.len());
    }
    assert forall|k: int| 0 <= k < vis_tabs.len() implies #[trigger] vis_tabs[k].id == vis_after[k].id by {
        assert(tab_ids(vis_tabs)[k] == tab_ids(vis_after)[k]);
    }
    lemma_index_of_id_same_ids(vis_tabs, vis_after, reached);
    lemma_filter_ids_unique(tabs, shown_in_bar(has_file_open(tabs)));
    lemma_index_of_id(vis_tabs, reached);
    assert(vis_tabs[m].id == reached);
    assert(index_of_id(vis_tabs, reached) == m);
    lemma_index_of_id(vis_tabs, active);
    assert(0 <= cur < n);
    assert(vis[cur] == active);
    assert(visible_active_position(tabs, Some(active)) == cur);
    assert(visible_active_position(after, Some(reached)) == m);
    vstd::arithmetic::div_mod::lemma_fundamental_div_mod(cur + offset, n);
    let q = (cur + offset) / n;
    assert(cur + offset == n * q + m);
    assert((0 - q) * n == 0 - n * q) by (nonlinear_arith);
    vstd::arithmetic::div_mod::lemma_fundamental_div_mod_converse_mod(m - offset, n, 0 - q, cur);
}

/// The last page read in a file comes back: the page saved for a tab, stored
/// and read back, is the page shown first when the file is read again with
/// at least as many pages.
pub proof fn law_reading_position_comes_back(tabs: Seq<PdfTab>, tab_id: usize, page_count: int)
    requires
        position_to_save(tabs, tab_id) is Some,
        page_count >= tabs[index_of_id(tabs, tab_id)].pages@.len(),
    ensures
        ({
            let saved = position_to_save(tabs, tab_id)->0;
            let page = saved.1;
            initial_page_of(page_count, decoded_file_position(encoded_file_position(page))) == page
        }),
{
    let saved = position_to_save(tabs, tab_id)->0;
    lemma_file_position_round_trip(saved.1);
}

/// Every batch asked for holds at most `batch_size` pages (one when the size
/// is zero), each a page that exists, needs rendering and was a candidate,
/// and none twice.
pub proof fn law_render_batch_well_formed(
    pages: Seq<PageSummary>,
    kind: RenderKind,
    target: u32,
    candidates: Seq<usize>,
    batch_size: usize,
)
    ensures
        ({
            let b = render_batch(pages, kind, target, candidates, batch_size);
            &&& b.len() <= if batch_size == 0 {
                1
            } else {
                batch_size as int
            }
            &&& forall|i: int|
                0 <= i < b.len() ==> (#[trigger] b[i]) < pages.len() && needs_render(
                    pages[b[i] as int],
                    kind,
                    target,
                ) && candidates.contains(b[i])
            &&& forall|i: int, j: int| 0 <= i < j < b.len() ==> b[i] != b[j]
        }),
    decreases candidates.len(),
{
    if candidates.len() > 0 {
        let front = candidates.drop_last();
        let ix = candidates.last();
        law_render_batch_well_formed(pages, kind, target, front, batch_size);
        let prev = render_batch(pages, kind, target, front, batch_size);
        let b = render_batch(pages, kind, target, candidates, batch_size);
        assert forall|i: int| 0 <= i < prev.len() implies candidates.contains(#[trigger] prev[i]) by {
            let k = choose|k: int| 0 <= k < front.len() && front[k] == prev[i];
            assert(candidates[k] == front[k]);
        }
        if b != prev {
            assert(b == prev.push(ix));
            assert(candidates[candidates.len() - 1] == ix);
            assert forall|i: int, j: int| 0 <= i < j < b.len() implies b[i] != b[j] by {
                if j == prev.len() {
                    assert(b[i] == prev[i]);
                    assert(front.contains(prev[i]));
                } else {
                    assert(b[i] == prev[i] && b[j] == prev[j]);
                }
            }
            assert forall|i: int| 0 <= i < b.len() implies (#[trigger] b[i]) < pages.len() && needs_render(
                pages[b[i] as int],
                kind,
                target,
            ) && candidates.contains(b[i]) by {
                if i < prev.len() {
                    assert(b[i] == prev[i]);
                }
            }
        }
    }
}

/// Opening an empty tab hands out an id that no open tab has, puts the new
/// tab at the end (the ids read as before plus the new one), makes it active,
/// and adds one to the count.
pub proof fn law_create_tab_appends_a_fresh_tab(before: TabBar, after: TabBar, id: usize)
    requires
        before.wf(),
        id == before.spec_next_tab_id(),
        after.spec_next_tab_id() == id + 1,
        after.spec_tabs().drop_last() == before.spec_tabs(),
        after.spec_tabs().len() == before.spec_tabs().len() + 1,
        after.spec_tabs().last().is_new_tab(id),
        after.spec_active_tab_id() == Some(id),
    ensures
        !tab_ids(before.spec_tabs()).contains(id),
        tab_ids(after.spec_tabs()) == tab_ids(before.spec_tabs()).push(id),
        after.spec_active_tab_id() == Some(id),
        after.spec_tabs().len() == before.spec_tabs().len() + 1,
        after.spec_tabs().last().path is None,
        after.spec_tabs().last().pages@.len() == 0,
{
    let old_tabs = before.spec_tabs();
    let new_tabs = after.spec_tabs();
    if tab_ids(old_tabs).contains(id) {
        let k = choose|k: int| 0 <= k < tab_ids(old_tabs).len() && tab_ids(old_tabs)[k] == id;
        assert(old_tabs[k].id < before.spec_next_tab_id());
    }
    assert forall|k: int| 0 <= k < old_tabs.len() implies new_tabs[k] == old_tabs[k] by {
        assert(new_tabs.drop_last()[k] == new_tabs[k]);
    }
    assert(tab_ids(new_tabs) =~= tab_ids(old_tabs).push(id));
}

/// Tab ids only grow: an id that `create_tab` hands out is above every id it
/// handed out before. Between the two calls any other calls of the bar may
/// run; none of them lowers the next id (each says so in its contract), which
/// is what the middle condition states.
pub proof fn law_created_ids_increase(
    first_before: TabBar,
    first_after: TabBar,
    first_id: usize,
    second_before: TabBar,
    second_id: usize,
)
    requires
        first_id == first_before.spec_next_tab_id(),
        first_after.spec_next_tab_id() == first_id + 1,
        first_after.spec_next_tab_id() <= second_before.spec_next_tab_id(),
        second_id == second_before.spec_next_tab_id(),
    ensures
        first_id < second_id,
{
}

/// A page whose image came back in a finished batch holds that image, at
/// the batch's width, and needs no more rendering at that width.
pub proof fn law_finished_pages_are_rendered(
    before: PdfTab,
    after: PdfTab,
    kind: RenderKind,
    target: u32,
    requested: Seq<usize>,
    loaded: Seq<usize>,
    j: int,
)
    requires
        batch_finished(before, after, kind, target, requested, Some(loaded)),
        0 <= j < before.pages@.len(),
        loaded.contains(j as usize),
    ensures
        page_ready(after.pages@[j], kind),
        page_render_width(after.pages@[j], kind) == target,
        !needs_render(after.pages@[j], kind, target),
{
    assert(after.pages@[j] == page_after_batch(before.pages@[j], j, kind, target, requested, Some(loaded)));
}

/// Once a batch brought back every page it was asked about, asking again at
/// the same width about those pages finds nothing left to render.
pub proof fn law_nothing_left_after_a_full_batch(
    before: PdfTab,
    after: PdfTab,
    kind: RenderKind,
    target: u32,
    requested: Seq<usize>,
    loaded: Seq<usize>,
    candidates: Seq<usize>,
    batch_size: usize,
)
    requires
        batch_finished(before, after, kind, target, requested, Some(loaded)),
        forall|i: int|
            0 <= i < candidates.len() && (candidates[i] as int) < before.pages@.len()
                ==> loaded.contains(#[trigger] candidates[i]),
    ensures
        render_batch(after.pages@, kind, target, candidates, batch_size).len() == 0,
    decreases candidates.len(),
{
    if candidates.len() > 0 {
        let front = candidates.drop_last();
        assert forall|i: int|
            0 <= i < front.len() && (front[i] as int) < before.pages@.len() implies loaded.contains(
            #[trigger] front[i],
        ) by {
            assert(front[i] == candidates[i]);
        }
        law_nothing_left_after_a_full_batch(
            before,
            after,
            kind,
            target,
            requested,
            loaded,
            front,
            batch_size,
        );
        let ix = candidates.last();
        if (ix as int) < after.pages@.len() {
            assert(candidates[candidates.len() - 1] == ix);
            law_finished_pages_are_rendered(before, after, kind, target, requested, loaded, ix as int);
        }
    }
}

/// A tab's menu offers closing the other tabs exactly when another tab is
/// open (so never for the only tab), and showing the file in the file manager
/// exactly when the tab shows a file; an id no tab has gets no menu.
pub proof fn law_tab_menu_choices(tabs: Seq<PdfTab>, tab_id: usize)
    requires
        ids_unique(tabs),
    ensures
        has_tab_id(tabs, tab_id) ==> (tab_menu_options(tabs, tab_id) matches Some(o) && o.0 == (exists|k: int|
            0 <= k < tabs.len() && #[trigger] tabs[k].id != tab_id) && o.0 == (tabs.len() > 1) && o.1
            == (exists|k: int| 0 <= k < tabs.len() && #[trigger] tabs[k].id == tab_id && tabs[k].path is Some)),
        tabs.len() == 1 ==> match tab_menu_options(tabs, tab_id) {
            Some(o) => !o.0,
            None => true,
        },
        !has_tab_id(tabs, tab_id) ==> tab_menu_options(tabs, tab_id) is None,
{
    lemma_index_of_id(tabs, tab_id);
    let i = index_of_id(tabs, tab_id);
    if i >= 0 {
        if tabs.len() > 1 {
            let other = if i == 0 { 1int } else { 0int };
            assert(tabs[other].id != tab_id);
        }
        if exists|k: int| 0 <= k < tabs.len() && #[trigger] tabs[k].id != tab_id {
            let k = choose|k: int| 0 <= k < tabs.len() && #[trigger] tabs[k].id != tab_id;
            assert(k != i);
        }
        if exists|k: int| 0 <= k < tabs.len() && #[trigger] tabs[k].id == tab_id && tabs[k].path is Some {
            let k = choose|k: int| 0 <= k < tabs.len() && #[trigger] tabs[k].id == tab_id && tabs[k].path is Some;
            assert(k == i);
        }
    }
}

/// A new tab never takes the id of a tab that is open: the id the bar hands
/// out next is in use by none of them.
pub proof fn law_next_tab_id_is_fresh(bar: TabBar)
    requires
        bar.wf(),
    ensures
        !has_tab_id(bar.spec_tabs(), bar.spec_next_tab_id()),
{
}

} // verus!
