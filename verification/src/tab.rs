//! Tabs: the documents open in the viewer, the page and rendering state of each,
//! and the tab bar that orders them and knows which one is active.

use vstd::prelude::*;

use std::collections::HashSet;

use crate::text_selection::TextSelectionManager;

verus! {

broadcast use {vstd::std_specs::hash::group_hash_axioms, vstd::string::group_string_axioms};

/// Rendering state of one page. The page's size and rendered images stay with
/// the caller; here each image is represented by whether it is ready.
#[derive(Clone, Copy, Debug, PartialEq, Eq, Structural)]
pub struct PageSummary {
    pub index: usize,
    pub thumbnail_ready: bool,
    pub thumbnail_render_width: u32,
    pub thumbnail_failed: bool,
    pub display_ready: bool,
    pub display_render_width: u32,
    pub display_failed: bool,
}

impl PageSummary {
    /// A page with nothing rendered yet.
    pub fn new(index: usize) -> (r: Self)
        ensures
            r == (PageSummary {
                index,
                thumbnail_ready: false,
                thumbnail_render_width: 0,
                thumbnail_failed: false,
                display_ready: false,
                display_render_width: 0,
                display_failed: false,
            }),
    {
        PageSummary {
            index,
            thumbnail_ready: false,
            thumbnail_render_width: 0,
            thumbnail_failed: false,
            display_ready: false,
            display_render_width: 0,
            display_failed: false,
        }
    }
}

/// The final component of `p` as `std::path::Path::file_name` finds it on
/// the platform the library is built for, read as text.
pub uninterp spec fn path_file_name_text(p: Seq<char>) -> Option<Seq<char>>;

/// The label of a tab: its file's name, `Unknown` when the path names no file,
/// `Untitled` when the tab has no file.
pub open spec fn tab_label(path: Option<Seq<char>>) -> Seq<char> {
    match path {
        None => "Untitled"@,
        Some(p) => match path_file_name_text(p) {
            Some(n) => n,
            None => "Unknown"@,
        },
    }
}

/// The text of `p` rebuilt from its components as `std::path::Path` reads
/// them on the platform the library is built for (`a/b/`, `a//b` and `a/./b`
/// all give `a/b`).
pub uninterp spec fn path_components_text(p: Seq<char>) -> Seq<char>;

/// Rebuilds a path from `Path::components` (collected into a `PathBuf` and
/// read back as text): the contract names the result `path_components_text`
/// of the input text and claims nothing more of it.
#[verifier::external_body]
fn rebuilt_path(path: &str) -> (r: String)
    ensures
        r@ == path_components_text(path@),
{
    std::path::Path::new(path).components().collect::<std::path::PathBuf>().to_string_lossy().into_owned()
}

/// The paths rebuilt from their components. The viewer compares the paths
/// it holds as text, so paths are handed to it in this form.
pub fn normalize_paths(paths: &[String]) -> (r: Vec<String>)
    ensures
        r@.len() == paths@.len(),
        forall|k: int| 0 <= k < paths@.len() ==> #[trigger] r@[k]@ == path_components_text(paths@[k]@),
{
    let mut r: Vec<String> = Vec::new();
    let mut i: usize = 0;
    while i < paths.len()
        invariant
            i <= paths@.len(),
            r@.len() == i,
            forall|k: int| 0 <= k < i ==> #[trigger] r@[k]@ == path_components_text(paths@[k]@),
        decreases paths@.len() - i,
    {
        r.push(rebuilt_path(paths[i].as_str()));
        i += 1;
    }
    r
}

/// The name of the file at `path`: std `Path::file_name`, read back as text
/// (lossless for a path given as text). The contract names the result
/// `path_file_name_text` of the path and claims nothing more of it.
#[verifier::external_body]
fn path_file_name(path: &str) -> (r: Option<String>)
    ensures
        match r {
            Some(n) => path_file_name_text(path@) == Some(n@),
            None => path_file_name_text(path@) is None,
        },
{
    match std::path::Path::new(path).file_name() {
        Some(n) => Some(n.to_string_lossy().into_owned()),
        None => None,
    }
}

/// The epoch after `e`, wrapping around.
pub open spec fn next_epoch(e: u64) -> u64 {
    if e == u64::MAX {
        0
    } else {
        (e + 1) as u64
    }
}

/// `page`, or the last page when it is past the end (0 when there are none).
pub open spec fn clamped_page(page: usize, count: int) -> usize {
    if count <= 0 {
        0
    } else if page < count - 1 {
        page
    } else {
        (count - 1) as usize
    }
}

/// `s` with page `x` placed after every page whose index is not larger.
pub open spec fn insert_page(s: Seq<PageSummary>, x: PageSummary) -> Seq<PageSummary>
    decreases s.len(),
{
    if s.len() == 0 {
        seq![x]
    } else if s.last().index <= x.index {
        s.push(x)
    } else {
        insert_page(s.drop_last(), x).push(s.last())
    }
}

/// The pages ordered by index; pages with equal index keep their order.
pub open spec fn sort_pages(s: Seq<PageSummary>) -> Seq<PageSummary>
    decreases s.len(),
{
    if s.len() == 0 {
        s
    } else {
        insert_page(sort_pages(s.drop_last()), s.last())
    }
}

proof fn lemma_insert_page_at(s: Seq<PageSummary>, x: PageSummary, j: int)
    requires
        0 <= j <= s.len(),
        forall|k: int| j <= k < s.len() ==> #[trigger] s[k].index > x.index,
        j == 0 || s[j - 1].index <= x.index,
    ensures
        insert_page(s, x) == s.insert(j, x),
    decreases s.len(),
{
    if s.len() == 0 {
        assert(s.insert(j, x) =~= seq![x]);
    } else if j == s.len() {
        assert(s.insert(j, x) =~= s.push(x));
    } else {
        lemma_insert_page_at(s.drop_last(), x, j);
        assert(s.drop_last().insert(j, x).push(s.last()) =~= s.insert(j, x));
    }
}

fn insert_page_exec(v: &mut Vec<PageSummary>, x: PageSummary)
    ensures
        final(v)@ == insert_page(old(v)@, x),
{
    let mut j = v.len();
    while j > 0 && v[j - 1].index > x.index
        invariant
            j <= v@.len(),
            v@ == old(v)@,
            forall|k: int| j <= k < v@.len() ==> #[trigger] v@[k].index > x.index,
        decreases j,
    {
        j -= 1;
    }
    proof {
        lemma_insert_page_at(v@, x, j as int);
    }
    v.insert(j, x);
}

/// The pages in index order, as a stable sort leaves them.
pub fn sort_pages_by_index(pages: Vec<PageSummary>) -> (r: Vec<PageSummary>)
    ensures
        r@ == sort_pages(pages@),
{
    let ghost unsorted = pages@;
    let mut rest = pages;
    let mut sorted: Vec<PageSummary> = Vec::new();
    let ghost k: int = 0;
    while rest.len() > 0
        invariant
            0 <= k <= unsorted.len(),
            rest@ == unsorted.skip(k),
            sorted@ == sort_pages(unsorted.take(k)),
        decreases rest@.len(),
    {
        let x = rest.remove(0);
        assert(unsorted.take(k + 1).drop_last() =~= unsorted.take(k));
        assert(unsorted.take(k + 1).last() == x);
        insert_page_exec(&mut sorted, x);
        proof {
            k = k + 1;
        }
        assert(rest@ =~= unsorted.skip(k));
    }
    assert(unsorted.take(k) =~= unsorted);
    sorted
}

/// One open document (or the empty start tab) and its viewing state.
pub struct PdfTab {
    pub id: usize,
    pub path: Option<String>,
    pub pages: Vec<PageSummary>,
    pub selected_page: usize,
    pub active_page: usize,
    pub thumbnail_loading: HashSet<usize>,
    pub thumbnail_inflight_tasks: usize,
    pub thumbnail_epoch: u64,
    /// Start and end of the thumbnail rows last seen.
    pub last_thumbnail_visible_range: Option<(usize, usize)>,
    pub display_loading: HashSet<usize>,
    pub display_inflight_tasks: usize,
    pub display_epoch: u64,
    /// Start and end of the page rows last seen.
    pub last_display_visible_range: Option<(usize, usize)>,
    pub last_display_target_width: u32,
    pub display_scroll_sync_epoch: u64,
    pub suppress_display_scroll_sync_once: bool,
    pub last_saved_position: Option<(String, usize)>,
    pub text_selection_manager: TextSelectionManager,
    /// The document's page list has been read.
    pub summary_loaded: bool,
    /// The page list is being read.
    pub summary_loading: bool,
    /// Reading the page list failed.
    pub summary_failed: bool,
}

/// `after` is `before` with its rendering forgotten (both epochs moved on,
/// nothing loading or in flight, no rows seen) and its page texts and
/// selection dropped; its id and layout bookkeeping stay.
pub open spec fn render_state_reset(before: PdfTab, after: PdfTab) -> bool {
    &&& after.id == before.id
    &&& after.thumbnail_loading@.is_empty()
    &&& after.thumbnail_inflight_tasks == 0
    &&& after.thumbnail_epoch == next_epoch(before.thumbnail_epoch)
    &&& after.last_thumbnail_visible_range is None
    &&& after.display_loading@.is_empty()
    &&& after.display_inflight_tasks == 0
    &&& after.display_epoch == next_epoch(before.display_epoch)
    &&& after.last_display_visible_range is None
    &&& after.text_selection_manager.wf()
    &&& after.text_selection_manager.caches() == Map::<usize, Seq<String>>::empty()
    &&& after.text_selection_manager.spec_current_selection() is None
    &&& after.text_selection_manager.spec_selection_start() is None
    &&& !after.text_selection_manager.spec_is_selecting()
    &&& after.last_display_target_width == before.last_display_target_width
    &&& after.display_scroll_sync_epoch == before.display_scroll_sync_epoch
}

impl PdfTab {
    /// Whether this is a tab as [`PdfTab::new`] makes it.
    pub open spec fn is_new_tab(&self, id: usize) -> bool {
        &&& self.id == id
        &&& self.path is None
        &&& self.pages@.len() == 0
        &&& self.selected_page == 0
        &&& self.active_page == 0
        &&& self.thumbnail_loading@.is_empty()
        &&& self.thumbnail_inflight_tasks == 0
        &&& self.thumbnail_epoch == 0
        &&& self.last_thumbnail_visible_range is None
        &&& self.display_loading@.is_empty()
        &&& self.display_inflight_tasks == 0
        &&& self.display_epoch == 0
        &&& self.last_display_visible_range is None
        &&& self.last_display_target_width == 220
        &&& self.display_scroll_sync_epoch == 0
        &&& !self.suppress_display_scroll_sync_once
        &&& self.last_saved_position is None
        &&& !self.summary_loaded
        &&& !self.summary_loading
        &&& !self.summary_failed
        &&& self.text_selection_manager.wf()
        &&& self.text_selection_manager.caches() == Map::<usize, Seq<String>>::empty()
        &&& self.text_selection_manager.spec_current_selection() is None
        &&& !self.text_selection_manager.spec_is_selecting()
    }

    /// An empty tab with the given id.
    pub fn new(id: usize) -> (r: Self)
        ensures
            r.is_new_tab(id),
    {
        PdfTab {
            id,
            path: None,
            pages: Vec::new(),
            selected_page: 0,
            active_page: 0,
            thumbnail_loading: HashSet::new(),
            thumbnail_inflight_tasks: 0,
            thumbnail_epoch: 0,
            last_thumbnail_visible_range: None,
            display_loading: HashSet::new(),
            display_inflight_tasks: 0,
            display_epoch: 0,
            last_display_visible_range: None,
            last_display_target_width: 220,
            display_scroll_sync_epoch: 0,
            suppress_display_scroll_sync_once: false,
            last_saved_position: None,
            text_selection_manager: TextSelectionManager::new(),
            summary_loaded: false,
            summary_loading: false,
            summary_failed: false,
        }
    }

    /// Forgets thumbnail work in flight; results of older requests no longer
    /// apply because the epoch moves on.
    pub fn reset_thumbnail_render_state(&mut self)
        ensures
            final(self).thumbnail_loading@.is_empty(),
            final(self).thumbnail_inflight_tasks == 0,
            final(self).thumbnail_epoch == (if old(self).thumbnail_epoch == u64::MAX {
                0
            } else {
                (old(self).thumbnail_epoch + 1) as u64
            }),
            final(self).last_thumbnail_visible_range is None,
            final(self).id == old(self).id,
            final(self).path == old(self).path,
            final(self).pages@ == old(self).pages@,
            final(self).selected_page == old(self).selected_page,
            final(self).active_page == old(self).active_page,
            final(self).display_loading@ == old(self).display_loading@,
            final(self).display_inflight_tasks == old(self).display_inflight_tasks,
            final(self).display_epoch == old(self).display_epoch,
            final(self).last_display_visible_range == old(self).last_display_visible_range,
            final(self).last_saved_position == old(self).last_saved_position,
            final(self).text_selection_manager == old(self).text_selection_manager,
            final(self).summary_loaded == old(self).summary_loaded,
            final(self).summary_loading == old(self).summary_loading,
            final(self).summary_failed == old(self).summary_failed,
            final(self).last_display_target_width == old(self).last_display_target_width,
            final(self).display_scroll_sync_epoch == old(self).display_scroll_sync_epoch,
            final(self).suppress_display_scroll_sync_once == old(self).suppress_display_scroll_sync_once,
    {
        self.thumbnail_loading.clear();
        self.thumbnail_inflight_tasks = 0;
        self.thumbnail_epoch = self.thumbnail_epoch.wrapping_add(1);
        self.last_thumbnail_visible_range = None;
    }

    /// Forgets page-image work in flight; results of older requests no longer
    /// apply because the epoch moves on.
    pub fn reset_display_render_state(&mut self)
        ensures
            final(self).display_loading@.is_empty(),
            final(self).display_inflight_tasks == 0,
            final(self).display_epoch == (if old(self).display_epoch == u64::MAX {
                0
            } else {
                (old(self).display_epoch + 1) as u64
            }),
            final(self).last_display_visible_range is None,
            final(self).id == old(self).id,
            final(self).path == old(self).path,
            final(self).pages@ == old(self).pages@,
            final(self).selected_page == old(self).selected_page,
            final(self).active_page == old(self).active_page,
            final(self).thumbnail_loading@ == old(self).thumbnail_loading@,
            final(self).thumbnail_inflight_tasks == old(self).thumbnail_inflight_tasks,
            final(self).thumbnail_epoch == old(self).thumbnail_epoch,
            final(self).last_thumbnail_visible_range == old(self).last_thumbnail_visible_range,
            final(self).last_saved_position == old(self).last_saved_position,
            final(self).text_selection_manager == old(self).text_selection_manager,
            final(self).summary_loaded == old(self).summary_loaded,
            final(self).summary_loading == old(self).summary_loading,
            final(self).summary_failed == old(self).summary_failed,
            final(self).last_display_target_width == old(self).last_display_target_width,
            final(self).display_scroll_sync_epoch == old(self).display_scroll_sync_epoch,
            final(self).suppress_display_scroll_sync_once == old(self).suppress_display_scroll_sync_once,
    {
        self.display_loading.clear();
        self.display_inflight_tasks = 0;
        self.display_epoch = self.display_epoch.wrapping_add(1);
        self.last_display_visible_range = None;
    }

    /// Resets both kinds of rendering and drops the page texts and selection.
    pub fn reset_page_render_state(&mut self)
        ensures
            final(self).thumbnail_loading@.is_empty(),
            final(self).thumbnail_inflight_tasks == 0,
            final(self).thumbnail_epoch == (if old(self).thumbnail_epoch == u64::MAX {
                0
            } else {
                (old(self).thumbnail_epoch + 1) as u64
            }),
            final(self).last_thumbnail_visible_range is None,
            final(self).display_loading@.is_empty(),
            final(self).display_inflight_tasks == 0,
            final(self).display_epoch == (if old(self).display_epoch == u64::MAX {
                0
            } else {
                (old(self).display_epoch + 1) as u64
            }),
            final(self).last_display_visible_range is None,
            final(self).text_selection_manager.wf(),
            final(self).text_selection_manager.caches() == Map::<usize, Seq<String>>::empty(),
            final(self).text_selection_manager.spec_current_selection() is None,
            final(self).text_selection_manager.spec_selection_start() is None,
            !final(self).text_selection_manager.spec_is_selecting(),
            final(self).id == old(self).id,
            final(self).path == old(self).path,
            final(self).pages@ == old(self).pages@,
            final(self).selected_page == old(self).selected_page,
            final(self).active_page == old(self).active_page,
            final(self).last_saved_position == old(self).last_saved_position,
            final(self).summary_loaded == old(self).summary_loaded,
            final(self).summary_loading == old(self).summary_loading,
            final(self).summary_failed == old(self).summary_failed,
            final(self).last_display_target_width == old(self).last_display_target_width,
            final(self).display_scroll_sync_epoch == old(self).display_scroll_sync_epoch,
            final(self).suppress_display_scroll_sync_once == old(self).suppress_display_scroll_sync_once,
    {
        self.reset_thumbnail_render_state();
        self.reset_display_render_state();
        self.text_selection_manager.clear_cache();
        self.text_selection_manager.clear_selection();
    }

    /// The tab's label: its file's name, or `Unknown` / `Untitled`.
    pub fn file_name(&self) -> (r: String)
        ensures
            r@ == tab_label(match self.path {
                Some(p) => Some(p@),
                None => None,
            }),
    {
        match &self.path {
            Some(p) => match path_file_name(p.as_str()) {
                Some(n) => n,
                None => "Unknown".to_string(),
            },
            None => "Untitled".to_string(),
        }
    }
}

/// Position of the first tab with the given id, or -1 when none has it.
pub open spec fn index_of_id(tabs: Seq<PdfTab>, id: usize) -> int
    decreases tabs.len(),
{
    if tabs.len() == 0 {
        -1
    } else if index_of_id(tabs.drop_last(), id) >= 0 {
        index_of_id(tabs.drop_last(), id)
    } else if tabs.last().id == id {
        tabs.len() - 1
    } else {
        -1
    }
}

pub open spec fn has_tab_id(tabs: Seq<PdfTab>, id: usize) -> bool {
    exists|i: int| 0 <= i < tabs.len() && tabs[i].id == id
}

pub open spec fn ids_unique(tabs: Seq<PdfTab>) -> bool {
    forall|i: int, j: int| 0 <= i < tabs.len() && 0 <= j < tabs.len() && i != j ==> tabs[i].id != tabs[j].id
}

/// The ids of the tabs, in order.
pub open spec fn tab_ids(tabs: Seq<PdfTab>) -> Seq<usize> {
    tabs.map_values(|t: PdfTab| t.id)
}

pub proof fn lemma_index_of_id(tabs: Seq<PdfTab>, id: usize)
    ensures
        -1 <= index_of_id(tabs, id) < tabs.len(),
        index_of_id(tabs, id) >= 0 ==> tabs[index_of_id(tabs, id)].id == id,
        index_of_id(tabs, id) >= 0 ==> forall|k: int| 0 <= k < index_of_id(tabs, id) ==> tabs[k].id != id,
        index_of_id(tabs, id) == -1 <==> !has_tab_id(tabs, id),
    decreases tabs.len(),
{
    if tabs.len() > 0 {
        let prefix = tabs.drop_last();
        lemma_index_of_id(prefix, id);
        if index_of_id(prefix, id) < 0 && tabs.last().id != id {
            assert forall|i: int| 0 <= i < tabs.len() implies tabs[i].id != id by {
                if i < tabs.len() - 1 {
                    assert(prefix[i] == tabs[i]);
                }
            }
        }
        if index_of_id(prefix, id) >= 0 {
            assert(tabs[index_of_id(prefix, id)] == prefix[index_of_id(prefix, id)]);
            assert forall|k: int| 0 <= k < index_of_id(prefix, id) implies tabs[k].id != id by {
                assert(prefix[k] == tabs[k]);
            }
        }
        if index_of_id(prefix, id) < 0 && tabs.last().id == id {
            assert forall|k: int| 0 <= k < tabs.len() - 1 implies tabs[k].id != id by {
                assert(prefix[k] == tabs[k]);
            }
        }
    }
}

/// Where the tab now at `k` was before the tab at `from` moved to `to`.
pub open spec fn moved_from(k: int, from: int, to: int) -> int {
    if k == to {
        from
    } else {
        let r = if k < to {
            k
        } else {
            k - 1
        };
        if r < from {
            r
        } else {
            r + 1
        }
    }
}

/// The active tab after the tab at `index`, with id `closed`, was removed,
/// leaving `rest`: the tab that took its place, else the new last tab, else
/// none. Closing an inactive tab leaves the active one as it was.
pub open spec fn active_after_close(
    active: Option<usize>,
    closed: usize,
    index: int,
    rest: Seq<PdfTab>,
) -> Option<usize> {
    if active == Some(closed) {
        if rest.len() == 0 {
            None
        } else if index < rest.len() {
            Some(rest[index].id)
        } else {
            Some(rest.last().id)
        }
    } else {
        active
    }
}

/// The open tabs, in display order, and which one is active.
pub struct TabBar {
    tabs: Vec<PdfTab>,
    active_tab_id: Option<usize>,
    next_tab_id: usize,
}

impl TabBar {
    pub closed spec fn spec_tabs(&self) -> Seq<PdfTab> {
        self.tabs@
    }

    pub closed spec fn spec_active_tab_id(&self) -> Option<usize> {
        self.active_tab_id
    }

    /// The id the next new tab gets.
    pub closed spec fn spec_next_tab_id(&self) -> usize {
        self.next_tab_id
    }

    /// Ids are unique and below the next one to hand out; a tab is active
    /// exactly when there are tabs, and the active id is an open tab's; every
    /// tab's text selection state is well formed.
    pub open spec fn wf(&self) -> bool {
        let tabs = self.spec_tabs();
        &&& ids_unique(tabs)
        &&& forall|i: int| 0 <= i < tabs.len() ==> #[trigger] tabs[i].id < self.spec_next_tab_id()
        &&& (self.spec_active_tab_id() is Some <==> tabs.len() > 0)
        &&& (self.spec_active_tab_id() matches Some(id) ==> has_tab_id(tabs, id))
        &&& forall|i: int| 0 <= i < tabs.len() ==> (#[trigger] tabs[i]).text_selection_manager.wf()
    }

    /// Index of the active tab, or -1.
    pub open spec fn active_index(&self) -> int {
        match self.spec_active_tab_id() {
            Some(id) => index_of_id(self.spec_tabs(), id),
            None => -1,
        }
    }

    pub fn new() -> (r: Self)
        ensures
            r.wf(),
            r.spec_tabs().len() == 0,
            r.spec_active_tab_id() is None,
            r.spec_next_tab_id() == 1,
    {
        TabBar { tabs: Vec::new(), active_tab_id: None, next_tab_id: 1 }
    }

    /// Opens an empty tab at the end and makes it active; returns its id.
    pub fn create_tab(&mut self) -> (id: usize)
        requires
            old(self).wf(),
            old(self).spec_next_tab_id() < usize::MAX,
        ensures
            final(self).wf(),
            id == old(self).spec_next_tab_id(),
            final(self).spec_next_tab_id() == id + 1,
            final(self).spec_tabs().len() == old(self).spec_tabs().len() + 1,
            final(self).spec_tabs().drop_last() == old(self).spec_tabs(),
            final(self).spec_tabs().last().is_new_tab(id),
            final(self).spec_active_tab_id() == Some(id),
    {
        let id = self.next_tab_id;
        self.next_tab_id += 1;
        let tab = PdfTab::new(id);
        self.tabs.push(tab);
        self.active_tab_id = Some(id);
        assert(self.tabs@.drop_last() =~= old(self).tabs@);
        assert(has_tab_id(self.tabs@, id)) by {
            assert(self.tabs@[self.tabs@.len() - 1].id == id);
        }
        id
    }

    /// Opens a tab for a loaded document at the end and makes it active;
    /// returns its id.
    pub fn create_tab_with_path(&mut self, path: String, pages: Vec<PageSummary>) -> (id: usize)
        requires
            old(self).wf(),
            old(self).spec_next_tab_id() < usize::MAX,
        ensures
            final(self).wf(),
            id == old(self).spec_next_tab_id(),
            final(self).spec_next_tab_id() == id + 1,
            final(self).spec_tabs().len() == old(self).spec_tabs().len() + 1,
            final(self).spec_tabs().drop_last() == old(self).spec_tabs(),
            ({
                let t = final(self).spec_tabs().last();
                &&& t.id == id
                &&& t.path == Some(path)
                &&& t.pages@ == pages@
                &&& t.selected_page == 0
                &&& t.active_page == 0
                &&& t.last_saved_position is None
            }),
            final(self).spec_active_tab_id() == Some(id),
    {
        let id = self.next_tab_id;
        self.next_tab_id += 1;
        let mut tab = PdfTab::new(id);
        tab.path = Some(path);
        tab.pages = pages;
        self.tabs.push(tab);
        self.active_tab_id = Some(id);
        assert(self.tabs@.drop_last() =~= old(self).tabs@);
        assert(has_tab_id(self.tabs@, id)) by {
            assert(self.tabs@[self.tabs@.len() - 1].id == id);
        }
        id
    }

    /// Position of the tab with the given id.
    pub fn get_tab_index_by_id(&self, tab_id: usize) -> (r: Option<usize>)
        ensures
            match r {
                Some(i) => i as int == index_of_id(self.spec_tabs(), tab_id) && i < self.spec_tabs().len(),
                None => index_of_id(self.spec_tabs(), tab_id) == -1,
            },
    {
        proof {
            lemma_index_of_id(self.tabs@, tab_id);
        }
        let mut i: usize = 0;
        while i < self.tabs.len()
            invariant
                i <= self.tabs@.len(),
                forall|k: int| 0 <= k < i ==> self.tabs@[k].id != tab_id,
                -1 <= index_of_id(self.tabs@, tab_id) < self.tabs@.len(),
                index_of_id(self.tabs@, tab_id) >= 0 ==> self.tabs@[index_of_id(self.tabs@, tab_id)].id
                    == tab_id,
                index_of_id(self.tabs@, tab_id) >= 0 ==> forall|k: int|
                    0 <= k < index_of_id(self.tabs@, tab_id) ==> self.tabs@[k].id != tab_id,
                index_of_id(self.tabs@, tab_id) == -1 <==> !has_tab_id(self.tabs@, tab_id),
            decreases self.tabs@.len() - i,
        {
            if self.tabs[i].id == tab_id {
                return Some(i);
            }
            i += 1;
        }
        None
    }

    /// Closes the tab with the given id; when it was active, the tab that takes
    /// its place (else the new last one) becomes active. False when no tab has
    /// that id.
    pub fn close_tab(&mut self, tab_id: usize) -> (r: bool)
        requires
            old(self).wf(),
        ensures
            final(self).wf(),
            final(self).spec_next_tab_id() == old(self).spec_next_tab_id(),
            r == has_tab_id(old(self).spec_tabs(), tab_id),
            r ==> ({
                let i = index_of_id(old(self).spec_tabs(), tab_id);
                &&& final(self).spec_tabs() == old(self).spec_tabs().remove(i)
                &&& final(self).spec_active_tab_id() == active_after_close(
                    old(self).spec_active_tab_id(),
                    tab_id,
                    i,
                    final(self).spec_tabs(),
                )
            }),
            !r ==> final(self).spec_tabs() == old(self).spec_tabs()
                && final(self).spec_active_tab_id() == old(self).spec_active_tab_id(),
    {
        proof {
            lemma_index_of_id(self.tabs@, tab_id);
        }
        match self.get_tab_index_by_id(tab_id) {
            Some(index) => {
                let ghost old_tabs = self.tabs@;
                self.tabs.remove(index);
                let ghost rest = self.tabs@;
                assert(rest =~= old_tabs.remove(index as int));
                if self.active_tab_id == Some(tab_id) {
                    if self.tabs.len() == 0 {
                        self.active_tab_id = None;
                    } else if index < self.tabs.len() {
                        self.active_tab_id = Some(self.tabs[index].id);
                        assert(has_tab_id(rest, rest[index as int].id));
                    } else {
                        let last = self.tabs.len() - 1;
                        self.active_tab_id = Some(self.tabs[last].id);
                        assert(has_tab_id(rest, rest[last as int].id));
                    }
                } else {
                    proof {
                        if let Some(a) = old(self).active_tab_id {
                            let k = choose|k: int| 0 <= k < old_tabs.len() && old_tabs[k].id == a;
                            if k < index {
                                assert(rest[k] == old_tabs[k]);
                            } else {
                                assert(k != index);
                                assert(rest[k - 1] == old_tabs[k]);
                            }
                        }
                    }
                }
                assert(ids_unique(rest)) by {
                    assert forall|a: int, b: int|
                        0 <= a < rest.len() && 0 <= b < rest.len() && a != b implies rest[a].id
                        != rest[b].id by {
                        let oa = if a < index {
                            a
                        } else {
                            a + 1
                        };
                        let ob = if b < index {
                            b
                        } else {
                            b + 1
                        };
                        assert(rest[a] == old_tabs[oa]);
                        assert(rest[b] == old_tabs[ob]);
                    }
                }
                assert forall|k: int| 0 <= k < rest.len() implies #[trigger] rest[k].id
                    < self.next_tab_id by {
                    if k < index {
                        assert(rest[k] == old_tabs[k]);
                    } else {
                        assert(rest[k] == old_tabs[k + 1]);
                    }
                }
                true
            },
            None => false,
        }
    }

    /// Makes the tab with the given id active; false when no tab has that id.
    pub fn switch_to_tab(&mut self, tab_id: usize) -> (r: bool)
        requires
            old(self).wf(),
        ensures
            final(self).wf(),
            r == has_tab_id(old(self).spec_tabs(), tab_id),
            final(self).spec_tabs() == old(self).spec_tabs(),
            final(self).spec_next_tab_id() == old(self).spec_next_tab_id(),
            final(self).spec_active_tab_id() == if r {
                Some(tab_id)
            } else {
                old(self).spec_active_tab_id()
            },
            !r ==> *final(self) == *old(self),
    {
        proof {
            lemma_index_of_id(self.tabs@, tab_id);
        }
        match self.get_tab_index_by_id(tab_id) {
            Some(_) => {
                self.active_tab_id = Some(tab_id);
                true
            },
            None => false,
        }
    }

    /// The active tab.
    pub fn get_active_tab(&self) -> (r: Option<&PdfTab>)
        requires
            self.wf(),
        ensures
            match r {
                Some(t) => self.active_index() >= 0 && *t == self.spec_tabs()[self.active_index()],
                None => self.spec_active_tab_id() is None,
            },
    {
        match self.active_tab_id {
            Some(id) => {
                proof {
                    lemma_index_of_id(self.tabs@, id);
                }
                match self.get_tab_index_by_id(id) {
                    Some(i) => Some(&self.tabs[i]),
                    None => None,
                }
            },
            None => None,
        }
    }

    /// The tab with the given id, for changing it in place.
    pub fn get_tab_mut(&mut self, tab_id: usize) -> (r: Option<&mut PdfTab>)
        ensures
            match r {
                Some(t) => {
                    let i = index_of_id(old(self).spec_tabs(), tab_id);
                    &&& 0 <= i < old(self).spec_tabs().len()
                    &&& *t == old(self).spec_tabs()[i]
                    &&& final(self).spec_tabs() == old(self).spec_tabs().update(i, *final(t))
                    &&& final(self).spec_active_tab_id() == old(self).spec_active_tab_id()
                    &&& final(self).spec_next_tab_id() == old(self).spec_next_tab_id()
                },
                None => index_of_id(old(self).spec_tabs(), tab_id) == -1 && *final(self)
                    == *old(self),
            },
    {
        proof {
            lemma_index_of_id(self.tabs@, tab_id);
        }
        match self.get_tab_index_by_id(tab_id) {
            Some(i) => Some(&mut self.tabs[i]),
            None => None,
        }
    }

    /// The active tab, for changing it in place.
    pub fn get_active_tab_mut(&mut self) -> (r: Option<&mut PdfTab>)
        requires
            old(self).wf(),
        ensures
            match r {
                Some(t) => {
                    let i = old(self).active_index();
                    &&& 0 <= i < old(self).spec_tabs().len()
                    &&& *t == old(self).spec_tabs()[i]
                    &&& final(self).spec_tabs() == old(self).spec_tabs().update(i, *final(t))
                    &&& final(self).spec_active_tab_id() == old(self).spec_active_tab_id()
                    &&& final(self).spec_next_tab_id() == old(self).spec_next_tab_id()
                },
                None => old(self).spec_active_tab_id() is None && *final(self) == *old(self),
            },
    {
        match self.active_tab_id {
            Some(id) => {
                proof {
                    lemma_index_of_id(self.tabs@, id);
                }
                self.get_tab_mut(id)
            },
            None => None,
        }
    }

    /// Moves the tab at `from` to position `to`, the others keeping their order.
    pub fn move_tab(&mut self, from: usize, to: usize)
        requires
            old(self).wf(),
            from < old(self).spec_tabs().len(),
            to < old(self).spec_tabs().len(),
        ensures
            final(self).wf(),
            final(self).spec_tabs() == old(self).spec_tabs().remove(from as int).insert(
                to as int,
                old(self).spec_tabs()[from as int],
            ),
            final(self).spec_active_tab_id() == old(self).spec_active_tab_id(),
            final(self).spec_next_tab_id() == old(self).spec_next_tab_id(),
    {
        let ghost before = self.tabs@;
        let tab = self.tabs.remove(from);
        self.tabs.insert(to, tab);
        let ghost after = self.tabs@;
        assert(after =~= before.remove(from as int).insert(to as int, before[from as int]));
        assert forall|k: int| 0 <= k < after.len() implies after[k] == before[moved_from(
            k,
            from as int,
            to as int,
        )] by {}
        assert(ids_unique(after)) by {
            assert forall|a: int, b: int|
                0 <= a < after.len() && 0 <= b < after.len() && a != b implies after[a].id
                != after[b].id by {
                assert(after[a] == before[moved_from(a, from as int, to as int)]);
                assert(after[b] == before[moved_from(b, from as int, to as int)]);
            }
        }
        assert forall|k: int| 0 <= k < after.len() implies #[trigger] after[k].id
            < self.next_tab_id by {
            assert(after[k] == before[moved_from(k, from as int, to as int)]);
        }
        if let Some(a) = self.active_tab_id {
            proof {
                let k = choose|k: int| 0 <= k < before.len() && before[k].id == a;
                let j = if k == from {
                    to as int
                } else {
                    let r = if k < from {
                        k
                    } else {
                        k - 1
                    };
                    if r < to {
                        r
                    } else {
                        r + 1
                    }
                };
                assert(moved_from(j, from as int, to as int) == k);
                assert(after[j] == before[k]);
            }
        }
    }

    /// The id the next new tab will get.
    pub fn next_tab_id(&self) -> (r: usize)
        ensures
            r == self.spec_next_tab_id(),
    {
        self.next_tab_id
    }

    pub fn tabs(&self) -> (r: &[PdfTab])
        ensures
            r@ == self.spec_tabs(),
    {
        self.tabs.as_slice()
    }

    pub fn active_tab_id(&self) -> (r: Option<usize>)
        ensures
            r == self.spec_active_tab_id(),
    {
        self.active_tab_id
    }

    pub fn has_tabs(&self) -> (r: bool)
        ensures
            r == (self.spec_tabs().len() > 0),
    {
        self.tabs.len() != 0
    }

    pub fn tab_count(&self) -> (r: usize)
        ensures
            r == self.spec_tabs().len(),
    {
        self.tabs.len()
    }
}

/// Tabs with the same ids in the same order are found at the same places.
pub proof fn lemma_index_of_id_same_ids(a: Seq<PdfTab>, b: Seq<PdfTab>, id: usize)
    requires
        a.len() == b.len(),
        forall|k: int| 0 <= k < a.len() ==> #[trigger] a[k].id == b[k].id,
    ensures
        index_of_id(a, id) == index_of_id(b, id),
    decreases a.len(),
{
    if a.len() > 0 {
        assert forall|k: int| 0 <= k < a.len() - 1 implies #[trigger] a.drop_last()[k].id
            == b.drop_last()[k].id by {
            assert(a[k].id == b[k].id);
        }
        lemma_index_of_id_same_ids(a.drop_last(), b.drop_last(), id);
        assert(a.last().id == b.last().id);
    }
}

/// Changing a tab in place keeps the bar well formed as long as its id stays.
pub proof fn lemma_update_keeps_wf(before: &TabBar, after: &TabBar, i: int, t: PdfTab)
    requires
        before.wf(),
        0 <= i < before.spec_tabs().len(),
        t.id == before.spec_tabs()[i].id,
        t.text_selection_manager.wf(),
        after.spec_tabs() == before.spec_tabs().update(i, t),
        after.spec_active_tab_id() == before.spec_active_tab_id(),
        after.spec_next_tab_id() == before.spec_next_tab_id(),
    ensures
        after.wf(),
{
    let tabs = after.spec_tabs();
    assert forall|k: int| 0 <= k < tabs.len() implies #[trigger] tabs[k].id == before.spec_tabs()[k].id by {}
    if let Some(a) = after.spec_active_tab_id() {
        let k = choose|k: int| 0 <= k < before.spec_tabs().len() && before.spec_tabs()[k].id == a;
        assert(tabs[k].id == a);
    }
}

} // verus!
